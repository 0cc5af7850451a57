use clockguess::clock::{ClockTime, TimeComponent, TimeError, SECONDS_PER_CLOCK_CYCLE};

#[test]
fn midnight_displays_as_twelve() {
    assert_eq!(ClockTime::new(0, 15, 0).hour_12(), 12);
}

#[test]
fn noon_displays_as_twelve() {
    assert_eq!(ClockTime::new(12, 15, 0).hour_12(), 12);
}

#[test]
fn analog_difference_is_symmetric() {
    let a = ClockTime::new(11, 59, 0);
    let b = ClockTime::new(12, 1, 0);

    assert_eq!(a.analog_difference(b), b.analog_difference(a));
}

#[test]
fn analog_difference_uses_shortest_path() {
    let a = ClockTime::new(1, 0, 0);
    let b = ClockTime::new(11, 0, 0);

    assert_eq!(a.analog_difference(b), 2 * 60 * 60);
}

#[test]
fn parses_hour_only() {
    assert_eq!("7".parse::<ClockTime>().unwrap(), ClockTime::new(7, 0, 0));
}

#[test]
fn parses_hour_and_minute() {
    assert_eq!(
        "7:30".parse::<ClockTime>().unwrap(),
        ClockTime::new(7, 30, 0)
    );
}

#[test]
fn parses_full_time() {
    assert_eq!(
        "7:30:15".parse::<ClockTime>().unwrap(),
        ClockTime::new(7, 30, 15)
    );
}

#[test]
fn rejects_extra_components() {
    assert!("7:30:15:10".parse::<ClockTime>().is_err());
}

#[test]
fn rejects_invalid_values() {
    assert!("24:00".parse::<ClockTime>().is_err());
    assert!("12:60".parse::<ClockTime>().is_err());
    assert!("12:30:60".parse::<ClockTime>().is_err());
}

#[test]
fn computes_difference_across_twelve_oclock() {
    let before = ClockTime::new(11, 59, 0);
    let after = ClockTime::new(12, 1, 0);

    assert_eq!(before.analog_difference(after), 120);
}

#[test]
fn ignores_am_pm_for_analog_comparison() {
    let morning = ClockTime::new(3, 15, 0);
    let afternoon = ClockTime::new(15, 15, 0);

    assert_eq!(morning.analog_difference(afternoon), 0);
}

#[test]
fn parses_compact_times() {
    assert_eq!(
        "920".parse::<ClockTime>().unwrap(),
        ClockTime::new(9, 20, 0)
    );
    assert_eq!(
        "1320".parse::<ClockTime>().unwrap(),
        ClockTime::new(13, 20, 0)
    );
    assert_eq!(
        "132045".parse::<ClockTime>().unwrap(),
        ClockTime::new(13, 20, 45)
    );
}

#[test]
fn parses_multiple_separators() {
    assert_eq!(
        "9:20".parse::<ClockTime>().unwrap(),
        ClockTime::new(9, 20, 0)
    );
    assert_eq!(
        "9 20".parse::<ClockTime>().unwrap(),
        ClockTime::new(9, 20, 0)
    );
    assert_eq!(
        "9.20".parse::<ClockTime>().unwrap(),
        ClockTime::new(9, 20, 0)
    );
}

// Further cases.

#[test]
fn try_new_reports_first_part_out_of_range() {
    assert_eq!(
        ClockTime::try_new(24, 60, 60),
        Err(TimeError::OutOfRange(TimeComponent::Hour))
    );
    assert_eq!(
        ClockTime::try_new(23, 60, 60),
        Err(TimeError::OutOfRange(TimeComponent::Minute))
    );
    assert_eq!(
        ClockTime::try_new(23, 59, 60),
        Err(TimeError::OutOfRange(TimeComponent::Second))
    );
    assert_eq!(ClockTime::try_new(23, 59, 59), Ok(ClockTime::new(23, 59, 59)));
}

#[test]
fn parse_reports_each_error() {
    assert_eq!(ClockTime::parse("   "), Err(TimeError::Empty));
    assert_eq!(ClockTime::parse(""), Err(TimeError::Empty));
    assert_eq!(ClockTime::parse("1234567"), Err(TimeError::CompactLength));
    assert_eq!(
        ClockTime::parse("x:30"),
        Err(TimeError::NotANumber(TimeComponent::Hour))
    );
    assert_eq!(
        ClockTime::parse("7:3x"),
        Err(TimeError::NotANumber(TimeComponent::Minute))
    );
    assert_eq!(
        ClockTime::parse("7:30:-1"),
        Err(TimeError::NotANumber(TimeComponent::Second))
    );
    assert_eq!(
        ClockTime::parse("7:300"),
        Err(TimeError::NotANumber(TimeComponent::Minute))
    );
    assert_eq!(
        ClockTime::parse("1:2:3:4"),
        Err(TimeError::TooManyComponents)
    );
    assert_eq!(ClockTime::parse(" :. "), Err(TimeError::MissingHour));
    assert_eq!(ClockTime::parse("24:0:0:0"), Err(TimeError::TooManyComponents));
    assert_eq!(
        ClockTime::parse("24:0:x:0"),
        Err(TimeError::NotANumber(TimeComponent::Second))
    );
    assert_eq!(
        ClockTime::parse("999"),
        Err(TimeError::OutOfRange(TimeComponent::Minute))
    );
    assert_eq!(
        ClockTime::parse("25"),
        Err(TimeError::OutOfRange(TimeComponent::Hour))
    );
}

#[test]
fn parse_edge_forms() {
    assert_eq!(ClockTime::parse("  07:05 \n"), Ok(ClockTime::new(7, 5, 0)));
    assert_eq!(ClockTime::parse("+7:+05"), Ok(ClockTime::new(7, 5, 0)));
    assert_eq!(ClockTime::parse("9::20"), Ok(ClockTime::new(9, 20, 0)));
    assert_eq!(ClockTime::parse("0"), Ok(ClockTime::new(0, 0, 0)));
    assert_eq!(ClockTime::parse("93015"), Ok(ClockTime::new(9, 30, 15)));
    assert_eq!(ClockTime::parse("0930"), Ok(ClockTime::new(9, 30, 0)));
    assert_eq!(ClockTime::parse("\u{3000}12.5.7\u{a0}"), Ok(ClockTime::new(12, 5, 7)));
}

#[test]
fn text_round_trips() {
    let t = ClockTime::new(7, 5, 9);
    assert_eq!(t.text(), "07:05:09");
    assert_eq!(ClockTime::parse(&t.text()), Ok(t));
    let late = ClockTime::new(23, 59, 59);
    assert_eq!(ClockTime::parse(&late.text()), Ok(late));
}

#[test]
fn analog_text_keeps_dial_position() {
    let t = ClockTime::new(15, 4, 0);
    let shown = t.display_analog().text();
    assert_eq!(shown, "03:04:00");
    let back = ClockTime::parse(&shown).unwrap();
    assert_eq!(back.analog_difference(t), 0);
    assert_eq!(ClockTime::new(0, 0, 0).display_analog().text(), "12:00:00");
}

#[test]
fn seconds_and_dial_positions() {
    let t = ClockTime::new(13, 20, 45);
    assert_eq!(t.total_seconds(), 13 * 3600 + 20 * 60 + 45);
    assert_eq!(t.analog_seconds(), 3600 + 20 * 60 + 45);
    assert_eq!(ClockTime::new(6, 0, 0).analog_difference(ClockTime::new(0, 0, 0)), SECONDS_PER_CLOCK_CYCLE / 2);
    assert_eq!(ClockTime::new(8, 0, 0).analog_difference(ClockTime::new(8, 0, 0)), 0);
}

#[test]
fn random_times_are_valid() {
    for _ in 0..200 {
        let t = ClockTime::random();
        assert!(t.hour() < 24 && t.minute() < 60 && t.second() < 60);
    }
    let distinct = (0..50).map(|_| ClockTime::random().total_seconds()).collect::<std::collections::HashSet<_>>();
    assert!(distinct.len() > 1);
}

#[test]
fn error_messages() {
    assert_eq!(TimeError::Empty.message(), "time cannot be empty");
    assert_eq!(
        TimeError::OutOfRange(TimeComponent::Hour).message(),
        "hour must be between 0 and 23"
    );
    assert_eq!(
        TimeError::NotANumber(TimeComponent::Minute).message(),
        "minute must be a number"
    );
}
