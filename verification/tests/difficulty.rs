use clockguess::cli::SecondHandMode;
use clockguess::clock::ClockTime;
use clockguess::difficulty::Difficulty;

#[test]
fn five_minute_difficulty_accepts_half_interval_boundary() {
    let expected = ClockTime::new(10, 0, 0);
    let answer = ClockTime::new(10, 2, 30);

    assert!(Difficulty::FiveMinutes.accepts(expected, answer));
}

#[test]
fn five_minute_difficulty_rejects_beyond_half_interval() {
    let expected = ClockTime::new(10, 0, 0);
    let answer = ClockTime::new(10, 2, 31);

    assert!(!Difficulty::FiveMinutes.accepts(expected, answer));
}

const ALL: [Difficulty; 6] = [
    Difficulty::Hour,
    Difficulty::TenMinutes,
    Difficulty::FiveMinutes,
    Difficulty::Minute,
    Difficulty::ThirtySeconds,
    Difficulty::Exact,
];

#[test]
fn precisions_and_tolerances() {
    let p: Vec<u32> = ALL.iter().map(|d| d.precision_seconds()).collect();
    assert_eq!(p, vec![3600, 600, 300, 60, 30, 0]);
    let t: Vec<u32> = ALL.iter().map(|d| d.tolerance_seconds()).collect();
    assert_eq!(t, vec![1800, 300, 150, 30, 15, 0]);
    assert_eq!(Difficulty::default(), Difficulty::TenMinutes);
    assert_eq!(Difficulty::Hour.description(), "nearest hour");
    assert_eq!(Difficulty::Exact.description(), "exact time");
}

#[test]
fn stricter_acceptance_implies_looser_acceptance() {
    let expected = ClockTime::new(4, 10, 0);
    for answer in [ClockTime::new(4, 10, 0), ClockTime::new(16, 10, 10), ClockTime::new(4, 14, 0), ClockTime::new(4, 40, 0)] {
        for (i, strict) in ALL.iter().enumerate() {
            if strict.accepts(expected, answer) {
                for lenient in &ALL[..=i] {
                    assert!(lenient.accepts(expected, answer));
                }
            }
            assert_eq!(strict.accepts(expected, answer), strict.accepts(answer, expected));
        }
    }
    assert!(Difficulty::Exact.accepts(expected, ClockTime::new(16, 10, 0)));
    assert!(!Difficulty::Exact.accepts(expected, ClockTime::new(4, 10, 1)));
}

#[test]
fn second_hand_resolution() {
    assert!(SecondHandMode::Auto.resolve(Difficulty::Exact));
    assert!(SecondHandMode::Auto.resolve(Difficulty::ThirtySeconds));
    assert!(!SecondHandMode::Auto.resolve(Difficulty::Minute));
    assert!(SecondHandMode::Show.resolve(Difficulty::Hour));
    assert!(!SecondHandMode::Hide.resolve(Difficulty::Exact));
    assert_eq!(SecondHandMode::default(), SecondHandMode::Auto);
}
