use clockguess::difficulty::Difficulty;
use clockguess::duration::Duration;
use clockguess::score::stats::{calculate_points, RoundOutcome, SessionStats};

#[test]
fn exact_answer_receives_bonus() {
    assert_eq!(calculate_points(Difficulty::Minute, 0), 750,);
}

#[test]
fn non_exact_correct_answer_receives_base_points() {
    assert_eq!(calculate_points(Difficulty::Minute, 15), 500,);
}

#[test]
fn records_correct_answer() {
    let mut stats = SessionStats::default();

    stats.record(
        RoundOutcome {
            difference_seconds: 0,
            elapsed: Duration::from_secs(2),
            correct: true,
        },
        Difficulty::Minute,
    );

    assert_eq!(stats.attempted(), 1);
    assert_eq!(stats.correct(), 1);
    assert_eq!(stats.incorrect(), 0);
    assert_eq!(stats.exact(), 1);
    assert_eq!(stats.points(), 750);
}

#[test]
fn calculates_accuracy() {
    let mut stats = SessionStats::default();

    stats.record(
        RoundOutcome {
            difference_seconds: 0,
            elapsed: Duration::from_secs(2),
            correct: true,
        },
        Difficulty::Minute,
    );

    stats.record(
        RoundOutcome {
            difference_seconds: 120,
            elapsed: Duration::from_secs(4),
            correct: false,
        },
        Difficulty::Minute,
    );

    let accuracy = Some(f64::from(stats.correct()) / f64::from(stats.attempted()));
    assert_eq!(accuracy, Some(0.5));
}

// Further cases.

#[test]
fn points_per_level() {
    let base = [
        (Difficulty::Hour, 100),
        (Difficulty::TenMinutes, 200),
        (Difficulty::FiveMinutes, 300),
        (Difficulty::Minute, 500),
        (Difficulty::ThirtySeconds, 750),
        (Difficulty::Exact, 1000),
    ];
    for (d, p) in base {
        assert_eq!(calculate_points(d, 7), p);
        assert_eq!(calculate_points(d, 0), p + p / 2);
    }
}

#[test]
fn times_are_tallied() {
    let mut stats = SessionStats::new();
    assert_eq!(stats.average_answer_time(), None);
    assert_eq!(stats.best_answer_time(), None);
    for (millis, correct) in [(3_000, true), (1_500, false), (4_000, true)] {
        stats.record(
            RoundOutcome { difference_seconds: 5, elapsed: Duration::from_nanos(millis * 1_000_000), correct },
            Difficulty::TenMinutes,
        );
    }
    assert_eq!(stats.total_answer_time(), Duration::from_nanos(8_500_000_000));
    assert_eq!(stats.best_answer_time(), Some(Duration::from_nanos(1_500_000_000)));
    assert_eq!(stats.average_answer_time().unwrap().as_nanos(), 8_500_000_000 / 3);
    assert!(stats.average_answer_time().unwrap().as_nanos() >= stats.best_answer_time().unwrap().as_nanos());
    assert_eq!(stats.points(), 400);
    assert_eq!(stats.exact(), 0);
    assert!(!stats.has_quit());
    stats.quit();
    assert!(stats.has_quit());
    assert_eq!(stats.attempted(), 3);
}

#[test]
fn wrong_answers_earn_nothing() {
    let mut stats = SessionStats::new();
    let o = RoundOutcome { difference_seconds: 0, elapsed: Duration::from_secs(1), correct: false };
    assert!(!o.is_exact() || o.difference_seconds == 0);
    stats.record(o, Difficulty::Exact);
    assert_eq!(stats.points(), 0);
    assert_eq!(stats.exact(), 0);
    assert_eq!(stats.incorrect(), 1);
}

#[test]
fn durations() {
    let d = Duration::from_nanos(2_500_000_000);
    assert_eq!(d.as_secs(), 2);
    assert_eq!(d.subsec_nanos(), 500_000_000);
    assert_eq!(d.div(2), Duration::from_nanos(1_250_000_000));
    assert_eq!(d.min(Duration::from_secs(1)), Duration::from_secs(1));
    assert_eq!(Duration::from_secs(1).add(Duration::from_nanos(1_000_000)).as_nanos(), 1_001_000_000);
    let max = Duration::from_nanos(clockguess::duration::MAX_NANOS);
    assert_eq!(max.checked_add(Duration::from_nanos(1)), None);
    assert_eq!(max.as_secs(), u64::MAX);
}

#[test]
fn tally_after_interleaved_calls() {
    let mut stats = SessionStats::default();
    stats.record(RoundOutcome { difference_seconds: 0, elapsed: Duration::from_secs(2), correct: true }, Difficulty::Exact);
    stats.quit();
    stats.record(RoundOutcome { difference_seconds: 9, elapsed: Duration::from_secs(5), correct: false }, Difficulty::Hour);
    assert_eq!(stats.attempted(), 2);
    assert_eq!(stats.correct(), 1);
    assert_eq!(stats.points(), 1500);
    assert!(stats.points() <= 1500 * stats.correct());
    assert_eq!(stats.total_answer_time(), Duration::from_secs(7));
    assert_eq!(stats.best_answer_time(), Some(Duration::from_secs(2)));
    assert!(stats.has_quit());
}
