use clockguess::clock::{ClockTime, TimeError};
use clockguess::duration::Duration;
use clockguess::cli::GameMode;
use clockguess::difficulty::Difficulty;
use clockguess::game::{
    answer_step, continue_choice, format_duration, judge_answer, retry_prompt, round_feedback,
    unit, AnswerStep, ContinueChoice, PlayerInput, RoundControl, Session,
};
use clockguess::score::stats::RoundOutcome;

/// Feeds the lines of `input` to the answer prompt until it settles, as the
/// prompt loop does, collecting what it writes.
fn run_answer_prompt(input: &[u8], output: &mut String) -> PlayerInput {
    let text = std::str::from_utf8(input).unwrap();
    let mut lines = text.split_inclusive('\n');
    loop {
        match answer_step(lines.next()) {
            AnswerStep::Done(result) => return result,
            AnswerStep::Retry(error) => output.push_str(&retry_prompt(error)),
        }
    }
}

#[test]
fn q_quits_during_answer_prompt() {
    let input: &[u8] = b"q\n";
    let mut output = String::new();

    let result = run_answer_prompt(input, &mut output);

    assert!(matches!(result, PlayerInput::Quit));
}

#[test]
fn eof_quits_during_answer_prompt() {
    let input: &[u8] = b"";
    let mut output = String::new();

    let result = run_answer_prompt(input, &mut output);

    assert!(matches!(result, PlayerInput::Quit));
}

#[test]
fn invalid_input_is_retried() {
    let input: &[u8] = b"invalid\n9:30\n";
    let mut output = String::new();

    let result = run_answer_prompt(input, &mut output);

    assert!(matches!(
        result,
        PlayerInput::Answer(time) if time == ClockTime::new(9, 30, 0)
    ));

    assert!(output.contains("Invalid time:"));
    assert!(output.contains("Try again"));
}

#[test]
fn eof_does_not_continue() {
    let result = continue_choice(None);

    assert_eq!(result, ContinueChoice::Quit);
}

#[test]
fn fromat_duration() {
    assert_eq!(format_duration(0), "0 seconds");
    assert_eq!(format_duration(1), "1 second");
    assert_eq!(format_duration(60), "1 minute");
    assert_eq!(format_duration(61), "1 minute and 1 second");
}

// Further cases.

#[test]
fn answer_prompt_steps() {
    assert_eq!(answer_step(Some("  Q \n")), AnswerStep::Done(PlayerInput::Quit));
    assert_eq!(
        answer_step(Some("qq\n")),
        AnswerStep::Retry(TimeError::NotANumber(clockguess::clock::TimeComponent::Hour))
    );
    assert_eq!(
        answer_step(Some(" 1415\n")),
        AnswerStep::Done(PlayerInput::Answer(ClockTime::new(14, 15, 0)))
    );
    assert_eq!(answer_step(Some("\n")), AnswerStep::Retry(TimeError::Empty));
    assert_eq!(
        retry_prompt(TimeError::Empty),
        "Invalid time: time cannot be empty\nTry again, or enter q to quit: "
    );
}

#[test]
fn continue_prompt_choices() {
    assert_eq!(continue_choice(Some("\n")), ContinueChoice::Continue);
    assert_eq!(continue_choice(Some("q\n")), ContinueChoice::Quit);
    assert_eq!(continue_choice(Some(" Q")), ContinueChoice::Quit);
    assert_eq!(continue_choice(Some("quit\n")), ContinueChoice::Continue);
}

#[test]
fn durations_in_words() {
    assert_eq!(format_duration(2), "2 seconds");
    assert_eq!(format_duration(120), "2 minutes");
    assert_eq!(format_duration(150), "2 minutes and 30 seconds");
    assert_eq!(format_duration(3601), "60 minutes and 1 second");
    assert_eq!(unit(1, "hour", "hours"), "1 hour");
    assert_eq!(unit(12, "hour", "hours"), "12 hours");
}

#[test]
fn judging_and_feedback() {
    let expected = ClockTime::new(10, 0, 0);
    let exact = judge_answer(expected, ClockTime::new(22, 0, 0), Difficulty::Minute, Duration::from_secs(3));
    assert_eq!(exact.difference_seconds, 0);
    assert!(exact.correct);
    assert_eq!(round_feedback(exact), "Correct! Exact answer.");

    let close = judge_answer(expected, ClockTime::new(10, 0, 20), Difficulty::Minute, Duration::from_secs(3));
    assert!(close.correct);
    assert_eq!(round_feedback(close), "Correct! Your answer was off by 20 seconds.");

    let far = judge_answer(expected, ClockTime::new(9, 58, 59), Difficulty::Minute, Duration::from_secs(3));
    assert!(!far.correct);
    assert_eq!(far.difference_seconds, 61);
    assert_eq!(round_feedback(far), "Incorrect. Your answer was off by 1 minute and 1 second.");
}

fn outcome(difference_seconds: u32, correct: bool) -> RoundOutcome {
    RoundOutcome { difference_seconds, elapsed: Duration::from_secs(1), correct }
}

#[test]
fn challenge_session_plays_its_rounds() {
    let mut session = Session::new(GameMode::Challenge, Difficulty::Hour, Some(2));
    assert_eq!(session.round_header().unwrap(), "Round 1/2");
    assert!(session.wants_round(false));
    session.finish_round(RoundControl::Completed(outcome(0, true)));
    assert_eq!(session.round_header().unwrap(), "Round 2/2");
    session.finish_round(RoundControl::Completed(outcome(4000, false)));
    assert!(!session.wants_round(true));
    assert!(session.should_save());
    assert_eq!(session.closing_message(), None);
    let record = session.record();
    assert_eq!(record.mode, GameMode::Challenge);
    assert_eq!(record.points, 150);
    assert_eq!(record.correct, 1);
    assert_eq!(record.incorrect, 1);
    assert_eq!(record.total_answer_time, 2);
    assert!(record.played_at_unix > 1_600_000_000);
}

#[test]
fn quitting_ends_a_session_unsaved() {
    let mut session = Session::new(GameMode::RapidFire, Difficulty::Exact, None);
    assert!(session.wants_round(true));
    assert!(!session.wants_round(false));
    assert_eq!(session.round_header(), None);
    session.finish_round(RoundControl::Quit);
    assert!(!session.wants_round(true));
    assert!(session.stats().has_quit());
    assert!(!session.should_save());
    assert_eq!(session.closing_message(), Some("Session ended."));

    let timed_out = Session::new(GameMode::RapidFire, Difficulty::Exact, None);
    assert_eq!(timed_out.closing_message(), Some("Time's up!"));
}

#[test]
fn practice_asks_to_continue_and_is_never_saved() {
    let mut session = Session::new(GameMode::Practice, Difficulty::Minute, None);
    assert!(session.wants_round(false));
    session.finish_round(RoundControl::Completed(outcome(10, true)));
    assert!(session.asks_to_continue());
    session.answer_continue(ContinueChoice::Continue);
    assert!(session.wants_round(false));
    session.answer_continue(ContinueChoice::Quit);
    assert!(!session.wants_round(false));
    assert!(!session.asks_to_continue());
    assert!(!session.should_save());
    assert_eq!(session.stats().points(), 500);
}

#[test]
fn clock_height_leaves_room_for_prompts() {
    assert_eq!(clockguess::game::clock_height(24), Some(20));
    assert_eq!(clockguess::game::clock_height(4), Some(0));
    assert_eq!(clockguess::game::clock_height(3), None);
}
