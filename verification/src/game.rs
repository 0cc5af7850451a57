//! The decisions of a game session: reading the player's lines, judging an
//! answer, the messages shown, and when a session goes on, ends and is saved.
//! The terminal work around them (drawing, reading, timing) is done by the
//! caller, which hands each event to these functions.

use vstd::prelude::*;
use vstd::string::*;
use crate::cli::GameMode;
use crate::clock::{analog_difference, error_text, parse_time, ClockTime, TimeError};
use crate::difficulty::{tolerance, Difficulty};
use crate::duration::Duration;
use crate::score::record::ScoreRecord;
use crate::score::stats::{can_record, tally_after, SessionStats, StatsView, RoundOutcome};
use crate::text::{
    chars_of, decimal, push_decimal, trim, trim_bounds, trim_end, trim_start, lemma_trim_idempotent,
};

verus! {

/// What the player answered when asked for the time.
#[derive(Copy, Clone, Debug, PartialEq, Eq, Structural)]
pub enum PlayerInput {
    Answer(ClockTime),
    Quit,
}

/// What the player chose when asked whether to go on.
#[derive(Copy, Clone, Debug, PartialEq, Eq, Structural)]
pub enum ContinueChoice {
    Continue,
    Quit,
}

/// How a round ended.
#[derive(Copy, Clone, Debug, PartialEq, Eq, Structural)]
pub enum RoundControl {
    Completed(RoundOutcome),
    Quit,
}

/// What one line typed at the answer prompt leads to.
#[derive(Copy, Clone, Debug, PartialEq, Eq, Structural)]
pub enum AnswerStep {
    /// The question is settled.
    Done(PlayerInput),
    /// The line is not a time; the player is asked again.
    Retry(TimeError),
}

/// A trimmed line that asks to quit: `q` in either case.
pub open spec fn is_quit_text(t: Seq<char>) -> bool {
    t.len() == 1 && (t[0] == 'q' || t[0] == 'Q')
}

/// What a line at the answer prompt leads to; `None` is the end of input.
/// The line is trimmed; `q` quits; anything else is read as a time.
pub open spec fn answer_step_spec(line: Option<Seq<char>>) -> (PlayerInputView, Option<TimeError>) {
    match line {
        None => (PlayerInputView::Quit, None),
        Some(l) => if is_quit_text(trim(l)) {
            (PlayerInputView::Quit, None)
        } else {
            match parse_time(trim(l)) {
                Ok(t) => (PlayerInputView::Answer(t), None),
                Err(e) => (PlayerInputView::Pending, Some(e)),
            }
        },
    }
}

/// The model of an [`AnswerStep`]: a settled answer, a quit, or nothing yet.
pub enum PlayerInputView {
    Answer(crate::clock::ClockTimeView),
    Quit,
    Pending,
}

pub open spec fn step_view(s: AnswerStep) -> (PlayerInputView, Option<TimeError>) {
    match s {
        AnswerStep::Done(PlayerInput::Answer(t)) => (PlayerInputView::Answer(t@), None),
        AnswerStep::Done(PlayerInput::Quit) => (PlayerInputView::Quit, None),
        AnswerStep::Retry(e) => (PlayerInputView::Pending, Some(e)),
    }
}

/// Whether a trimmed line is `q` or `Q`.
fn is_quit_line(v: &Vec<char>, lo: usize, hi: usize) -> (b: bool)
    requires
        lo <= hi <= v.len(),
    ensures
        b == is_quit_text(v@.subrange(lo as int, hi as int)),
{
    hi - lo == 1 && (v[lo] == 'q' || v[lo] == 'Q')
}

/// Decides what a line typed at the answer prompt means; `None` stands for
/// the end of input.
pub fn answer_step(line: Option<&str>) -> (r: AnswerStep)
    ensures
        step_view(r) == answer_step_spec(
            match line {
                Some(l) => Some(l@),
                None => None,
            },
        ),
{
    match line {
        None => AnswerStep::Done(PlayerInput::Quit),
        Some(l) => {
            let v = chars_of(l);
            let (lo, hi) = trim_bounds(&v);
            if is_quit_line(&v, lo, hi) {
                return AnswerStep::Done(PlayerInput::Quit);
            }
            proof {
                lemma_trim_idempotent(l@);
            }
            match ClockTime::parse(l) {
                Ok(t) => AnswerStep::Done(PlayerInput::Answer(t)),
                Err(e) => AnswerStep::Retry(e),
            }
        },
    }
}

/// Rows of the terminal taken by the lines around the clock.
pub const UI_ROWS: u16 = 4;

/// The rows left for the clock in a terminal `terminal_height` rows tall;
/// none where the terminal is too short to hold the lines around it.
pub fn clock_height(terminal_height: u16) -> (h: Option<u16>)
    ensures
        terminal_height >= UI_ROWS ==> h == Some((terminal_height - UI_ROWS) as u16),
        terminal_height < UI_ROWS ==> h is None,
{
    if terminal_height >= UI_ROWS {
        Some(terminal_height - UI_ROWS)
    } else {
        None
    }
}

/// The prompt shown after an unreadable answer.
pub open spec fn retry_text(e: TimeError) -> Seq<char> {
    "Invalid time: "@ + error_text(e) + "\nTry again, or enter q to quit: "@
}

/// The text shown after an unreadable answer, before the next line is read.
pub fn retry_prompt(error: TimeError) -> (s: String)
    ensures
        s@ == retry_text(error),
{
    let mut s = String::new();
    s.append("Invalid time: ");
    s.append(error.message());
    s.append("\nTry again, or enter q to quit: ");
    s
}

/// What a line typed at the continue prompt means; `None` is the end of
/// input, which ends the session.
pub open spec fn continue_spec(line: Option<Seq<char>>) -> ContinueChoice {
    match line {
        None => ContinueChoice::Quit,
        Some(l) => if is_quit_text(trim(l)) {
            ContinueChoice::Quit
        } else {
            ContinueChoice::Continue
        },
    }
}

/// Decides what a line typed at the continue prompt means.
pub fn continue_choice(line: Option<&str>) -> (c: ContinueChoice)
    ensures
        c == continue_spec(
            match line {
                Some(l) => Some(l@),
                None => None,
            },
        ),
{
    match line {
        None => ContinueChoice::Quit,
        Some(l) => {
            let v = chars_of(l);
            let (lo, hi) = trim_bounds(&v);
            if is_quit_line(&v, lo, hi) {
                ContinueChoice::Quit
            } else {
                ContinueChoice::Continue
            }
        },
    }
}

/// Judges an answer to the shown time at a difficulty.
pub fn judge_answer(expected: ClockTime, answer: ClockTime, difficulty: Difficulty, elapsed: Duration) -> (o: RoundOutcome)
    ensures
        o.difference_seconds == analog_difference(expected@, answer@),
        o.correct == (analog_difference(expected@, answer@) <= tolerance(difficulty)),
        o.elapsed == elapsed,
{
    let difference_seconds = expected.analog_difference(answer);
    let correct = difficulty.accepts(expected, answer);
    RoundOutcome { difference_seconds, elapsed, correct }
}

/// `value` followed by the singular or plural label.
pub open spec fn unit_text(value: nat, singular: Seq<char>, plural: Seq<char>) -> Seq<char> {
    decimal(value) + seq![' '] + (if value == 1 {
        singular
    } else {
        plural
    })
}

/// A number of seconds in words: minutes, seconds, or both joined by `and`.
pub open spec fn duration_text(total_seconds: nat) -> Seq<char> {
    let minutes = total_seconds / 60;
    let seconds = total_seconds % 60;
    if minutes == 0 {
        unit_text(seconds, "second"@, "seconds"@)
    } else if seconds == 0 {
        unit_text(minutes, "minute"@, "minutes"@)
    } else {
        unit_text(minutes, "minute"@, "minutes"@) + " and "@ + unit_text(seconds, "second"@, "seconds"@)
    }
}

pub fn unit(value: u32, singular: &str, plural: &str) -> (s: String)
    ensures
        s@ == unit_text(value as nat, singular@, plural@),
{
    let mut s = String::new();
    push_decimal(&mut s, value);
    s.push(' ');
    if value == 1 {
        s.append(singular);
    } else {
        s.append(plural);
    }
    assert(s@ =~= unit_text(value as nat, singular@, plural@));
    s
}

pub fn format_duration(total_seconds: u32) -> (s: String)
    ensures
        s@ == duration_text(total_seconds as nat),
{
    let minutes = total_seconds / 60;
    let seconds = total_seconds % 60;
    if minutes == 0 {
        unit(seconds, "second", "seconds")
    } else if seconds == 0 {
        unit(minutes, "minute", "minutes")
    } else {
        let mut s = unit(minutes, "minute", "minutes");
        s.append(" and ");
        let tail = unit(seconds, "second", "seconds");
        s.append(tail.as_str());
        s
    }
}

/// What the player is told after answering.
pub open spec fn feedback_text(o: RoundOutcome) -> Seq<char> {
    if o.correct {
        if o.difference_seconds == 0 {
            "Correct! Exact answer."@
        } else {
            "Correct! Your answer was off by "@ + duration_text(o.difference_seconds as nat) + "."@
        }
    } else {
        "Incorrect. Your answer was off by "@ + duration_text(o.difference_seconds as nat) + "."@
    }
}

/// The line that tells the player how the answer fared.
pub fn round_feedback(outcome: RoundOutcome) -> (s: String)
    ensures
        s@ == feedback_text(outcome),
{
    let mut s = String::new();
    if outcome.correct {
        if outcome.difference_seconds == 0 {
            s.append("Correct! Exact answer.");
            return s;
        }
        s.append("Correct! Your answer was off by ");
    } else {
        s.append("Incorrect. Your answer was off by ");
    }
    let d = format_duration(outcome.difference_seconds);
    s.append(d.as_str());
    s.append(".");
    s
}

/// The model of a session.
pub struct SessionView {
    pub mode: GameMode,
    pub difficulty: Difficulty,
    /// The number of rounds of a challenge; none for no limit.
    pub rounds: Option<u32>,
    /// Rounds finished so far, answered or quit (saturating at `u32::MAX`).
    pub played: nat,
    pub stats: StatsView,
    /// The player has ended the session.
    pub over: bool,
}

/// Whether another round is played. A practice goes on until the player
/// stops, a challenge until its rounds are played, a rapid-fire session while
/// time is left; none goes on once the player has ended it.
pub open spec fn wants_round_spec(s: SessionView, time_left: bool) -> bool {
    !s.over && match s.mode {
        GameMode::Practice => true,
        GameMode::Challenge => match s.rounds {
            Some(n) => s.played < n,
            None => true,
        },
        GameMode::RapidFire => time_left,
    }
}

/// The session after a round: a completed round is recorded, a quit ends the
/// session.
pub open spec fn after_round(s: SessionView, control: RoundControl) -> SessionView {
    let played = if s.played < u32::MAX {
        s.played + 1
    } else {
        s.played
    };
    match control {
        RoundControl::Completed(o) => SessionView {
            played,
            stats: StatsView { rounds: s.stats.rounds.push((o, s.difficulty)), quit: s.stats.quit },
            ..s
        },
        RoundControl::Quit => SessionView {
            played,
            stats: StatsView { quit: true, ..s.stats },
            over: true,
            ..s
        },
    }
}

/// The session after the continue prompt: quitting ends it.
pub open spec fn after_continue(s: SessionView, choice: ContinueChoice) -> SessionView {
    match choice {
        ContinueChoice::Quit => SessionView { over: true, ..s },
        ContinueChoice::Continue => s,
    }
}

/// Only a challenge or rapid-fire session that the player did not abandon is
/// saved.
pub open spec fn should_save_spec(s: SessionView) -> bool {
    s.mode != GameMode::Practice && !s.stats.quit
}

/// The header shown before a challenge round: `Round k/n`, or `Round k`
/// without a limit.
pub open spec fn round_header_text(s: SessionView) -> Seq<char> {
    let k = if s.played < u32::MAX {
        s.played + 1
    } else {
        s.played
    };
    match s.rounds {
        Some(n) => "Round "@ + decimal(k) + "/"@ + decimal(n as nat),
        None => "Round "@ + decimal(k),
    }
}

/// A game session: its settings, progress and statistics.
pub struct Session {
    mode: GameMode,
    difficulty: Difficulty,
    rounds: Option<u32>,
    played: u32,
    stats: SessionStats,
    over: bool,
}

impl View for Session {
    type V = SessionView;

    closed spec fn view(&self) -> SessionView {
        SessionView {
            mode: self.mode,
            difficulty: self.difficulty,
            rounds: self.rounds,
            played: self.played as nat,
            stats: self.stats@,
            over: self.over,
        }
    }
}

impl Session {
    /// A session that has not begun.
    pub fn new(mode: GameMode, difficulty: Difficulty, rounds: Option<u32>) -> (s: Self)
        ensures
            s@.mode == mode,
            s@.difficulty == difficulty,
            s@.rounds == rounds,
            s@.played == 0,
            s@.stats.rounds == Seq::<(RoundOutcome, Difficulty)>::empty(),
            !s@.stats.quit,
            !s@.over,
            s@ == fresh_session(mode, difficulty, rounds),
    {
        Session { mode, difficulty, rounds, played: 0, stats: SessionStats::new(), over: false }
    }

    pub fn stats(&self) -> (s: &SessionStats)
        ensures
            s@ == self@.stats,
    {
        &self.stats
    }

    /// Whether another round is played; `time_left` says whether a
    /// rapid-fire session still has time.
    pub fn wants_round(&self, time_left: bool) -> (b: bool)
        ensures
            b == wants_round_spec(self@, time_left),
    {
        if self.over {
            return false;
        }
        match self.mode {
            GameMode::Practice => true,
            GameMode::Challenge => match self.rounds {
                Some(n) => self.played < n,
                None => true,
            },
            GameMode::RapidFire => time_left,
        }
    }

    /// The header shown before a round of a challenge; none for other modes.
    pub fn round_header(&self) -> (h: Option<String>)
        ensures
            self@.mode == GameMode::Challenge ==> (h matches Some(t) && t@ == round_header_text(self@)),
            self@.mode != GameMode::Challenge ==> h is None,
    {
        if self.mode != GameMode::Challenge {
            return None;
        }
        let mut t = String::new();
        t.append("Round ");
        push_decimal(&mut t, self.played.saturating_add(1));
        if let Some(n) = self.rounds {
            t.append("/");
            push_decimal(&mut t, n);
        }
        proof {
            assert(t@ =~= round_header_text(self@));
        }
        Some(t)
    }

    /// Whether the round's outcome can be added to the statistics.
    pub fn can_finish_round(&self, control: RoundControl) -> (b: bool)
        ensures
            b == (control matches RoundControl::Completed(o) ==> can_record(self@.stats, o)),
    {
        match control {
            RoundControl::Completed(o) => self.stats.can_record(o),
            RoundControl::Quit => true,
        }
    }

    /// Takes the end of a round.
    pub fn finish_round(&mut self, control: RoundControl)
        requires
            control matches RoundControl::Completed(o) ==> can_record(old(self)@.stats, o),
        ensures
            final(self)@ == after_round(old(self)@, control),
    {
        self.played = self.played.saturating_add(1);
        match control {
            RoundControl::Completed(outcome) => {
                self.stats.record(outcome, self.difficulty);
            },
            RoundControl::Quit => {
                self.stats.quit();
                self.over = true;
            },
        }
        proof {
            assert(self@.stats =~= after_round(old(self)@, control).stats);
        }
    }

    /// Whether the player is asked to go on: after each round of a practice
    /// that has not ended.
    pub fn asks_to_continue(&self) -> (b: bool)
        ensures
            b == (self@.mode == GameMode::Practice && !self@.over),
    {
        self.mode == GameMode::Practice && !self.over
    }

    /// Takes the answer to the continue prompt.
    pub fn answer_continue(&mut self, choice: ContinueChoice)
        ensures
            final(self)@ == after_continue(old(self)@, choice),
    {
        if choice == ContinueChoice::Quit {
            self.over = true;
        }
    }

    /// The line shown when a rapid-fire session ends; none for other modes.
    pub fn closing_message(&self) -> (m: Option<&'static str>)
        ensures
            self@.mode == GameMode::RapidFire && self@.stats.quit ==> (m matches Some(t) && t@
                == "Session ended."@),
            self@.mode == GameMode::RapidFire && !self@.stats.quit ==> (m matches Some(t) && t@
                == "Time's up!"@),
            self@.mode != GameMode::RapidFire ==> m is None,
    {
        if self.mode != GameMode::RapidFire {
            None
        } else if self.stats.has_quit() {
            Some("Session ended.")
        } else {
            Some("Time's up!")
        }
    }

    /// Whether the session's record is saved.
    pub fn should_save(&self) -> (b: bool)
        ensures
            b == should_save_spec(self@),
    {
        self.mode != GameMode::Practice && !self.stats.has_quit()
    }

    /// The record to save for this session, stamped with the current time.
    pub fn record(&self) -> (r: ScoreRecord)
        ensures
            r.mode == self@.mode,
            r.points == self@.stats.tally().points,
            r.correct == self@.stats.tally().correct,
            r.incorrect == self@.stats.tally().incorrect,
            r.exact == self@.stats.tally().exact,
            r.total_answer_time == self@.stats.tally().total_answer_time / 1_000_000_000,
    {
        ScoreRecord::from_session(self.mode, &self.stats)
    }
}

// ---------------------------------------------------------------------------
// Laws

/// Quitting a round ends the session for good: no further round is played,
/// whatever the clock says, and the session is not saved.
pub proof fn lemma_quit_ends_session(s: SessionView, time_left: bool)
    ensures
        after_round(s, RoundControl::Quit).over,
        after_round(s, RoundControl::Quit).stats.quit,
        !wants_round_spec(after_round(s, RoundControl::Quit), time_left),
        !should_save_spec(after_round(s, RoundControl::Quit)),
{
}

/// Once a session has ended, nothing brings it back: neither another round
/// nor the continue prompt reopens it.
pub proof fn lemma_over_is_final(s: SessionView, control: RoundControl, choice: ContinueChoice)
    requires
        s.over,
    ensures
        after_round(s, control).over,
        after_continue(s, choice).over,
{
}

/// A practice is never saved.
pub proof fn lemma_practice_not_saved(s: SessionView)
    requires
        s.mode == GameMode::Practice,
    ensures
        !should_save_spec(s),
{
}

/// A challenge of `n` rounds plays no more than `n`: a round is only asked
/// for while fewer have been played, and each round counts one.
pub proof fn lemma_challenge_bounded(s: SessionView, control: RoundControl, time_left: bool, n: u32)
    requires
        s.mode == GameMode::Challenge,
        s.rounds == Some(n),
        s.played <= n,
    ensures
        wants_round_spec(s, time_left) ==> after_round(s, control).played <= n,
        s.played == n ==> !wants_round_spec(s, time_left),
{
}

/// Each completed round is recorded once, at the session's difficulty, and
/// the tally follows it.
pub proof fn lemma_completed_round_recorded(s: SessionView, o: RoundOutcome)
    ensures
        after_round(s, RoundControl::Completed(o)).stats.rounds == s.stats.rounds.push(
            (o, s.difficulty),
        ),
        after_round(s, RoundControl::Completed(o)).stats.tally() == tally_after(
            s.stats.tally(),
            o,
            s.difficulty,
        ),
{
    let r = s.stats.rounds.push((o, s.difficulty));
    assert(r.drop_last() =~= s.stats.rounds);
}

/// A line ending of either kind changes nothing about what a typed line
/// means: `"q\r\n"` quits as `"q"` does, and `"7:30\r\n"` answers as `"7:30"`
/// does, at the answer prompt and at the continue prompt alike.
pub proof fn lemma_line_endings_ignored(l: Seq<char>)
    ensures
        answer_step_spec(Some(l + seq!['\r', '\n'])) == answer_step_spec(Some(l)),
        answer_step_spec(Some(l + seq!['\n'])) == answer_step_spec(Some(l)),
        continue_spec(Some(l + seq!['\r', '\n'])) == continue_spec(Some(l)),
        answer_step_spec(Some(seq!['q', '\r', '\n'])) == (PlayerInputView::Quit, None::<TimeError>),
{
    crate::text::lemma_trim_drops_line_endings(l);
    crate::text::lemma_trim_drops_line_endings(seq!['q']);
    assert(seq!['q'] + seq!['\r', '\n'] =~= seq!['q', '\r', '\n']);
    assert(trim_start(seq!['q']) == seq!['q']);
    assert(trim_end(seq!['q']) == seq!['q']);
}

/// The session after a sequence of completed rounds, in order.
pub open spec fn after_completed(s: SessionView, outcomes: Seq<RoundOutcome>) -> SessionView
    decreases outcomes.len(),
{
    if outcomes.len() == 0 {
        s
    } else {
        after_round(after_completed(s, outcomes.drop_last()), RoundControl::Completed(outcomes.last()))
    }
}

/// A session as [`Session::new`] makes it.
pub open spec fn fresh_session(mode: GameMode, difficulty: Difficulty, rounds: Option<u32>) -> SessionView {
    SessionView {
        mode,
        difficulty,
        rounds,
        played: 0,
        stats: StatsView { rounds: Seq::empty(), quit: false },
        over: false,
    }
}

proof fn lemma_after_completed(s: SessionView, outcomes: Seq<RoundOutcome>)
    requires
        s.played + outcomes.len() <= u32::MAX,
    ensures
        after_completed(s, outcomes).played == s.played + outcomes.len(),
        after_completed(s, outcomes).stats.rounds.len() == s.stats.rounds.len() + outcomes.len(),
        after_completed(s, outcomes).stats.quit == s.stats.quit,
        after_completed(s, outcomes).over == s.over,
        after_completed(s, outcomes).mode == s.mode,
        after_completed(s, outcomes).rounds == s.rounds,
    decreases outcomes.len(),
{
    if outcomes.len() > 0 {
        lemma_after_completed(s, outcomes.drop_last());
    }
}

/// A challenge of `n` rounds that the player does not quit plays exactly `n`
/// rounds: after `k` answered rounds it asks for another exactly when
/// `k < n`, whatever the clock says, and once the `n` rounds are played it
/// is saved.
pub proof fn lemma_challenge_plays_n_rounds(
    n: u32,
    difficulty: Difficulty,
    outcomes: Seq<RoundOutcome>,
    time_left: bool,
)
    requires
        outcomes.len() <= n,
    ensures
        ({
            let s = after_completed(fresh_session(GameMode::Challenge, difficulty, Some(n)), outcomes);
            &&& s.played == outcomes.len()
            &&& s.stats.rounds.len() == outcomes.len()
            &&& wants_round_spec(s, time_left) == (outcomes.len() < n)
            &&& should_save_spec(s)
        }),
{
    lemma_after_completed(fresh_session(GameMode::Challenge, difficulty, Some(n)), outcomes);
}

/// A challenge with a limit that is not over asks for another round exactly
/// while fewer rounds than the limit have been played.
pub proof fn lemma_challenge_wants_round(s: SessionView, n: u32, time_left: bool)
    requires
        s.mode == GameMode::Challenge,
        s.rounds == Some(n),
        !s.over,
    ensures
        wants_round_spec(s, time_left) <==> s.played < n,
{
}

/// A rapid-fire session that the player does not quit plays while time is
/// left, and when time runs out its record is saved, however many rounds
/// were answered.
pub proof fn lemma_rapid_fire_saved_when_time_is_up(
    difficulty: Difficulty,
    outcomes: Seq<RoundOutcome>,
    time_left: bool,
)
    requires
        outcomes.len() <= u32::MAX,
    ensures
        ({
            let s = after_completed(fresh_session(GameMode::RapidFire, difficulty, None), outcomes);
            &&& wants_round_spec(s, time_left) == time_left
            &&& should_save_spec(s)
        }),
{
    lemma_after_completed(fresh_session(GameMode::RapidFire, difficulty, None), outcomes);
}

/// Which sessions are saved: every challenge and rapid-fire session that the
/// player did not quit, and no practice or quit session.
pub proof fn lemma_saved_sessions(s: SessionView)
    ensures
        s.mode == GameMode::Challenge && !s.stats.quit ==> should_save_spec(s),
        s.mode == GameMode::RapidFire && !s.stats.quit ==> should_save_spec(s),
        s.mode == GameMode::Practice ==> !should_save_spec(s),
        s.stats.quit ==> !should_save_spec(s),
{
}

} // verus!
