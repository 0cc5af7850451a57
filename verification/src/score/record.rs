//! The record of a finished session that is kept on disk.

use vstd::prelude::*;
use std::time::{SystemTime, UNIX_EPOCH};
use crate::cli::GameMode;
use crate::score::stats::SessionStats;

verus! {

#[verifier::external_type_specification]
#[verifier::external_body]
pub struct ExSystemTime(SystemTime);

/// Reads the system clock with `SystemTime::now()`. What it reads is the
/// machine's time and is not stated.
#[verifier::external_body]
fn system_time_now() -> SystemTime {
    SystemTime::now()
}

/// Whole seconds from the Unix epoch to `t`, by `SystemTime::duration_since`
/// and `Duration::as_secs`; `None` where `t` lies before the epoch, the case in
/// which `duration_since` returns its error. The value is not stated.
#[verifier::external_body]
fn seconds_since_unix_epoch(t: SystemTime) -> Option<u64> {
    match t.duration_since(UNIX_EPOCH) {
        Ok(d) => Some(d.as_secs()),
        Err(_) => None,
    }
}

/// The saved summary of one session.
#[derive(Copy, Clone, Debug, PartialEq, Eq, Structural)]
pub struct ScoreRecord {
    pub mode: GameMode,
    pub points: u32,
    pub correct: u32,
    pub incorrect: u32,
    pub exact: u32,
    /// Total answer time in whole seconds.
    pub total_answer_time: u64,
    pub played_at_unix: u64,
}

impl ScoreRecord {
    /// The record of a session played in `mode`, stamped with the current
    /// time (zero when the clock reads before the Unix epoch).
    pub fn from_session(mode: GameMode, stats: &SessionStats) -> (r: Self)
        ensures
            r.mode == mode,
            r.points == stats@.tally().points,
            r.correct == stats@.tally().correct,
            r.incorrect == stats@.tally().incorrect,
            r.exact == stats@.tally().exact,
            r.total_answer_time == stats@.tally().total_answer_time / 1_000_000_000,
    {
        let now = system_time_now();
        let played_at_unix = match seconds_since_unix_epoch(now) {
            Some(secs) => secs,
            None => 0,
        };
        ScoreRecord::from_session_at(mode, stats, played_at_unix)
    }

    /// The record of a session played in `mode` at `played_at_unix`.
    pub fn from_session_at(mode: GameMode, stats: &SessionStats, played_at_unix: u64) -> (r: Self)
        ensures
            r.mode == mode,
            r.points == stats@.tally().points,
            r.correct == stats@.tally().correct,
            r.incorrect == stats@.tally().incorrect,
            r.exact == stats@.tally().exact,
            r.total_answer_time == stats@.tally().total_answer_time / 1_000_000_000,
            r.played_at_unix == played_at_unix,
    {
        ScoreRecord {
            mode,
            points: stats.points(),
            correct: stats.correct(),
            incorrect: stats.incorrect(),
            exact: stats.exact(),
            total_answer_time: stats.total_answer_time().as_secs(),
            played_at_unix,
        }
    }
}

} // verus!
