//! How closely the player must read the clock.

use vstd::prelude::*;
use crate::clock::{analog_difference, ClockTime};

verus! {

/// The accuracy required for an answer to count as correct.
#[derive(Copy, Clone, Debug, PartialEq, Eq, Structural)]
pub enum Difficulty {
    Hour,
    TenMinutes,
    FiveMinutes,
    Minute,
    ThirtySeconds,
    Exact,
}

/// The interval, in seconds, to which the player reads the clock.
pub open spec fn precision(d: Difficulty) -> nat {
    match d {
        Difficulty::Hour => 3600,
        Difficulty::TenMinutes => 600,
        Difficulty::FiveMinutes => 300,
        Difficulty::Minute => 60,
        Difficulty::ThirtySeconds => 30,
        Difficulty::Exact => 0,
    }
}

/// An answer rounded to an interval may be at most half an interval away.
pub open spec fn tolerance(d: Difficulty) -> nat {
    precision(d) / 2
}

/// Position in the order from the most lenient to the strictest level.
pub open spec fn strictness(d: Difficulty) -> nat {
    match d {
        Difficulty::Hour => 0,
        Difficulty::TenMinutes => 1,
        Difficulty::FiveMinutes => 2,
        Difficulty::Minute => 3,
        Difficulty::ThirtySeconds => 4,
        Difficulty::Exact => 5,
    }
}

pub open spec fn description_text(d: Difficulty) -> Seq<char> {
    match d {
        Difficulty::Hour => "nearest hour"@,
        Difficulty::TenMinutes => "nearest ten minutes"@,
        Difficulty::FiveMinutes => "nearest five minutes"@,
        Difficulty::Minute => "nearest minute"@,
        Difficulty::ThirtySeconds => "nearest thirty seconds"@,
        Difficulty::Exact => "exact time"@,
    }
}

/// Whether the second hand is drawn when the player has not chosen.
pub open spec fn shows_seconds(d: Difficulty) -> bool {
    d == Difficulty::Exact || d == Difficulty::ThirtySeconds
}

impl Default for Difficulty {
    fn default() -> (d: Self)
        ensures
            d == Difficulty::TenMinutes,
    {
        Difficulty::TenMinutes
    }
}

impl Difficulty {
    /// The interval to which the player is expected to read the clock
    pub fn precision_seconds(self) -> (p: u32)
        ensures
            p == precision(self),
    {
        match self {
            Difficulty::Hour => 60 * 60,
            Difficulty::TenMinutes => 10 * 60,
            Difficulty::FiveMinutes => 5 * 60,
            Difficulty::Minute => 60,
            Difficulty::ThirtySeconds => 30,
            Difficulty::Exact => 0,
        }
    }

    /// An answer rounded to an interval may be at most half an interval away
    pub fn tolerance_seconds(self) -> (t: u32)
        ensures
            t == tolerance(self),
    {
        self.precision_seconds() / 2
    }

    pub fn description(self) -> (s: &'static str)
        ensures
            s@ == description_text(self),
    {
        match self {
            Difficulty::Hour => "nearest hour",
            Difficulty::TenMinutes => "nearest ten minutes",
            Difficulty::FiveMinutes => "nearest five minutes",
            Difficulty::Minute => "nearest minute",
            Difficulty::ThirtySeconds => "nearest thirty seconds",
            Difficulty::Exact => "exact time",
        }
    }

    /// Whether `answer` is close enough to `expected` on the dial.
    pub fn accepts(self, expected: ClockTime, answer: ClockTime) -> (b: bool)
        ensures
            b == (analog_difference(expected@, answer@) <= tolerance(self)),
    {
        expected.analog_difference(answer) <= self.tolerance_seconds()
    }

    pub fn show_seconds_by_default(self) -> (b: bool)
        ensures
            b == shows_seconds(self),
    {
        match self {
            Difficulty::Exact => true,
            Difficulty::ThirtySeconds => true,
            Difficulty::Minute => false,
            Difficulty::FiveMinutes => false,
            Difficulty::TenMinutes => false,
            Difficulty::Hour => false,
        }
    }
}

// ---------------------------------------------------------------------------
// Laws

/// A stricter level asks for a finer reading: its interval is no larger.
pub proof fn lemma_precision_decreases(a: Difficulty, b: Difficulty)
    requires
        strictness(a) <= strictness(b),
    ensures
        precision(b) <= precision(a),
        tolerance(b) <= tolerance(a),
{
}

/// An answer that a stricter level accepts is accepted by every more lenient
/// level too.
pub proof fn lemma_accepts_monotone(
    a: Difficulty,
    b: Difficulty,
    expected: crate::clock::ClockTimeView,
    answer: crate::clock::ClockTimeView,
)
    requires
        strictness(a) <= strictness(b),
        analog_difference(expected, answer) <= tolerance(b),
    ensures
        analog_difference(expected, answer) <= tolerance(a),
{
    lemma_precision_decreases(a, b);
}

/// Whether an answer is accepted does not depend on which of the two times
/// is the expected one.
pub proof fn lemma_accepts_symmetric(
    d: Difficulty,
    x: crate::clock::ClockTimeView,
    y: crate::clock::ClockTimeView,
)
    ensures
        (analog_difference(x, y) <= tolerance(d)) == (analog_difference(y, x) <= tolerance(d)),
{
}

/// Every level accepts an answer on the mark; the exact level accepts only
/// those.
pub proof fn lemma_exact_answers(
    d: Difficulty,
    x: crate::clock::ClockTimeView,
    y: crate::clock::ClockTimeView,
)
    ensures
        analog_difference(x, y) == 0 ==> analog_difference(x, y) <= tolerance(d),
        (analog_difference(x, y) <= tolerance(Difficulty::Exact)) == (analog_difference(x, y)
            == 0),
{
}

/// The second hand is shown by default exactly on the levels that ask for a
/// reading finer than a minute.
pub proof fn lemma_seconds_shown_when_fine(d: Difficulty)
    ensures
        shows_seconds(d) == (precision(d) < 60),
{
}

} // verus!
