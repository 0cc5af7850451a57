//! Times of day as read from an analog clock: construction, comparison on
//! the twelve-hour dial, formatting and the parser for typed answers.

use vstd::prelude::*;
use rand::RngExt;
use crate::text::{
    all_ascii_digits, decimal, digit_char, digit_value, digits_value, is_ascii_digit, trim_start, chars_of, parse_u8, parse_u8_at, push_two_digits, trim, trim_bounds, two_digits,
};

verus! {

pub const HOURS_PER_CLOCK_CYCLE: u32 = 12;

pub const MINUTES_PER_HOUR: u32 = 60;

pub const SECONDS_PER_MINUTE: u32 = 60;

pub const SECONDS_PER_HOUR: u32 = MINUTES_PER_HOUR * SECONDS_PER_MINUTE;

pub const SECONDS_PER_CLOCK_CYCLE: u32 = HOURS_PER_CLOCK_CYCLE * SECONDS_PER_HOUR;

/// A time of day with a 24-hour hour, a minute and a second.
#[derive(Copy, Clone, Debug, PartialEq, Eq, Structural)]
pub struct ClockTime {
    hour: u8,
    minute: u8,
    second: u8,
}

/// The mathematical model of a [`ClockTime`].
pub struct ClockTimeView {
    pub hour: nat,
    pub minute: nat,
    pub second: nat,
}

impl ClockTimeView {
    pub open spec fn valid(self) -> bool {
        self.hour < 24 && self.minute < 60 && self.second < 60
    }

    /// Seconds since midnight.
    pub open spec fn total_seconds(self) -> nat {
        self.hour * 3600 + self.minute * 60 + self.second
    }

    /// Position of the hands within one twelve-hour turn of the dial.
    pub open spec fn analog_seconds(self) -> nat {
        self.total_seconds() % 43200
    }

    /// The hour as a twelve-hour clock shows it: 12, 1, ..., 11.
    pub open spec fn hour_12(self) -> nat {
        if self.hour % 12 == 0 {
            12
        } else {
            self.hour % 12
        }
    }
}

/// Distance between two dial positions going the shorter way round.
pub open spec fn dial_distance(a: nat, b: nat) -> nat {
    let direct = if a >= b {
        a - b
    } else {
        b - a
    };
    if direct <= 43200 - direct {
        direct as nat
    } else {
        (43200 - direct) as nat
    }
}

/// Shortest distance, in seconds, between two times on a twelve-hour dial.
pub open spec fn analog_difference(a: ClockTimeView, b: ClockTimeView) -> nat {
    dial_distance(a.analog_seconds(), b.analog_seconds())
}

/// One of the three parts of a time.
#[derive(Copy, Clone, Debug, PartialEq, Eq, Structural)]
pub enum TimeComponent {
    Hour,
    Minute,
    Second,
}

/// Why a time could not be built or parsed.
#[derive(Copy, Clone, Debug, PartialEq, Eq, Structural)]
pub enum TimeError {
    /// The input holds nothing but white space.
    Empty,
    /// A part is not a decimal number of at most 255.
    NotANumber(TimeComponent),
    /// An all-digit input whose length fits none of the compact forms.
    CompactLength,
    /// More than three separated parts.
    TooManyComponents,
    /// The input holds separators only; the hour is missing.
    MissingHour,
    /// A part lies outside its range.
    OutOfRange(TimeComponent),
}

/// What building a time from three parts gives: the first part out of range
/// is reported.
pub open spec fn checked_time(h: nat, m: nat, s: nat) -> Result<ClockTimeView, TimeError> {
    if h >= 24 {
        Err(TimeError::OutOfRange(TimeComponent::Hour))
    } else if m >= 60 {
        Err(TimeError::OutOfRange(TimeComponent::Minute))
    } else if s >= 60 {
        Err(TimeError::OutOfRange(TimeComponent::Second))
    } else {
        Ok(ClockTimeView { hour: h, minute: m, second: s })
    }
}

/// A time part read from `s`.
pub open spec fn component(s: Seq<char>, c: TimeComponent) -> Result<nat, TimeError> {
    match parse_u8(s) {
        Some(v) => Ok(v as nat),
        None => Err(TimeError::NotANumber(c)),
    }
}

/// Three parts read in order: the first failure wins.
pub open spec fn read_parts(
    h: Result<nat, TimeError>,
    m: Result<nat, TimeError>,
    s: Result<nat, TimeError>,
) -> Result<(nat, nat, nat), TimeError> {
    match h {
        Err(e) => Err(e),
        Ok(hv) => match m {
            Err(e) => Err(e),
            Ok(mv) => match s {
                Err(e) => Err(e),
                Ok(sv) => Ok((hv, mv, sv)),
            },
        },
    }
}

/// Combines three parts read in order: the first failure wins, then the range
/// check applies.
pub open spec fn combine(
    h: Result<nat, TimeError>,
    m: Result<nat, TimeError>,
    s: Result<nat, TimeError>,
) -> Result<ClockTimeView, TimeError> {
    match read_parts(h, m, s) {
        Err(e) => Err(e),
        Ok(p) => checked_time(p.0, p.1, p.2),
    }
}

/// Compact military time: H, HH, HMM, HHMM, HMMSS or HHMMSS.
pub open spec fn parse_compact(t: Seq<char>) -> Result<ClockTimeView, TimeError> {
    let n = t.len();
    if n == 1 || n == 2 {
        combine(component(t, TimeComponent::Hour), Ok(0), Ok(0))
    } else if n == 3 {
        combine(
            component(t.subrange(0, 1), TimeComponent::Hour),
            component(t.subrange(1, 3), TimeComponent::Minute),
            Ok(0),
        )
    } else if n == 4 {
        combine(
            component(t.subrange(0, 2), TimeComponent::Hour),
            component(t.subrange(2, 4), TimeComponent::Minute),
            Ok(0),
        )
    } else if n == 5 {
        combine(
            component(t.subrange(0, 1), TimeComponent::Hour),
            component(t.subrange(1, 3), TimeComponent::Minute),
            component(t.subrange(3, 5), TimeComponent::Second),
        )
    } else if n == 6 {
        combine(
            component(t.subrange(0, 2), TimeComponent::Hour),
            component(t.subrange(2, 4), TimeComponent::Minute),
            component(t.subrange(4, 6), TimeComponent::Second),
        )
    } else {
        Err(TimeError::CompactLength)
    }
}

pub open spec fn is_time_separator(c: char) -> bool {
    c == ':' || c == ' ' || c == '.'
}

/// The pieces of `s` between separators, empty ones included, in order.
pub open spec fn split_pieces(s: Seq<char>) -> Seq<Seq<char>>
    decreases s.len(),
{
    if s.len() == 0 {
        seq![Seq::empty()]
    } else {
        let r = split_pieces(s.drop_last());
        if is_time_separator(s.last()) {
            r.push(Seq::empty())
        } else {
            r.update(r.len() - 1, r.last().push(s.last()))
        }
    }
}

/// The non-empty members of `ps`, in order.
pub open spec fn non_empty(ps: Seq<Seq<char>>) -> Seq<Seq<char>>
    decreases ps.len(),
{
    if ps.len() == 0 {
        Seq::empty()
    } else if ps.last().len() > 0 {
        non_empty(ps.drop_last()).push(ps.last())
    } else {
        non_empty(ps.drop_last())
    }
}

/// The non-empty pieces of `s` between separators.
pub open spec fn time_parts(s: Seq<char>) -> Seq<Seq<char>> {
    non_empty(split_pieces(s))
}

/// Separated time: one to three numbers between `:`, ` ` or `.`; a missing
/// minute or second is zero. The parts are read in order, then a fourth part
/// is refused, then the ranges are checked.
pub open spec fn parse_separated(t: Seq<char>) -> Result<ClockTimeView, TimeError> {
    let parts = time_parts(t);
    if parts.len() == 0 {
        Err(TimeError::MissingHour)
    } else {
        let h = component(parts[0], TimeComponent::Hour);
        let m = if parts.len() > 1 {
            component(parts[1], TimeComponent::Minute)
        } else {
            Ok(0)
        };
        let s = if parts.len() > 2 {
            component(parts[2], TimeComponent::Second)
        } else {
            Ok(0)
        };
        match read_parts(h, m, s) {
            Err(e) => Err(e),
            Ok(p) => if parts.len() > 3 {
                Err(TimeError::TooManyComponents)
            } else {
                checked_time(p.0, p.1, p.2)
            },
        }
    }
}

/// What a typed answer denotes. After trimming, an input of digits only is
/// compact military time; any other is separated time.
pub open spec fn parse_time(input: Seq<char>) -> Result<ClockTimeView, TimeError> {
    let t = trim(input);
    if t.len() == 0 {
        Err(TimeError::Empty)
    } else if all_ascii_digits(t) {
        parse_compact(t)
    } else {
        parse_separated(t)
    }
}

/// `HH:MM:SS` with each part padded to two digits.
pub open spec fn time_text(h: nat, m: nat, s: nat) -> Seq<char> {
    two_digits(h) + seq![':'] + two_digits(m) + seq![':'] + two_digits(s)
}

pub open spec fn view_result(r: Result<ClockTime, TimeError>) -> Result<ClockTimeView, TimeError> {
    match r {
        Ok(t) => Ok(t@),
        Err(e) => Err(e),
    }
}

impl View for ClockTime {
    type V = ClockTimeView;

    closed spec fn view(&self) -> ClockTimeView {
        ClockTimeView { hour: self.hour as nat, minute: self.minute as nat, second: self.second as nat }
    }
}

/// The message shown for a time that could not be read.
pub open spec fn error_text(e: TimeError) -> Seq<char> {
    match e {
        TimeError::Empty => "time cannot be empty"@,
        TimeError::NotANumber(TimeComponent::Hour) => "hour must be a number"@,
        TimeError::NotANumber(TimeComponent::Minute) => "minute must be a number"@,
        TimeError::NotANumber(TimeComponent::Second) => "second must be a number"@,
        TimeError::CompactLength => "compact time must use H, HH, HMM, HHMM, HMMSS, or HHMMSS"@,
        TimeError::TooManyComponents => "use HH, HH:MM, HH:MM:SS, or compact military time"@,
        TimeError::MissingHour => "non-empty input always has a first component"@,
        TimeError::OutOfRange(TimeComponent::Hour) => "hour must be between 0 and 23"@,
        TimeError::OutOfRange(TimeComponent::Minute) => "minute must be between 0 and 59"@,
        TimeError::OutOfRange(TimeComponent::Second) => "second must be between 0 and 59"@,
    }
}

impl TimeError {
    /// The message shown for this error.
    pub fn message(&self) -> (s: &'static str)
        ensures
            s@ == error_text(*self),
    {
        match self {
            TimeError::Empty => "time cannot be empty",
            TimeError::NotANumber(TimeComponent::Hour) => "hour must be a number",
            TimeError::NotANumber(TimeComponent::Minute) => "minute must be a number",
            TimeError::NotANumber(TimeComponent::Second) => "second must be a number",
            TimeError::CompactLength => "compact time must use H, HH, HMM, HHMM, HMMSS, or HHMMSS",
            TimeError::TooManyComponents => "use HH, HH:MM, HH:MM:SS, or compact military time",
            TimeError::MissingHour => "non-empty input always has a first component",
            TimeError::OutOfRange(TimeComponent::Hour) => "hour must be between 0 and 23",
            TimeError::OutOfRange(TimeComponent::Minute) => "minute must be between 0 and 59",
            TimeError::OutOfRange(TimeComponent::Second) => "second must be between 0 and 59",
        }
    }
}

pub open spec fn byte_result(r: Result<u8, TimeError>) -> Result<nat, TimeError> {
    match r {
        Ok(v) => Ok(v as nat),
        Err(e) => Err(e),
    }
}

proof fn lemma_split_pieces_not_empty(s: Seq<char>)
    ensures
        split_pieces(s).len() >= 1,
    decreases s.len(),
{
    if s.len() > 0 {
        lemma_split_pieces_not_empty(s.drop_last());
    }
}

/// Draws a number in `0..upper` from the thread-local generator.
///
/// Calls `rand::rng().random_range(0..upper)`; rand documents the result as
/// lying in the half-open range and panics on an empty one. Which number comes
/// is chance and is not stated.
#[verifier::external_body]
fn random_below(upper: u8) -> (r: u8)
    requires
        upper > 0,
    ensures
        r < upper,
{
    rand::rng().random_range(0..upper)
}

impl ClockTime {
    #[verifier::type_invariant]
    spec fn components_in_range(self) -> bool {
        self.hour < 24 && self.minute < 60 && self.second < 60
    }

    /// Builds a time whose parts are known to be in range.
    pub fn new(hour: u8, minute: u8, second: u8) -> (t: Self)
        requires
            hour < 24,
            minute < 60,
            second < 60,
        ensures
            t@ == (ClockTimeView { hour: hour as nat, minute: minute as nat, second: second as nat }),
    {
        ClockTime { hour, minute, second }
    }

    /// Builds a time, or reports the first part out of range.
    pub fn try_new(hour: u8, minute: u8, second: u8) -> (r: Result<Self, TimeError>)
        ensures
            view_result(r) == checked_time(hour as nat, minute as nat, second as nat),
    {
        if hour >= 24 {
            return Err(TimeError::OutOfRange(TimeComponent::Hour));
        }
        if minute >= 60 {
            return Err(TimeError::OutOfRange(TimeComponent::Minute));
        }
        if second >= 60 {
            return Err(TimeError::OutOfRange(TimeComponent::Second));
        }
        Ok(ClockTime { hour, minute, second })
    }

    /// A time drawn at random; every outcome is a valid time of day.
    pub fn random() -> (t: Self)
        ensures
            t@.valid(),
    {
        let hour = random_below(24);
        let minute = random_below(60);
        let second = random_below(60);
        ClockTime { hour, minute, second }
    }

    pub fn hour(self) -> (h: u8)
        ensures
            h == self@.hour,
            h < 24,
    {
        proof {
            use_type_invariant(&self);
        }
        self.hour
    }

    pub fn minute(self) -> (m: u8)
        ensures
            m == self@.minute,
            m < 60,
    {
        proof {
            use_type_invariant(&self);
        }
        self.minute
    }

    pub fn second(self) -> (s: u8)
        ensures
            s == self@.second,
            s < 60,
    {
        proof {
            use_type_invariant(&self);
        }
        self.second
    }

    /// The hour as a twelve-hour clock shows it; midnight and noon are 12.
    pub fn hour_12(self) -> (h: u8)
        ensures
            h == self@.hour_12(),
            1 <= h <= 12,
    {
        proof {
            use_type_invariant(&self);
        }
        let h = self.hour % 12;
        if h == 0 {
            12
        } else {
            h
        }
    }

    /// Seconds since midnight.
    pub fn total_seconds(self) -> (s: u32)
        ensures
            s == self@.total_seconds(),
            s < 86400,
    {
        proof {
            use_type_invariant(&self);
        }
        (self.hour as u32) * SECONDS_PER_HOUR + (self.minute as u32) * SECONDS_PER_MINUTE
            + (self.second as u32)
    }

    /// Returns the time's position within a 12-hour analog-clock cycle
    pub fn analog_seconds(self) -> (s: u32)
        ensures
            s == self@.analog_seconds(),
            s < 43200,
    {
        self.total_seconds() % SECONDS_PER_CLOCK_CYCLE
    }

    /// Finds the shortest distance, in seconds, between two times on a 12-hour clock.
    ///
    /// For example, 11:59 and 12:01 are two minutes apart rather than
    /// eleven hours and fifty-eight minutes apart.
    pub fn analog_difference(self, other: Self) -> (d: u32)
        ensures
            d == analog_difference(self@, other@),
    {
        let a = self.analog_seconds();
        let b = other.analog_seconds();
        let direct = if a >= b {
            a - b
        } else {
            b - a
        };
        let around = SECONDS_PER_CLOCK_CYCLE - direct;
        if direct <= around {
            direct
        } else {
            around
        }
    }

    /// The same time as a twelve-hour clock shows it.
    pub fn display_analog(self) -> (d: ClockTimeDisplayAnalog)
        ensures
            d@ == (ClockTimeView {
                hour: self@.hour_12(),
                minute: self@.minute,
                second: self@.second,
            }),
    {
        proof {
            use_type_invariant(&self);
        }
        ClockTimeDisplayAnalog(ClockTime { hour: self.hour_12(), minute: self.minute, second: self.second })
    }

    /// The time as `HH:MM:SS` on the 24-hour clock.
    pub fn text(self) -> (s: String)
        ensures
            s@ == time_text(self@.hour, self@.minute, self@.second),
    {
        let mut s = String::new();
        push_two_digits(&mut s, self.hour as u32);
        s.push(':');
        push_two_digits(&mut s, self.minute as u32);
        s.push(':');
        push_two_digits(&mut s, self.second as u32);
        assert(s@ =~= time_text(self@.hour, self@.minute, self@.second));
        s
    }

    /// Parses a typed answer: compact military time (`H`, `HH`, `HMM`,
    /// `HHMM`, `HMMSS`, `HHMMSS`) or one to three numbers separated by `:`,
    /// ` ` or `.`, with surrounding white space ignored.
    pub fn parse(input: &str) -> (r: Result<Self, TimeError>)
        ensures
            view_result(r) == parse_time(input@),
    {
        let v = chars_of(input);
        let (lo, hi) = trim_bounds(&v);
        if lo == hi {
            return Err(TimeError::Empty);
        }
        if all_digits_at(&v, lo, hi) {
            parse_compact_at(&v, lo, hi)
        } else {
            parse_separated_at(&v, lo, hi)
        }
    }
}

/// A time already turned to the twelve-hour dial, for display.
pub struct ClockTimeDisplayAnalog(ClockTime);

impl View for ClockTimeDisplayAnalog {
    type V = ClockTimeView;

    closed spec fn view(&self) -> ClockTimeView {
        self.0@
    }
}

impl ClockTimeDisplayAnalog {
    /// The time as `HH:MM:SS` with a twelve-hour hour.
    pub fn text(&self) -> (s: String)
        ensures
            s@ == time_text(self@.hour_12(), self@.minute, self@.second),
    {
        let t = self.0;
        let mut s = String::new();
        push_two_digits(&mut s, t.hour_12() as u32);
        s.push(':');
        push_two_digits(&mut s, t.minute() as u32);
        s.push(':');
        push_two_digits(&mut s, t.second() as u32);
        assert(s@ =~= time_text(self@.hour_12(), self@.minute, self@.second));
        s
    }
}

fn all_digits_at(v: &Vec<char>, lo: usize, hi: usize) -> (b: bool)
    requires
        lo <= hi <= v.len(),
    ensures
        b == all_ascii_digits(v@.subrange(lo as int, hi as int)),
{
    let mut k = lo;
    while k < hi
        invariant
            lo <= k <= hi <= v.len(),
            all_ascii_digits(v@.subrange(lo as int, k as int)),
        decreases hi - k,
    {
        let c = v[k];
        if !('0' <= c && c <= '9') {
            assert(v@.subrange(lo as int, hi as int)[k - lo] == c);
            return false;
        }
        assert(v@.subrange(lo as int, k + 1) =~= v@.subrange(lo as int, k as int).push(c));
        k += 1;
    }
    true
}

fn component_at(v: &Vec<char>, lo: usize, hi: usize, c: TimeComponent) -> (r: Result<u8, TimeError>)
    requires
        lo <= hi <= v.len(),
    ensures
        byte_result(r) == component(v@.subrange(lo as int, hi as int), c),
{
    match parse_u8_at(v, lo, hi) {
        Some(x) => Ok(x),
        None => Err(TimeError::NotANumber(c)),
    }
}

fn combine_at(
    h: Result<u8, TimeError>,
    m: Result<u8, TimeError>,
    s: Result<u8, TimeError>,
) -> (r: Result<ClockTime, TimeError>)
    ensures
        view_result(r) == combine(byte_result(h), byte_result(m), byte_result(s)),
{
    let h = match h {
        Ok(x) => x,
        Err(e) => return Err(e),
    };
    let m = match m {
        Ok(x) => x,
        Err(e) => return Err(e),
    };
    let s = match s {
        Ok(x) => x,
        Err(e) => return Err(e),
    };
    ClockTime::try_new(h, m, s)
}

fn parse_compact_at(v: &Vec<char>, lo: usize, hi: usize) -> (r: Result<ClockTime, TimeError>)
    requires
        lo < hi <= v.len(),
    ensures
        view_result(r) == parse_compact(v@.subrange(lo as int, hi as int)),
{
    let ghost t = v@.subrange(lo as int, hi as int);
    let n = hi - lo;
    if n == 1 || n == 2 {
        combine_at(component_at(v, lo, hi, TimeComponent::Hour), Ok(0), Ok(0))
    } else if n == 3 {
        assert(t.subrange(0, 1) =~= v@.subrange(lo as int, lo + 1));
        assert(t.subrange(1, 3) =~= v@.subrange(lo + 1, lo + 3));
        combine_at(
            component_at(v, lo, lo + 1, TimeComponent::Hour),
            component_at(v, lo + 1, lo + 3, TimeComponent::Minute),
            Ok(0),
        )
    } else if n == 4 {
        assert(t.subrange(0, 2) =~= v@.subrange(lo as int, lo + 2));
        assert(t.subrange(2, 4) =~= v@.subrange(lo + 2, lo + 4));
        combine_at(
            component_at(v, lo, lo + 2, TimeComponent::Hour),
            component_at(v, lo + 2, lo + 4, TimeComponent::Minute),
            Ok(0),
        )
    } else if n == 5 {
        assert(t.subrange(0, 1) =~= v@.subrange(lo as int, lo + 1));
        assert(t.subrange(1, 3) =~= v@.subrange(lo + 1, lo + 3));
        assert(t.subrange(3, 5) =~= v@.subrange(lo + 3, lo + 5));
        combine_at(
            component_at(v, lo, lo + 1, TimeComponent::Hour),
            component_at(v, lo + 1, lo + 3, TimeComponent::Minute),
            component_at(v, lo + 3, lo + 5, TimeComponent::Second),
        )
    } else if n == 6 {
        assert(t.subrange(0, 2) =~= v@.subrange(lo as int, lo + 2));
        assert(t.subrange(2, 4) =~= v@.subrange(lo + 2, lo + 4));
        assert(t.subrange(4, 6) =~= v@.subrange(lo + 4, lo + 6));
        combine_at(
            component_at(v, lo, lo + 2, TimeComponent::Hour),
            component_at(v, lo + 2, lo + 4, TimeComponent::Minute),
            component_at(v, lo + 4, lo + 6, TimeComponent::Second),
        )
    } else {
        Err(TimeError::CompactLength)
    }
}

/// The bounds of the non-empty pieces of `v[lo..hi]` between separators.
fn split_time_parts(v: &Vec<char>, lo: usize, hi: usize) -> (parts: Vec<(usize, usize)>)
    requires
        lo <= hi <= v.len(),
    ensures
        parts.len() == time_parts(v@.subrange(lo as int, hi as int)).len(),
        forall|i: int|
            0 <= i < parts.len() ==> lo <= (#[trigger] parts@[i]).0 <= parts@[i].1 <= hi
                && v@.subrange(parts@[i].0 as int, parts@[i].1 as int) == time_parts(
                v@.subrange(lo as int, hi as int),
            )[i],
{
    let mut parts: Vec<(usize, usize)> = Vec::new();
    let mut cur = lo;
    let mut k = lo;
    proof {
        assert(v@.subrange(lo as int, lo as int) =~= Seq::<char>::empty());
    }
    while k < hi
        invariant
            lo <= cur <= k <= hi <= v.len(),
            split_pieces(v@.subrange(lo as int, k as int)).len() >= 1,
            split_pieces(v@.subrange(lo as int, k as int)).last() == v@.subrange(
                cur as int,
                k as int,
            ),
            parts.len() == non_empty(split_pieces(v@.subrange(lo as int, k as int)).drop_last()).len(),
            forall|i: int|
                0 <= i < parts.len() ==> lo <= (#[trigger] parts@[i]).0 <= parts@[i].1 <= hi
                    && v@.subrange(parts@[i].0 as int, parts@[i].1 as int) == non_empty(
                    split_pieces(v@.subrange(lo as int, k as int)).drop_last(),
                )[i],
        decreases hi - k,
    {
        let ghost pre = v@.subrange(lo as int, k as int);
        let ghost pre2 = v@.subrange(lo as int, k + 1);
        let ghost sp = split_pieces(pre);
        let ghost old_parts = parts@;
        assert(pre2.drop_last() =~= pre);
        assert(pre2.last() == v@[k as int]);
        let c = v[k];
        if c == ':' || c == ' ' || c == '.' {
            assert(split_pieces(pre2) == sp.push(Seq::empty()));
            assert(sp.push(Seq::<char>::empty()).drop_last() =~= sp);
            assert(sp =~= sp.drop_last().push(sp.last()));
            if cur < k {
                parts.push((cur, k));
            }
            cur = k + 1;
            assert(v@.subrange(cur as int, k + 1) =~= Seq::<char>::empty());
            assert forall|i: int| 0 <= i < parts.len() implies lo <= (#[trigger] parts@[i]).0
                <= parts@[i].1 <= hi && v@.subrange(parts@[i].0 as int, parts@[i].1 as int)
                == non_empty(split_pieces(pre2).drop_last())[i] by {
                if i < old_parts.len() {
                    assert(parts@[i] == old_parts[i]);
                }
            }
        } else {
            assert(split_pieces(pre2) == sp.update(sp.len() - 1, sp.last().push(c)));
            assert(split_pieces(pre2).drop_last() =~= sp.drop_last());
            assert(v@.subrange(cur as int, k + 1) =~= v@.subrange(cur as int, k as int).push(c));
        }
        k += 1;
    }
    let ghost sp = split_pieces(v@.subrange(lo as int, hi as int));
    let ghost old_parts = parts@;
    assert(sp =~= sp.drop_last().push(sp.last()));
    if cur < hi {
        parts.push((cur, hi));
    }
    assert forall|i: int| 0 <= i < parts.len() implies lo <= (#[trigger] parts@[i]).0
        <= parts@[i].1 <= hi && v@.subrange(parts@[i].0 as int, parts@[i].1 as int)
        == time_parts(v@.subrange(lo as int, hi as int))[i] by {
        if i < old_parts.len() {
            assert(parts@[i] == old_parts[i]);
        }
    }
    parts
}

fn parse_separated_at(v: &Vec<char>, lo: usize, hi: usize) -> (r: Result<ClockTime, TimeError>)
    requires
        lo <= hi <= v.len(),
    ensures
        view_result(r) == parse_separated(v@.subrange(lo as int, hi as int)),
{
    let parts = split_time_parts(v, lo, hi);
    let ghost ps = time_parts(v@.subrange(lo as int, hi as int));
    if parts.len() == 0 {
        return Err(TimeError::MissingHour);
    }
    let h = component_at(v, parts[0].0, parts[0].1, TimeComponent::Hour);
    let m = if parts.len() > 1 {
        component_at(v, parts[1].0, parts[1].1, TimeComponent::Minute)
    } else {
        Ok(0)
    };
    let s = if parts.len() > 2 {
        component_at(v, parts[2].0, parts[2].1, TimeComponent::Second)
    } else {
        Ok(0)
    };
    let h = match h {
        Ok(x) => x,
        Err(e) => return Err(e),
    };
    let m = match m {
        Ok(x) => x,
        Err(e) => return Err(e),
    };
    let s = match s {
        Ok(x) => x,
        Err(e) => return Err(e),
    };
    if parts.len() > 3 {
        return Err(TimeError::TooManyComponents);
    }
    ClockTime::try_new(h, m, s)
}

// ---------------------------------------------------------------------------
// Laws

/// The distance between two times on the dial does not depend on which one
/// is named first.
pub proof fn lemma_analog_difference_symmetric(a: ClockTimeView, b: ClockTimeView)
    ensures
        analog_difference(a, b) == analog_difference(b, a),
{
}

/// The shorter way round the dial is never more than half a turn (six
/// hours), and a time is at distance zero from itself.
pub proof fn lemma_analog_difference_bounds(a: ClockTimeView, b: ClockTimeView)
    ensures
        analog_difference(a, b) <= 21600,
        analog_difference(a, a) == 0,
{
}

/// Two times are at distance zero exactly when the hands stand in the same
/// place.
pub proof fn lemma_analog_difference_zero(a: ClockTimeView, b: ClockTimeView)
    ensures
        (analog_difference(a, b) == 0) == (a.analog_seconds() == b.analog_seconds()),
{
}

/// A time and the same time twelve hours later look the same on the dial:
/// comparison ignores AM and PM.
pub proof fn lemma_analog_difference_ignores_half_day(a: ClockTimeView, b: ClockTimeView)
    requires
        a.valid(),
        b.valid(),
        b.hour == a.hour + 12,
        b.minute == a.minute,
        b.second == a.second,
    ensures
        analog_difference(a, b) == 0,
{
    assert(b.total_seconds() == a.total_seconds() + 43200);
    assert(b.analog_seconds() == a.analog_seconds()) by {
        vstd::arithmetic::div_mod::lemma_mod_add_multiples_vanish(a.total_seconds() as int, 43200);
    }
}

proof fn lemma_two_digits(n: nat)
    requires
        n < 100,
    ensures
        two_digits(n).len() == 2,
        all_ascii_digits(two_digits(n)),
        digits_value(two_digits(n)) == n,
        parse_u8(two_digits(n)) == Some(n as u8),
{
    let t = two_digits(n);
    assert(digit_value(digit_char(n % 10)) == n % 10);
    if n < 10 {
        assert(t =~= seq!['0', digit_char(n)]);
    } else {
        assert(decimal(n / 10) == seq![digit_char(n / 10)]);
        assert(digit_value(digit_char(n / 10)) == n / 10);
        assert(t =~= seq![digit_char(n / 10), digit_char(n % 10)]);
    }
    assert(t.drop_last().drop_last() =~= Seq::<char>::empty());
    assert(t.drop_last().last() == t[0]);
    assert(digits_value(Seq::<char>::empty()) == 0);
    assert(digits_value(t.drop_last()) == digits_value(t.drop_last().drop_last()) * 10
        + digit_value(t.drop_last().last()));
    assert(digits_value(t.drop_last()) == digit_value(t[0]));
    assert(digits_value(t) == digit_value(t[0]) * 10 + digit_value(t[1]));
    assert(t[0] != '+');
}

proof fn lemma_split_plain(s: Seq<char>, b: Seq<char>)
    requires
        forall|i: int| 0 <= i < b.len() ==> !is_time_separator(#[trigger] b[i]),
    ensures
        split_pieces(s + b) == split_pieces(s).update(
            split_pieces(s).len() - 1,
            split_pieces(s).last() + b,
        ),
    decreases b.len(),
{
    lemma_split_pieces_not_empty(s);
    if b.len() == 0 {
        assert(s + b =~= s);
        assert(split_pieces(s).last() + b =~= split_pieces(s).last());
        assert(split_pieces(s).update(split_pieces(s).len() - 1, split_pieces(s).last())
            =~= split_pieces(s));
    } else {
        let b0 = b.drop_last();
        lemma_split_plain(s, b0);
        assert((s + b).drop_last() =~= s + b0);
        assert((s + b).last() == b.last());
        assert(b0.push(b.last()) =~= b);
        let sp = split_pieces(s);
        assert(split_pieces(s + b) =~= sp.update(sp.len() - 1, sp.last() + b));
    }
}

proof fn lemma_split_separator(s: Seq<char>, c: char)
    requires
        is_time_separator(c),
    ensures
        split_pieces(s.push(c)) == split_pieces(s).push(Seq::empty()),
{
    assert(s.push(c).drop_last() =~= s);
}

/// Reading back the `HH:MM:SS` text of a valid time gives that time again.
pub proof fn lemma_parse_time_text(v: ClockTimeView)
    requires
        v.valid(),
    ensures
        parse_time(time_text(v.hour, v.minute, v.second)) == Ok::<ClockTimeView, TimeError>(v),
{
    let t1 = two_digits(v.hour);
    let t2 = two_digits(v.minute);
    let t3 = two_digits(v.second);
    lemma_two_digits(v.hour);
    lemma_two_digits(v.minute);
    lemma_two_digits(v.second);
    let s = time_text(v.hour, v.minute, v.second);
    assert(s =~= t1 + seq![':'] + t2 + seq![':'] + t3);
    assert(s.len() == 8);
    // No white space at either end.
    assert(is_ascii_digit(s[0]) && is_ascii_digit(s[7])) by {
        assert(s[0] == t1[0]);
        assert(s[7] == t3[1]);
    }
    assert(trim_start(s) == s);
    assert(trim(s) == s);
    assert(!all_ascii_digits(s)) by {
        assert(s[2] == ':');
    }
    // The three pieces between the colons.
    let e = Seq::<char>::empty();
    assert forall|b: Seq<char>, i: int|
        all_ascii_digits(b) && 0 <= i < b.len() implies !is_time_separator(#[trigger] b[i]) by {
        assert(is_ascii_digit(b[i]));
    }
    lemma_split_plain(e, t1);
    assert(e + t1 =~= t1);
    assert(split_pieces(e) == seq![e]);
    assert(split_pieces(t1) =~= seq![t1]);
    lemma_split_separator(t1, ':');
    let a2 = t1.push(':');
    lemma_split_plain(a2, t2);
    let a3 = (a2 + t2).push(':');
    lemma_split_separator(a2 + t2, ':');
    lemma_split_plain(a3, t3);
    assert(a3 + t3 =~= s);
    assert(split_pieces(a2 + t2) =~= seq![t1, t2]);
    assert(split_pieces(s) =~= seq![t1, t2, t3]);
    let ps = seq![t1, t2, t3];
    assert(ps.drop_last() =~= seq![t1, t2]);
    assert(seq![t1, t2].drop_last() =~= seq![t1]);
    assert(seq![t1].drop_last() =~= Seq::<Seq<char>>::empty());
    assert(seq![t1].last() == t1);
    assert(non_empty(Seq::<Seq<char>>::empty()) == Seq::<Seq<char>>::empty());
    assert(non_empty(seq![t1]) == non_empty(Seq::<Seq<char>>::empty()).push(t1));
    assert(non_empty(seq![t1]) =~= seq![t1]);
    assert(non_empty(seq![t1, t2]) =~= seq![t1, t2]);
    assert(time_parts(s) =~= ps);
}

/// Reading back the compact military form `HHMMSS` of a valid time gives
/// that time again.
pub proof fn lemma_parse_compact_text(v: ClockTimeView)
    requires
        v.valid(),
    ensures
        parse_time(two_digits(v.hour) + two_digits(v.minute) + two_digits(v.second)) == Ok::<
            ClockTimeView,
            TimeError,
        >(v),
{
    let t1 = two_digits(v.hour);
    let t2 = two_digits(v.minute);
    let t3 = two_digits(v.second);
    lemma_two_digits(v.hour);
    lemma_two_digits(v.minute);
    lemma_two_digits(v.second);
    let s = t1 + t2 + t3;
    assert(s.len() == 6);
    assert(all_ascii_digits(s)) by {
        assert forall|i: int| 0 <= i < s.len() implies is_ascii_digit(#[trigger] s[i]) by {
            if i < 2 {
                assert(s[i] == t1[i]);
            } else if i < 4 {
                assert(s[i] == t2[i - 2]);
            } else {
                assert(s[i] == t3[i - 4]);
            }
        }
    }
    assert(is_ascii_digit(s[0]) && is_ascii_digit(s[5]));
    assert(trim_start(s) == s);
    assert(trim(s) == s);
    assert(s.subrange(0, 2) =~= t1);
    assert(s.subrange(2, 4) =~= t2);
    assert(s.subrange(4, 6) =~= t3);
}

/// An answer typed with a Windows line ending reads as the same answer:
/// `parse_time(t + "\r\n") == parse_time(t)` for every text `t`.
pub proof fn lemma_parse_ignores_line_ending(t: Seq<char>)
    ensures
        parse_time(t + seq!['\r', '\n']) == parse_time(t),
        parse_time(t + seq!['\n']) == parse_time(t),
{
    crate::text::lemma_trim_drops_line_endings(t);
}

/// Where the hands of a valid time stand: the hour counts modulo twelve.
proof fn lemma_analog_seconds_of_valid(v: ClockTimeView)
    requires
        v.valid(),
    ensures
        v.analog_seconds() == (v.hour % 12) * 3600 + v.minute * 60 + v.second,
{
    let r: nat = (v.hour % 12) * 3600 + v.minute * 60 + v.second;
    if v.hour < 12 {
        assert(v.hour % 12 == v.hour);
        assert(v.total_seconds() == r);
        vstd::arithmetic::div_mod::lemma_small_mod(r, 43200);
    } else {
        assert(v.hour % 12 == v.hour - 12);
        assert(v.total_seconds() == 43200 + r);
        vstd::arithmetic::div_mod::lemma_mod_add_multiples_vanish(r as int, 43200);
        vstd::arithmetic::div_mod::lemma_small_mod(r, 43200);
    }
}

/// Reading back the twelve-hour text of a valid time gives a time whose
/// hands stand where those of the given time do.
pub proof fn lemma_parse_analog_text(v: ClockTimeView)
    requires
        v.valid(),
    ensures
        parse_time(time_text(v.hour_12(), v.minute, v.second)) matches Ok(w) && analog_difference(
            v,
            w,
        ) == 0,
{
    let w = ClockTimeView { hour: v.hour_12(), minute: v.minute, second: v.second };
    assert(w.valid());
    lemma_parse_time_text(w);
    assert(w.hour % 12 == v.hour % 12);
    lemma_analog_seconds_of_valid(v);
    lemma_analog_seconds_of_valid(w);
}

impl std::str::FromStr for ClockTime {
    type Err = TimeError;

    fn from_str(s: &str) -> (r: Result<Self, Self::Err>)
        ensures
            view_result(r) == parse_time(s@),
    {
        ClockTime::parse(s)
    }
}

} // verus!
