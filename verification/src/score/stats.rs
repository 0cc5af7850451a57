//! Points for a correct answer and the running tally of a session.

use vstd::prelude::*;
use crate::difficulty::Difficulty;
use crate::duration::{Duration, MAX_NANOS};

verus! {

/// The result of one answered round.
#[derive(Copy, Clone, Debug, PartialEq, Eq, Structural)]
pub struct RoundOutcome {
    /// Distance from the shown time, in seconds on the dial.
    pub difference_seconds: u32,
    /// How long the player took to answer.
    pub elapsed: Duration,
    /// Whether the difficulty accepted the answer.
    pub correct: bool,
}

impl RoundOutcome {
    /// An answer on the mark.
    pub fn is_exact(self) -> (b: bool)
        ensures
            b == (self.difference_seconds == 0),
    {
        self.difference_seconds == 0
    }
}

/// Points a correct answer earns before any bonus.
pub open spec fn base_points(d: Difficulty) -> nat {
    match d {
        Difficulty::Hour => 100,
        Difficulty::TenMinutes => 200,
        Difficulty::FiveMinutes => 300,
        Difficulty::Minute => 500,
        Difficulty::ThirtySeconds => 750,
        Difficulty::Exact => 1000,
    }
}

/// Points for a correct answer: an exact one earns half as much again.
pub open spec fn points_for(d: Difficulty, difference_seconds: nat) -> nat {
    if difference_seconds == 0 {
        base_points(d) + base_points(d) / 2
    } else {
        base_points(d)
    }
}

/// Points for a correct answer at `difficulty` that was `difference_seconds`
/// away from the shown time.
pub fn calculate_points(difficulty: Difficulty, difference_seconds: u32) -> (p: u32)
    ensures
        p == points_for(difficulty, difference_seconds as nat),
{
    let base_points: u32 = match difficulty {
        Difficulty::Hour => 100,
        Difficulty::TenMinutes => 200,
        Difficulty::FiveMinutes => 300,
        Difficulty::Minute => 500,
        Difficulty::ThirtySeconds => 750,
        Difficulty::Exact => 1000,
    };
    if difference_seconds == 0 {
        base_points + base_points / 2
    } else {
        base_points
    }
}

/// The counts and times of a session.
pub struct Tally {
    pub correct: nat,
    pub incorrect: nat,
    pub exact: nat,
    pub points: nat,
    pub total_answer_time: nat,
    pub best_answer_time: Option<nat>,
}

pub open spec fn empty_tally() -> Tally {
    Tally {
        correct: 0,
        incorrect: 0,
        exact: 0,
        points: 0,
        total_answer_time: 0,
        best_answer_time: None,
    }
}

/// The tally after one more answered round: the time is added, the best time
/// kept, the answer counted, and a correct answer's points added, saturating
/// at `u32::MAX`.
pub open spec fn tally_after(t: Tally, o: RoundOutcome, d: Difficulty) -> Tally {
    let e = o.elapsed@;
    Tally {
        correct: if o.correct {
            t.correct + 1
        } else {
            t.correct
        },
        incorrect: if o.correct {
            t.incorrect
        } else {
            t.incorrect + 1
        },
        exact: if o.correct && o.difference_seconds == 0 {
            t.exact + 1
        } else {
            t.exact
        },
        points: if o.correct {
            if t.points + points_for(d, o.difference_seconds as nat) <= u32::MAX {
                t.points + points_for(d, o.difference_seconds as nat)
            } else {
                u32::MAX as nat
            }
        } else {
            t.points
        },
        total_answer_time: t.total_answer_time + e,
        best_answer_time: Some(
            match t.best_answer_time {
                None => e,
                Some(b) => if b <= e {
                    b
                } else {
                    e
                },
            },
        ),
    }
}

/// The tally of a sequence of rounds, each with the difficulty it was played at.
pub open spec fn tally_of(rounds: Seq<(RoundOutcome, Difficulty)>) -> Tally
    decreases rounds.len(),
{
    if rounds.len() == 0 {
        empty_tally()
    } else {
        tally_after(tally_of(rounds.drop_last()), rounds.last().0, rounds.last().1)
    }
}

/// The model of a session's statistics: the rounds recorded so far, in order,
/// and whether the player quit.
#[verifier::ext_equal]
pub struct StatsView {
    pub rounds: Seq<(RoundOutcome, Difficulty)>,
    pub quit: bool,
}

impl StatsView {
    pub open spec fn tally(self) -> Tally {
        tally_of(self.rounds)
    }

    pub open spec fn attempted(self) -> nat {
        self.tally().correct + self.tally().incorrect
    }
}

/// The running statistics of a session.
pub struct SessionStats {
    correct: u32,
    incorrect: u32,
    exact: u32,
    points: u32,
    total_answer_time: Duration,
    best_answer_time: Option<Duration>,
    quit: bool,
    rounds: Ghost<Seq<(RoundOutcome, Difficulty)>>,
}

impl View for SessionStats {
    type V = StatsView;

    closed spec fn view(&self) -> StatsView {
        StatsView { rounds: self.rounds@, quit: self.quit }
    }
}

impl Default for SessionStats {
    fn default() -> (s: Self)
        ensures
            s@.rounds == Seq::<(RoundOutcome, Difficulty)>::empty(),
            !s@.quit,
            s@ == stats_of(Seq::empty()),
    {
        SessionStats::new()
    }
}

impl SessionStats {
    #[verifier::type_invariant]
    spec fn matches_rounds(self) -> bool {
        let t = tally_of(self.rounds@);
        &&& self.correct as nat == t.correct
        &&& self.incorrect as nat == t.incorrect
        &&& self.exact as nat == t.exact
        &&& self.points as nat == t.points
        &&& self.total_answer_time@ == t.total_answer_time
        &&& match self.best_answer_time {
            None => t.best_answer_time is None,
            Some(b) => t.best_answer_time == Some(b@),
        }
    }

    /// Statistics of a session with no rounds yet.
    pub fn new() -> (s: Self)
        ensures
            s@.rounds == Seq::<(RoundOutcome, Difficulty)>::empty(),
            !s@.quit,
            s@ == stats_of(Seq::empty()),
    {
        SessionStats {
            correct: 0,
            incorrect: 0,
            exact: 0,
            points: 0,
            total_answer_time: Duration::zero(),
            best_answer_time: None,
            quit: false,
            rounds: Ghost(Seq::empty()),
        }
    }

    pub fn correct(&self) -> (n: u32)
        ensures
            n == self@.tally().correct,
    {
        proof {
            use_type_invariant(self);
        }
        self.correct
    }

    pub fn incorrect(&self) -> (n: u32)
        ensures
            n == self@.tally().incorrect,
    {
        proof {
            use_type_invariant(self);
        }
        self.incorrect
    }

    pub fn exact(&self) -> (n: u32)
        ensures
            n == self@.tally().exact,
    {
        proof {
            use_type_invariant(self);
        }
        self.exact
    }

    pub fn points(&self) -> (n: u32)
        ensures
            n == self@.tally().points,
    {
        proof {
            use_type_invariant(self);
        }
        self.points
    }

    /// Rounds answered, correctly or not.
    pub fn attempted(&self) -> (n: u32)
        requires
            self@.attempted() <= u32::MAX,
        ensures
            n == self@.attempted(),
    {
        proof {
            use_type_invariant(self);
        }
        self.correct + self.incorrect
    }

    /// Whether counting the rounds answered stays within `u32`.
    pub fn attempted_fits(&self) -> (b: bool)
        ensures
            b == (self@.attempted() <= u32::MAX),
    {
        proof {
            use_type_invariant(self);
        }
        self.correct <= u32::MAX - self.incorrect
    }

    /// The mean answer time, rounded down to the nanosecond; none before the
    /// first answer.
    pub fn average_answer_time(&self) -> (a: Option<Duration>)
        requires
            self@.attempted() <= u32::MAX,
        ensures
            self@.attempted() == 0 ==> a is None,
            self@.attempted() > 0 ==> (a matches Some(d) && d@ == self@.tally().total_answer_time
                / self@.attempted()),
    {
        let attempted = self.attempted();
        if attempted == 0 {
            return None;
        }
        proof {
            use_type_invariant(self);
        }
        Some(self.total_answer_time.div(attempted))
    }

    /// The fastest answer so far; none before the first answer.
    pub fn best_answer_time(&self) -> (b: Option<Duration>)
        ensures
            b is None <==> self@.tally().best_answer_time is None,
            b matches Some(d) ==> self@.tally().best_answer_time == Some(d@),
    {
        proof {
            use_type_invariant(self);
        }
        self.best_answer_time
    }

    pub fn total_answer_time(&self) -> (t: Duration)
        ensures
            t@ == self@.tally().total_answer_time,
    {
        proof {
            use_type_invariant(self);
        }
        self.total_answer_time
    }

    /// Whether [`SessionStats::record`] can take `outcome`: the counter it
    /// raises stays within `u32` and the total time within the longest span.
    pub fn can_record(&self, outcome: RoundOutcome) -> (b: bool)
        ensures
            b == can_record(self@, outcome),
    {
        proof {
            use_type_invariant(self);
        }
        let counter_fits = if outcome.correct {
            self.correct < u32::MAX
        } else {
            self.incorrect < u32::MAX
        };
        counter_fits && self.total_answer_time.checked_add(outcome.elapsed).is_some()
    }

    /// Adds one answered round, played at `difficulty`.
    pub fn record(&mut self, outcome: RoundOutcome, difficulty: Difficulty)
        requires
            can_record(old(self)@, outcome),
        ensures
            final(self)@.rounds == old(self)@.rounds.push((outcome, difficulty)),
            final(self)@.quit == old(self)@.quit,
            final(self)@.tally() == tally_after(old(self)@.tally(), outcome, difficulty),
            final(self)@ == stats_after(old(self)@, StatsEvent::Record(outcome, difficulty)),
    {
        proof {
            use_type_invariant(&*self);
        }
        proof {
            lemma_exact_at_most_correct(self.rounds@);
        }
        let ghost rounds = self.rounds@.push((outcome, difficulty));
        assert(rounds.drop_last() =~= self.rounds@);
        let total_answer_time = self.total_answer_time.add(outcome.elapsed);
        let best_answer_time = Some(
            match self.best_answer_time {
                None => outcome.elapsed,
                Some(current_best) => current_best.min(outcome.elapsed),
            },
        );
        let mut correct = self.correct;
        let mut incorrect = self.incorrect;
        let mut exact = self.exact;
        let mut points = self.points;
        if outcome.correct {
            correct += 1;
            if outcome.is_exact() {
                exact += 1;
            }
            points = points.saturating_add(calculate_points(difficulty, outcome.difference_seconds));
        } else {
            incorrect += 1;
        }
        *self = SessionStats {
            correct,
            incorrect,
            exact,
            points,
            total_answer_time,
            best_answer_time,
            quit: self.quit,
            rounds: Ghost(rounds),
        };
    }

    /// Marks the session as ended by the player.
    pub fn quit(&mut self)
        ensures
            final(self)@.rounds == old(self)@.rounds,
            final(self)@.quit,
            final(self)@ == stats_after(old(self)@, StatsEvent::Quit),
    {
        proof {
            use_type_invariant(&*self);
        }
        self.quit = true;
    }

    pub fn has_quit(&self) -> (b: bool)
        ensures
            b == self@.quit,
    {
        self.quit
    }
}

// ---------------------------------------------------------------------------
// Laws

/// Exact answers are counted among the correct ones, and every recorded round
/// is counted once, as correct or as incorrect.
pub proof fn lemma_exact_at_most_correct(rounds: Seq<(RoundOutcome, Difficulty)>)
    ensures
        tally_of(rounds).exact <= tally_of(rounds).correct,
        tally_of(rounds).correct + tally_of(rounds).incorrect == rounds.len(),
    decreases rounds.len(),
{
    if rounds.len() > 0 {
        lemma_exact_at_most_correct(rounds.drop_last());
    }
}

/// The best answer time is the shortest of the recorded times: there is none
/// before the first round, it is no longer than any round's time, and some
/// round took exactly that long.
pub proof fn lemma_best_is_shortest(rounds: Seq<(RoundOutcome, Difficulty)>)
    ensures
        (tally_of(rounds).best_answer_time is None) == (rounds.len() == 0),
        tally_of(rounds).best_answer_time matches Some(b) ==> {
            &&& forall|i: int| 0 <= i < rounds.len() ==> b <= (#[trigger] rounds[i]).0.elapsed@
            &&& exists|i: int| 0 <= i < rounds.len() && b == (#[trigger] rounds[i]).0.elapsed@
        },
    decreases rounds.len(),
{
    if rounds.len() > 0 {
        let prev = rounds.drop_last();
        lemma_best_is_shortest(prev);
        let e = rounds.last().0.elapsed@;
        let b = tally_of(rounds).best_answer_time->0;
        assert forall|i: int| 0 <= i < rounds.len() implies b <= (#[trigger] rounds[i]).0.elapsed@ by {
            if i < rounds.len() - 1 {
                assert(rounds[i] == prev[i]);
            }
        }
        if b == e {
            assert(b == rounds[rounds.len() - 1].0.elapsed@);
        } else {
            let j = choose|j: int| 0 <= j < prev.len() && tally_of(prev).best_answer_time->0 == (
            #[trigger] prev[j]).0.elapsed@;
            assert(rounds[j] == prev[j]);
        }
    }
}

/// The total answer time is at least the best time once per round, so the
/// mean answer time is never below the best one.
pub proof fn lemma_average_not_below_best(rounds: Seq<(RoundOutcome, Difficulty)>)
    ensures
        tally_of(rounds).best_answer_time matches Some(b) ==> b * rounds.len()
            <= tally_of(rounds).total_answer_time,
        tally_of(rounds).best_answer_time matches Some(b) ==> b <= tally_of(
            rounds,
        ).total_answer_time / rounds.len(),
    decreases rounds.len(),
{
    if rounds.len() > 0 {
        let prev = rounds.drop_last();
        lemma_average_not_below_best(prev);
        lemma_best_is_shortest(prev);
        let t = tally_of(rounds);
        let b = t.best_answer_time->0;
        let n = rounds.len();
        let e = rounds.last().0.elapsed@;
        if prev.len() > 0 {
            let pb = tally_of(prev).best_answer_time->0;
            assert(b <= pb);
            assert(b * (n - 1) <= pb * (n - 1)) by (nonlinear_arith)
                requires
                    b <= pb,
                    n >= 1,
            ;
        }
        assert(b * n == b * (n - 1) + b) by (nonlinear_arith);
        assert(b * n <= t.total_answer_time);
        assert(b <= t.total_answer_time / n) by (nonlinear_arith)
            requires
                b * n <= t.total_answer_time,
                n > 0,
        ;
    }
}

/// Recording a round never takes points away; a wrong answer earns none and
/// a right one earns what [`calculate_points`] gives, up to `u32::MAX`.
pub proof fn lemma_points_never_decrease(t: Tally, o: RoundOutcome, d: Difficulty)
    requires
        t.points <= u32::MAX,
    ensures
        tally_after(t, o, d).points >= t.points,
        !o.correct ==> tally_after(t, o, d).points == t.points,
        o.correct && t.points + points_for(d, o.difference_seconds as nat) <= u32::MAX
            ==> tally_after(t, o, d).points == t.points + points_for(
            d,
            o.difference_seconds as nat,
        ),
{
}

/// An exact answer earns exactly half as much again as any other correct
/// answer at the same level, and every correct answer earns something.
pub proof fn lemma_exact_bonus(d: Difficulty, difference: nat)
    requires
        difference > 0,
    ensures
        points_for(d, 0) == points_for(d, difference) + points_for(d, difference) / 2,
        points_for(d, difference) >= 100,
{
}

/// A call that changes a session's statistics.
pub enum StatsEvent {
    /// [`SessionStats::record`] with these arguments.
    Record(RoundOutcome, Difficulty),
    /// [`SessionStats::quit`].
    Quit,
}

/// The statistics after one call.
pub open spec fn stats_after(v: StatsView, e: StatsEvent) -> StatsView {
    match e {
        StatsEvent::Record(o, d) => StatsView { rounds: v.rounds.push((o, d)), quit: v.quit },
        StatsEvent::Quit => StatsView { rounds: v.rounds, quit: true },
    }
}

/// The statistics after a sequence of calls on fresh statistics.
pub open spec fn stats_of(events: Seq<StatsEvent>) -> StatsView
    decreases events.len(),
{
    if events.len() == 0 {
        StatsView { rounds: Seq::empty(), quit: false }
    } else {
        stats_after(stats_of(events.drop_last()), events.last())
    }
}

/// The rounds recorded by a sequence of calls, in order.
pub open spec fn recorded_rounds(events: Seq<StatsEvent>) -> Seq<(RoundOutcome, Difficulty)>
    decreases events.len(),
{
    if events.len() == 0 {
        Seq::empty()
    } else {
        match events.last() {
            StatsEvent::Record(o, d) => recorded_rounds(events.drop_last()).push((o, d)),
            StatsEvent::Quit => recorded_rounds(events.drop_last()),
        }
    }
}

/// The number of rounds answered correctly.
pub open spec fn correct_count(rounds: Seq<(RoundOutcome, Difficulty)>) -> nat
    decreases rounds.len(),
{
    if rounds.len() == 0 {
        0
    } else {
        correct_count(rounds.drop_last()) + if rounds.last().0.correct {
            1nat
        } else {
            0nat
        }
    }
}

/// The sum of the answer times of the rounds.
pub open spec fn elapsed_sum(rounds: Seq<(RoundOutcome, Difficulty)>) -> nat
    decreases rounds.len(),
{
    if rounds.len() == 0 {
        0
    } else {
        elapsed_sum(rounds.drop_last()) + rounds.last().0.elapsed@
    }
}

proof fn lemma_tally_sums(rounds: Seq<(RoundOutcome, Difficulty)>)
    ensures
        tally_of(rounds).correct == correct_count(rounds),
        tally_of(rounds).total_answer_time == elapsed_sum(rounds),
        tally_of(rounds).points <= 1500 * tally_of(rounds).correct,
    decreases rounds.len(),
{
    if rounds.len() > 0 {
        lemma_tally_sums(rounds.drop_last());
    }
}

/// The tally of a session after any sequence of calls: it counts exactly the
/// recorded rounds, each correct one once and each exact one among them;
/// a correct answer earns at most 1500 points; the total time is the sum of
/// the answer times; and the session counts as quit exactly when `quit` was
/// called.
pub proof fn lemma_session_tally(events: Seq<StatsEvent>)
    ensures
        stats_of(events).rounds == recorded_rounds(events),
        stats_of(events).quit <==> exists|i: int| 0 <= i < events.len() && #[trigger] events[i] is Quit,
        stats_of(events).attempted() == recorded_rounds(events).len(),
        stats_of(events).tally().correct == correct_count(recorded_rounds(events)),
        stats_of(events).tally().exact <= stats_of(events).tally().correct,
        stats_of(events).tally().points <= 1500 * stats_of(events).tally().correct,
        stats_of(events).tally().total_answer_time == elapsed_sum(recorded_rounds(events)),
    decreases events.len(),
{
    if events.len() > 0 {
        let prev = events.drop_last();
        lemma_session_tally(prev);
        if stats_of(prev).quit {
            let i = choose|i: int| 0 <= i < prev.len() && #[trigger] prev[i] is Quit;
            assert(events[i] == prev[i]);
        }
        if events.last() is Quit {
            assert(events[events.len() - 1] is Quit);
        } else {
            assert forall|i: int| 0 <= i < events.len() && #[trigger] events[i] is Quit implies stats_of(
                prev,
            ).quit by {
                assert(i < events.len() - 1);
                assert(prev[i] == events[i]);
            }
        }
    }
    let rounds = recorded_rounds(events);
    lemma_exact_at_most_correct(rounds);
    lemma_tally_sums(rounds);
}

/// The exact count is the number of recorded rounds answered correctly and
/// on the mark (zero seconds off), and the correct count the number answered
/// correctly: a round a few seconds off is never counted as exact.
pub proof fn lemma_exact_counts_rounds_on_the_mark(rounds: Seq<(RoundOutcome, Difficulty)>)
    ensures
        tally_of(rounds).exact == rounds.filter(
            |r: (RoundOutcome, Difficulty)| r.0.correct && r.0.difference_seconds == 0,
        ).len(),
        tally_of(rounds).correct == rounds.filter(|r: (RoundOutcome, Difficulty)| r.0.correct).len(),
        tally_of(rounds).incorrect == rounds.filter(|r: (RoundOutcome, Difficulty)| !r.0.correct).len(),
    decreases rounds.len(),
{
    reveal_with_fuel(Seq::filter, 1);
    if rounds.len() > 0 {
        lemma_exact_counts_rounds_on_the_mark(rounds.drop_last());
    }
}

/// Recording a round raises the exact count exactly when the answer was
/// correct and zero seconds off; any other round leaves it as it was.
pub proof fn lemma_record_exact(t: Tally, o: RoundOutcome, d: Difficulty)
    ensures
        o.correct && o.difference_seconds == 0 ==> tally_after(t, o, d).exact == t.exact + 1,
        o.difference_seconds > 0 ==> tally_after(t, o, d).exact == t.exact,
        !o.correct ==> tally_after(t, o, d).exact == t.exact,
{
}

/// What [`SessionStats::record`] needs of the statistics it adds `o` to.
pub open spec fn can_record(s: StatsView, o: RoundOutcome) -> bool {
    &&& o.correct ==> s.tally().correct < u32::MAX
    &&& !o.correct ==> s.tally().incorrect < u32::MAX
    &&& s.tally().total_answer_time + o.elapsed@ <= MAX_NANOS
}

} // verus!
