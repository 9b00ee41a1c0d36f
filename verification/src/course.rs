//! The course of the benchmark: what is to be done next, and what follows from how
//! it went.
use crate::benchmark::{ClassifiedFan, MIDPOINT};
use crate::sweep::{asked, check_controllable, count_true, effective_levels, first_search, follows};
use crate::sweep::{is_swept, levels_of, FanMeasurement, StallPhase, StallSearch};
use crate::text;
use vstd::prelude::*;

verus! {

/// Seconds for which a fan is left alone before its speed is first read.
pub const FIRST_LISTEN_SECS: u64 = 3;

/// Seconds for which a fan is left alone before its speed is read again.
pub const LISTEN_SECS: u64 = 2;

/// What is to be done next. Fans are counted from 0.
#[derive(Debug, Clone, Copy, PartialEq, Eq, Structural)]
pub enum Action {
    /// Take a fan into manual mode and try it at the midpoint.
    Take(usize),
    /// Run a fan at a PWM value, or the lowest one above it that the driver takes.
    Drive(usize, u8),
    /// Wait the given seconds, then read a fan's speed.
    Listen(usize, u64),
    /// Let the temperatures settle, then sample them.
    Measure,
    /// The benchmark is complete.
    Finish,
    /// The benchmark has failed.
    Fail,
}

/// Where the benchmark stands.
#[derive(Debug, Clone, Copy, PartialEq, Eq, Structural)]
pub enum Stage {
    /// Fans are taken into manual mode, one by one.
    Taking,
    /// Fans are brought to a standstill, one by one.
    Clearing,
    /// The machine is measured without any cooling.
    Baseline,
    /// A fan is to run at the value that its search for the stall threshold asks for.
    Searching(StallSearch),
    /// A fan runs at the given value for its search.
    Listening(StallSearch, u8),
    /// A fan whose threshold is known is brought to a standstill.
    Stilling,
    /// Before a sweep, the given other fan is brought to the midpoint.
    Isolating(usize),
    /// The swept fan is to run at the level with the given number.
    Raising(usize),
    /// The machine is measured at that level.
    Reading(usize),
    /// After a sweep, the fan is brought to the midpoint.
    Resting,
    Done,
    Failed,
}

/// The course of the benchmark over a machine's fans.
#[derive(Debug)]
pub struct Course {
    pub classified: Vec<ClassifiedFan>,
    /// Which of the fans that were taken let themselves be driven.
    pub controllable: Vec<bool>,
    /// What each fan was last asked to run at since it was taken.
    pub standing: Vec<u8>,
    /// The stall thresholds found so far.
    pub stalls: Vec<u8>,
    /// The fan at hand.
    pub at: usize,
    pub stage: Stage,
    /// The sampled sums without any cooling.
    pub baseline: Vec<i128>,
    /// What the sweep at hand has measured.
    pub readings: Vec<(u8, Vec<i128>)>,
    pub measured: Vec<FanMeasurement>,
    /// Why the benchmark failed.
    pub failure: Option<String>,
}

/// What was measured of one fan.
pub struct MeasuredView {
    pub name: Seq<char>,
    pub stall: u8,
    pub readings: Seq<(u8, Seq<i128>)>,
}

/// A course, as values.
#[verifier::ext_equal]
pub struct CourseView {
    pub names: Seq<Seq<char>>,
    pub follower: Seq<bool>,
    pub controllable: Seq<bool>,
    pub standing: Seq<u8>,
    pub stalls: Seq<u8>,
    pub at: int,
    pub stage: Stage,
    pub baseline: Seq<i128>,
    pub readings: Seq<(u8, Seq<i128>)>,
    pub measured: Seq<MeasuredView>,
    pub failure: Option<Seq<char>>,
}

pub open spec fn reading_views(r: Seq<(u8, Vec<i128>)>) -> Seq<(u8, Seq<i128>)> {
    Seq::new(r.len(), |i: int| (r[i].0, r[i].1@))
}

impl View for FanMeasurement {
    type V = MeasuredView;

    open spec fn view(&self) -> MeasuredView {
        MeasuredView {
            name: self.fan_name@,
            stall: self.stall_pwm,
            readings: reading_views(self.readings@),
        }
    }
}

pub open spec fn measured_views(m: Seq<FanMeasurement>) -> Seq<MeasuredView> {
    Seq::new(m.len(), |i: int| m[i]@)
}

impl View for Course {
    type V = CourseView;

    open spec fn view(&self) -> CourseView {
        CourseView {
            names: Seq::new(self.classified@.len(), |i: int| self.classified@[i].name@),
            follower: Seq::new(self.classified@.len(), |i: int| follows(self.classified@[i])),
            controllable: self.controllable@,
            standing: self.standing@,
            stalls: self.stalls@,
            at: self.at as int,
            stage: self.stage,
            baseline: self.baseline@,
            readings: reading_views(self.readings@),
            measured: measured_views(self.measured@),
            failure: match self.failure {
                Some(m) => Some(m@),
                None => None,
            },
        }
    }
}

/// The thresholds once the one of the fan at `at` is known: it holds for every
/// entry of that fan's name.
pub open spec fn with_stall(names: Seq<Seq<char>>, stalls: Seq<u8>, at: int, stall: u8) -> Seq<u8> {
    Seq::new(
        stalls.len(),
        |i: int|
            if names[i] == names[at] {
                stall
            } else {
                stalls[i]
            },
    )
}

/// The first place from `i` on that is marked; the length where there is none.
pub open spec fn first_from(marks: Seq<bool>, i: int) -> int
    decreases marks.len() - i,
{
    if i >= marks.len() {
        marks.len() as int
    } else if marks[i] {
        i
    } else {
        first_from(marks, i + 1)
    }
}

/// The marked places below `n`, in order.
pub open spec fn marked_below(marks: Seq<bool>, n: int) -> Seq<int>
    decreases n,
{
    if n <= 0 {
        Seq::empty()
    } else if marks[n - 1] {
        marked_below(marks, n - 1).push(n - 1)
    } else {
        marked_below(marks, n - 1)
    }
}

/// Whether the readings are those of the first `n` levels of a fan with the given
/// stall threshold.
pub open spec fn at_levels(readings: Seq<(u8, Seq<i128>)>, stall: u8, n: int) -> bool {
    &&& readings.len() == n
    &&& forall|j: int| 0 <= j < n ==> (#[trigger] readings[j]).0 == levels_of(stall)[j]
}

impl CourseView {
    /// How many fans there are.
    pub open spec fn total(self) -> int {
        self.names.len() as int
    }

    /// The fans that are swept: they can be driven and follow no other.
    pub open spec fn swept(self) -> Seq<bool> {
        Seq::new(self.names.len(), |i: int| self.controllable[i] && !self.follower[i])
    }

    /// The fans other than `fan` that can be driven.
    pub open spec fn others(self, fan: int) -> Seq<bool> {
        Seq::new(self.names.len(), |i: int| self.controllable[i] && i != fan)
    }

    /// Whether all fans but the one at hand that can be driven stand at the
    /// midpoint, as far as they come before `n`.
    pub open spec fn isolated(self, n: int) -> bool {
        forall|j: int|
            0 <= j < n && j != self.at && self.controllable[j] ==> #[trigger] self.standing[j]
                == MIDPOINT
    }

    /// Whether every swept fan before the one at hand has been measured at all its
    /// levels, and no other fan has been measured.
    pub open spec fn measured_before(self) -> bool {
        let done = marked_below(self.swept(), self.at);
        &&& self.measured.len() == done.len()
        &&& forall|m: int|
            0 <= m < done.len() ==> {
                let x = #[trigger] self.measured[m];
                &&& x.name == self.names[done[m]]
                &&& x.stall == self.stalls[done[m]]
                &&& at_levels(x.readings, x.stall, levels_of(x.stall).len() as int)
            }
    }

    /// Whether a fan that can be driven is at hand, before any sweep.
    pub open spec fn preparing(self) -> bool {
        &&& self.controllable.len() == self.total()
        &&& 0 <= self.at < self.total()
        &&& self.controllable[self.at]
        &&& self.measured.len() == 0
    }

    /// Whether a fan that is swept is at hand.
    pub open spec fn sweeping(self) -> bool {
        &&& self.controllable.len() == self.total()
        &&& 0 <= self.at < self.total()
        &&& self.swept()[self.at]
        &&& self.measured_before()
    }

    /// Whether entries of one name have one threshold.
    pub open spec fn agrees(self) -> bool {
        forall|i: int, j: int|
            0 <= i < self.total() && 0 <= j < self.total() && self.names[i] == self.names[j]
                ==> #[trigger] self.stalls[i] == #[trigger] self.stalls[j]
    }

    pub open spec fn wf(self) -> bool {
        &&& self.follower.len() == self.total()
        &&& self.standing.len() == self.total()
        &&& self.stalls.len() == self.total()
        &&& self.agrees()
        &&& self.failure is Some <==> self.stage is Failed
        &&& match self.stage {
            Stage::Taking => {
                &&& 0 <= self.at < self.total()
                &&& self.controllable.len() == self.at
                &&& self.measured.len() == 0
            },
            Stage::Clearing => self.preparing(),
            Stage::Baseline => {
                &&& self.controllable.len() == self.total()
                &&& first_from(self.controllable, 0) < self.total()
                &&& self.measured.len() == 0
            },
            Stage::Searching(s) => self.preparing() && s.wf() && !(s.phase is Done),
            Stage::Listening(s, _) => self.preparing() && s.wf() && !(s.phase is Done),
            Stage::Stilling => self.preparing(),
            Stage::Isolating(o) => {
                &&& self.sweeping()
                &&& o < self.total()
                &&& self.others(self.at)[o as int]
                &&& self.isolated(o as int)
                &&& self.readings.len() == 0
            },
            Stage::Raising(k) => {
                &&& self.sweeping()
                &&& self.isolated(self.total())
                &&& k < levels_of(self.stalls[self.at]).len()
                &&& at_levels(self.readings, self.stalls[self.at], k as int)
            },
            Stage::Reading(k) => {
                &&& self.sweeping()
                &&& self.isolated(self.total())
                &&& k < levels_of(self.stalls[self.at]).len()
                &&& at_levels(self.readings, self.stalls[self.at], k as int)
                &&& self.standing[self.at] == levels_of(self.stalls[self.at])[k as int]
            },
            Stage::Resting => {
                &&& self.sweeping()
                &&& self.isolated(self.total())
                &&& at_levels(
                    self.readings,
                    self.stalls[self.at],
                    levels_of(self.stalls[self.at]).len() as int,
                )
            },
            Stage::Done => {
                &&& self.controllable.len() == self.total()
                &&& self.at == self.total()
                &&& self.measured_before()
            },
            Stage::Failed => true,
        }
    }

    /// What is to be done next.
    pub open spec fn next(self) -> Action {
        match self.stage {
            Stage::Taking => Action::Take(self.at as usize),
            Stage::Clearing => Action::Drive(self.at as usize, 0),
            Stage::Baseline => Action::Measure,
            Stage::Searching(s) => Action::Drive(self.at as usize, asked(s)),
            Stage::Listening(s, _) => Action::Listen(
                self.at as usize,
                if s.phase is Start {
                    FIRST_LISTEN_SECS
                } else {
                    LISTEN_SECS
                },
            ),
            Stage::Stilling => Action::Drive(self.at as usize, 0),
            Stage::Isolating(o) => Action::Drive(o, MIDPOINT),
            Stage::Raising(k) => Action::Drive(
                self.at as usize,
                levels_of(self.stalls[self.at])[k as int],
            ),
            Stage::Reading(_) => Action::Measure,
            Stage::Resting => Action::Drive(self.at as usize, MIDPOINT),
            Stage::Done => Action::Finish,
            Stage::Failed => Action::Fail,
        }
    }

    /// The course at the next sweep, of the first swept fan from `from` on.
    pub open spec fn at_sweep_from(self, from: int) -> CourseView {
        let fan = first_from(self.swept(), from);
        let other = first_from(self.others(fan), 0);
        CourseView {
            at: fan,
            readings: Seq::empty(),
            stage: if fan >= self.total() {
                Stage::Done
            } else if other >= self.total() {
                Stage::Raising(0)
            } else {
                Stage::Isolating(other as usize)
            },
            ..self
        }
    }

    /// The course once it has failed.
    pub open spec fn failed(self, m: Seq<char>) -> CourseView {
        CourseView { stage: Stage::Failed, failure: Some(m), ..self }
    }

    /// The course after the fan at hand was taken and did, or did not, let itself be
    /// driven.
    pub open spec fn after_taking(self, driven: bool) -> CourseView {
        let next = CourseView {
            controllable: self.controllable.push(driven),
            at: self.at + 1,
            ..self
        };
        if next.at < self.total() {
            next
        } else if count_true(next.controllable, self.total()) == 0 {
            next.failed("no fans are controllable \u{2014} cannot benchmark"@)
        } else {
            CourseView { at: first_from(next.controllable, 0), stage: Stage::Clearing, ..next }
        }
    }

    /// The course after a fan that was to be set runs at `actual`.
    pub open spec fn after_setting(self, actual: u8) -> CourseView {
        match self.stage {
            Stage::Clearing => {
                let next = first_from(self.controllable, self.at + 1);
                CourseView {
                    standing: self.standing.update(self.at, 0),
                    at: next,
                    stage: if next >= self.total() {
                        Stage::Baseline
                    } else {
                        Stage::Clearing
                    },
                    ..self
                }
            },
            Stage::Searching(s) => CourseView {
                standing: self.standing.update(self.at, asked(s)),
                stage: Stage::Listening(s, actual),
                ..self
            },
            Stage::Stilling => {
                let next = first_from(self.controllable, self.at + 1);
                let still = CourseView { standing: self.standing.update(self.at, 0), ..self };
                if next >= self.total() {
                    still.at_sweep_from(0)
                } else {
                    CourseView { at: next, stage: Stage::Searching(first_search()), ..still }
                }
            },
            Stage::Isolating(o) => {
                let next = first_from(self.others(self.at), o + 1);
                CourseView {
                    standing: self.standing.update(o as int, MIDPOINT),
                    stage: if next >= self.total() {
                        Stage::Raising(0)
                    } else {
                        Stage::Isolating(next as usize)
                    },
                    ..self
                }
            },
            Stage::Raising(k) => CourseView {
                standing: self.standing.update(
                    self.at,
                    levels_of(self.stalls[self.at])[k as int],
                ),
                stage: Stage::Reading(k),
                ..self
            },
            Stage::Resting => {
                let rested = CourseView {
                    standing: self.standing.update(self.at, MIDPOINT),
                    measured: self.measured.push(
                        MeasuredView {
                            name: self.names[self.at],
                            stall: self.stalls[self.at],
                            readings: self.readings,
                        },
                    ),
                    ..self
                };
                rested.at_sweep_from(self.at + 1)
            },
            _ => self,
        }
    }

    /// The course after the fan at hand was heard to turn, or not.
    pub open spec fn after_listening(self, turns: bool) -> CourseView {
        match self.stage {
            Stage::Listening(s, actual) => {
                let t = s.after(actual, turns);
                if t.phase is Done {
                    CourseView {
                        stalls: with_stall(self.names, self.stalls, self.at, t.stall),
                        stage: Stage::Stilling,
                        ..self
                    }
                } else {
                    CourseView { stage: Stage::Searching(t), ..self }
                }
            },
            _ => self,
        }
    }

    /// The course after the sums of the temperatures were sampled.
    pub open spec fn after_measuring(self, sums: Seq<i128>) -> CourseView {
        match self.stage {
            Stage::Baseline => CourseView {
                baseline: sums,
                at: first_from(self.controllable, 0),
                stage: Stage::Searching(first_search()),
                ..self
            },
            Stage::Reading(k) => {
                let levels = levels_of(self.stalls[self.at]);
                CourseView {
                    readings: self.readings.push((levels[k as int], sums)),
                    stage: if k + 1 < levels.len() {
                        Stage::Raising((k + 1) as usize)
                    } else {
                        Stage::Resting
                    },
                    ..self
                }
            },
            _ => self,
        }
    }
}

// ---- The invariant ----

proof fn lemma_first_from(marks: Seq<bool>, i: int)
    requires
        0 <= i <= marks.len(),
    ensures
        i <= first_from(marks, i) <= marks.len(),
        first_from(marks, i) < marks.len() ==> marks[first_from(marks, i)],
        forall|j: int| i <= j < first_from(marks, i) ==> !#[trigger] marks[j],
    decreases marks.len() - i,
{
    if i < marks.len() && !marks[i] {
        lemma_first_from(marks, i + 1);
    }
}

/// Nothing between `i` and the first mark from `i` on is marked.
proof fn lemma_marked_up_to(marks: Seq<bool>, i: int, n: int)
    requires
        0 <= i <= n <= marks.len(),
        forall|j: int| i <= j < n ==> !#[trigger] marks[j],
    ensures
        marked_below(marks, n) == marked_below(marks, i),
    decreases n,
{
    if n > i {
        lemma_marked_up_to(marks, i, n - 1);
        assert(!marks[n - 1]);
    }
}

proof fn lemma_none_marked(marks: Seq<bool>, n: int)
    requires
        0 <= n <= marks.len(),
    ensures
        count_true(marks, n) >= 0,
        count_true(marks, n) == 0 <==> (forall|j: int| 0 <= j < n ==> !#[trigger] marks[j]),
    decreases n,
{
    if n > 0 {
        lemma_none_marked(marks, n - 1);
        if marks[n - 1] {
            assert(!(forall|j: int| 0 <= j < n ==> !#[trigger] marks[j]));
        } else {
            assert((forall|j: int| 0 <= j < n ==> !#[trigger] marks[j]) <==> (forall|j: int|
                0 <= j < n - 1 ==> !#[trigger] marks[j]));
        }
    }
}

proof fn lemma_at_sweep(c: CourseView, from: int)
    requires
        c.follower.len() == c.total(),
        c.standing.len() == c.total(),
        c.stalls.len() == c.total(),
        c.agrees(),
        c.controllable.len() == c.total(),
        c.failure is None,
        0 <= from <= c.total() <= usize::MAX,
        ({
            let before = CourseView { at: from, ..c };
            before.measured_before()
        }),
    ensures
        c.at_sweep_from(from).wf(),
{
    let fan = first_from(c.swept(), from);
    let n = c.at_sweep_from(from);
    lemma_first_from(c.swept(), from);
    lemma_marked_up_to(c.swept(), from, fan);
    assert(n.swept() =~= c.swept());
    assert((CourseView { at: from, ..c }).swept() =~= c.swept());
    assert(marked_below(n.swept(), n.at) == marked_below(c.swept(), from));
    assert(n.measured_before());
    lemma_first_from(c.others(fan), 0);
    if fan < c.total() {
        assert(n.others(n.at) =~= c.others(fan));
        let other = first_from(c.others(fan), 0);
        assert forall|j: int|
            0 <= j < other && j != fan && c.controllable[j] implies #[trigger] n.standing[j]
            == MIDPOINT by {
            assert(!c.others(fan)[j]);
        }
    }
}

/// The invariant holds after a fan was taken.
pub proof fn law_taking_keeps(c: CourseView, driven: bool)
    requires
        c.wf(),
        c.stage is Taking,
    ensures
        c.after_taking(driven).wf(),
{
    let next = c.controllable.push(driven);
    if c.at + 1 >= c.total() {
        lemma_none_marked(next, c.total());
        lemma_first_from(next, 0);
        if first_from(next, 0) >= c.total() {
            assert forall|j: int| 0 <= j < c.total() implies !#[trigger] next[j] by {}
        }
    }
}

/// The invariant holds after a fan was set.
pub proof fn law_setting_keeps(c: CourseView, actual: u8)
    requires
        c.wf(),
        c.total() <= usize::MAX,
        c.next() is Drive,
    ensures
        c.after_setting(actual).wf(),
{
    let n = c.after_setting(actual);
    match c.stage {
        Stage::Clearing => {
            lemma_first_from(c.controllable, c.at + 1);
            lemma_first_from(c.controllable, 0);
        },
        Stage::Stilling => {
            lemma_first_from(c.controllable, c.at + 1);
            let still = CourseView { standing: c.standing.update(c.at, 0), ..c };
            if first_from(c.controllable, c.at + 1) >= c.total() {
                assert(marked_below(still.swept(), 0).len() == 0);
                lemma_at_sweep(still, 0);
            }
        },
        Stage::Isolating(o) => {
            lemma_first_from(c.others(c.at), o + 1);
            assert(n.others(n.at) =~= c.others(c.at));
            assert(n.swept() =~= c.swept());
            let next = first_from(c.others(c.at), o + 1);
            assert forall|j: int|
                0 <= j < next && j != c.at && c.controllable[j] implies #[trigger] n.standing[j]
                == MIDPOINT by {
                if j > o {
                    assert(!c.others(c.at)[j]);
                } else if j < o {
                    assert(c.standing[j] == MIDPOINT);
                }
            }
        },
        Stage::Raising(k) => {
            assert(n.swept() =~= c.swept());
            assert forall|j: int|
                0 <= j < c.total() && j != n.at && n.controllable[j] implies #[trigger] n.standing[j]
                == MIDPOINT by {
                assert(c.standing[j] == MIDPOINT);
            }
        },
        Stage::Resting => {
            let rested = CourseView {
                standing: c.standing.update(c.at, MIDPOINT),
                measured: c.measured.push(
                    MeasuredView {
                        name: c.names[c.at],
                        stall: c.stalls[c.at],
                        readings: c.readings,
                    },
                ),
                ..c
            };
            let before = CourseView { at: c.at + 1, ..rested };
            assert(before.swept() =~= c.swept());
            let done = marked_below(c.swept(), c.at);
            assert(marked_below(before.swept(), c.at + 1) == done.push(c.at));
            assert(before.measured_before()) by {
                assert forall|m: int| 0 <= m < done.len() + 1 implies {
                    let x = #[trigger] before.measured[m];
                    &&& x.name == before.names[done.push(c.at)[m]]
                    &&& x.stall == before.stalls[done.push(c.at)[m]]
                    &&& at_levels(x.readings, x.stall, levels_of(x.stall).len() as int)
                } by {
                    if m < done.len() {
                        assert(before.measured[m] == c.measured[m]);
                    }
                }
            }
            lemma_at_sweep(rested, c.at + 1);
        },
        _ => {},
    }
}

/// The invariant holds after a fan was listened to.
pub proof fn law_listening_keeps(c: CourseView, turns: bool)
    requires
        c.wf(),
        c.stage is Listening,
    ensures
        c.after_listening(turns).wf(),
{
}

/// The invariant holds after the temperatures were sampled.
pub proof fn law_measuring_keeps(c: CourseView, sums: Seq<i128>)
    requires
        c.wf(),
        c.next() is Measure,
    ensures
        c.after_measuring(sums).wf(),
{
    lemma_first_from(c.controllable, 0);
    let n = c.after_measuring(sums);
    assert(n.swept() =~= c.swept());
    if c.stage is Reading {
        assert(n.standing == c.standing);
        assert(n.isolated(n.total()));
    }
}

// ---- Going on ----

/// The first place from `from` on that is marked.
fn first(marks: &Vec<bool>, from: usize) -> (r: usize)
    requires
        from <= marks@.len(),
    ensures
        r == first_from(marks@, from as int),
        from <= r <= marks@.len(),
{
    let mut i: usize = from;
    while i < marks.len() && !marks[i]
        invariant
            from <= i <= marks@.len(),
            first_from(marks@, i as int) == first_from(marks@, from as int),
        decreases marks@.len() - i,
    {
        i = i + 1;
    }
    i
}

impl Course {
    pub open spec fn wf(self) -> bool {
        self@.wf()
    }

    /// The course at its beginning.
    pub open spec fn begun(classified: Seq<ClassifiedFan>) -> CourseView {
        let zeros = Seq::new(classified.len(), |i: int| 0u8);
        let start = CourseView {
            names: Seq::new(classified.len(), |i: int| classified[i].name@),
            follower: Seq::new(classified.len(), |i: int| follows(classified[i])),
            controllable: Seq::empty(),
            standing: zeros,
            stalls: zeros,
            at: 0,
            stage: Stage::Taking,
            baseline: Seq::empty(),
            readings: Seq::empty(),
            measured: Seq::empty(),
            failure: None,
        };
        if classified.len() == 0 {
            start.failed("no fans are controllable \u{2014} cannot benchmark"@)
        } else {
            start
        }
    }

    /// A benchmark of the given fans.
    pub fn new(classified: Vec<ClassifiedFan>) -> (r: Self)
        ensures
            r.wf(),
            r.classified == classified,
            r@ == Self::begun(classified@),
    {
        let n: usize = classified.len();
        let mut standing: Vec<u8> = Vec::new();
        let mut stalls: Vec<u8> = Vec::new();
        for i in 0..n
            invariant
                standing@ == Seq::new(i as nat, |k: int| 0u8),
                stalls@ == Seq::new(i as nat, |k: int| 0u8),
        {
            standing.push(0);
            stalls.push(0);
            assert(standing@ =~= Seq::new((i + 1) as nat, |k: int| 0u8));
            assert(stalls@ =~= Seq::new((i + 1) as nat, |k: int| 0u8));
        }
        let stage = if n == 0 {
            Stage::Failed
        } else {
            Stage::Taking
        };
        let failure = if n == 0 {
            Some("no fans are controllable \u{2014} cannot benchmark".to_owned())
        } else {
            None
        };
        let r = Course {
            classified,
            controllable: Vec::new(),
            standing,
            stalls,
            at: 0,
            stage,
            baseline: Vec::new(),
            readings: Vec::new(),
            measured: Vec::new(),
            failure,
        };
        assert(r@ =~= Self::begun(classified@));
        r
    }

    /// What is to be done next.
    pub fn next(&self) -> (r: Action)
        requires
            self.wf(),
        ensures
            r == self@.next(),
    {
        match self.stage {
            Stage::Taking => Action::Take(self.at),
            Stage::Clearing => Action::Drive(self.at, 0),
            Stage::Baseline => Action::Measure,
            Stage::Searching(s) => match s.next() {
                Some(pwm) => Action::Drive(self.at, pwm),
                None => Action::Fail,
            },
            Stage::Listening(s, _) => match s.phase {
                StallPhase::Start => Action::Listen(self.at, FIRST_LISTEN_SECS),
                _ => Action::Listen(self.at, LISTEN_SECS),
            },
            Stage::Stilling => Action::Drive(self.at, 0),
            Stage::Isolating(o) => Action::Drive(o, MIDPOINT),
            Stage::Raising(k) => Action::Drive(
                self.at,
                effective_levels(self.stalls[self.at])[k],
            ),
            Stage::Reading(_) => Action::Measure,
            Stage::Resting => Action::Drive(self.at, MIDPOINT),
            Stage::Done => Action::Finish,
            Stage::Failed => Action::Fail,
        }
    }

    /// The fans that are swept.
    fn swept_marks(&self) -> (r: Vec<bool>)
        requires
            self.controllable@.len() == self.classified@.len(),
        ensures
            r@ == self@.swept(),
    {
        let mut r: Vec<bool> = Vec::new();
        for i in 0..self.classified.len()
            invariant
                self.controllable@.len() == self.classified@.len(),
                r@ == self@.swept().take(i as int),
        {
            r.push(is_swept(&self.classified[i], self.controllable[i]));
            assert(r@ =~= self@.swept().take(i + 1));
        }
        assert(self@.swept().take(self.classified@.len() as int) =~= self@.swept());
        r
    }

    /// The fans other than `fan` that can be driven.
    fn other_marks(&self, fan: usize) -> (r: Vec<bool>)
        requires
            self.controllable@.len() == self.classified@.len(),
        ensures
            r@ == self@.others(fan as int),
    {
        let mut r: Vec<bool> = Vec::new();
        for i in 0..self.classified.len()
            invariant
                self.controllable@.len() == self.classified@.len(),
                r@ == self@.others(fan as int).take(i as int),
        {
            r.push(self.controllable[i] && i != fan);
            assert(r@ =~= self@.others(fan as int).take(i + 1));
        }
        assert(self@.others(fan as int).take(self.classified@.len() as int) =~= self@.others(
            fan as int,
        ));
        r
    }

    /// Goes to the next sweep, of the first swept fan from `from` on.
    fn sweep_from(&mut self, from: usize)
        requires
            old(self).controllable@.len() == old(self).classified@.len(),
            from <= old(self).classified@.len(),
        ensures
            final(self).classified == old(self).classified,
            final(self)@ == old(self)@.at_sweep_from(from as int),
    {
        let n: usize = self.classified.len();
        let fan: usize = first(&self.swept_marks(), from);
        let other: usize = first(&self.other_marks(fan), 0);
        let ghost before = self@;
        self.at = fan;
        self.readings = Vec::new();
        self.stage = if fan >= n {
            Stage::Done
        } else if other >= n {
            Stage::Raising(0)
        } else {
            Stage::Isolating(other)
        };
        assert(self@ =~= before.at_sweep_from(from as int));
    }

    /// Goes on after the fan that was to be taken did, or did not, let itself be
    /// driven.
    pub fn took(&mut self, driven: bool)
        requires
            old(self).wf(),
            old(self).stage is Taking,
        ensures
            final(self).wf(),
            final(self).classified == old(self).classified,
            final(self)@ == old(self)@.after_taking(driven),
    {
        proof {
            law_taking_keeps(self@, driven);
        }
        let ghost before = self@;
        let n: usize = self.classified.len();
        self.controllable.push(driven);
        self.at = self.at + 1;
        if self.at >= n {
            match check_controllable(&self.controllable) {
                Ok(_) => {
                    self.at = first(&self.controllable, 0);
                    self.stage = Stage::Clearing;
                },
                Err(m) => {
                    self.stage = Stage::Failed;
                    self.failure = Some(m);
                },
            }
        }
        assert(self@ =~= before.after_taking(driven));
    }

    /// Goes on after the fan that was to be driven runs at the value given, or could
    /// not be driven.
    pub fn drove(&mut self, outcome: Result<u8, String>)
        requires
            old(self).wf(),
            old(self)@.next() is Drive,
        ensures
            final(self).wf(),
            final(self).classified == old(self).classified,
            final(self)@ == match outcome {
                Ok(actual) => old(self)@.after_setting(actual),
                Err(m) => old(self)@.failed(m@),
            },
    {
        let ghost before = self@;
        let actual: u8 = match outcome {
            Ok(actual) => actual,
            Err(m) => {
                self.stage = Stage::Failed;
                self.failure = Some(m);
                assert(self@ =~= before.failed(m@));
                return ;
            },
        };
        let n: usize = self.classified.len();
        proof {
            law_setting_keeps(self@, actual);
        }
        let at: usize = self.at;
        match self.stage {
            Stage::Clearing => {
                self.standing[at] = 0;
                self.at = first(&self.controllable, at + 1);
                if self.at >= n {
                    self.stage = Stage::Baseline;
                }
                assert(self@ =~= before.after_setting(actual));
            },
            Stage::Searching(s) => {
                let pwm: u8 = match s.next() {
                    Some(pwm) => pwm,
                    None => 0,
                };
                self.standing[at] = pwm;
                self.stage = Stage::Listening(s, actual);
                assert(self@ =~= before.after_setting(actual));
            },
            Stage::Stilling => {
                self.standing[at] = 0;
                let next: usize = first(&self.controllable, at + 1);
                assert(self@ =~= CourseView { standing: before.standing.update(at as int, 0), ..before }
                );
                if next >= n {
                    self.sweep_from(0);
                } else {
                    self.at = next;
                    self.stage = Stage::Searching(StallSearch::new());
                }
                assert(self@ =~= before.after_setting(actual));
            },
            Stage::Isolating(o) => {
                let next: usize = first(&self.other_marks(at), o + 1);
                self.standing[o] = MIDPOINT;
                self.stage = if next >= n {
                    Stage::Raising(0)
                } else {
                    Stage::Isolating(next)
                };
                assert(self@ =~= before.after_setting(actual));
            },
            Stage::Raising(k) => {
                let pwm: u8 = effective_levels(self.stalls[at])[k];
                self.standing[at] = pwm;
                self.stage = Stage::Reading(k);
                assert(self@ =~= before.after_setting(actual));
            },
            Stage::Resting => {
                self.standing[at] = MIDPOINT;
                let mut readings: Vec<(u8, Vec<i128>)> = Vec::new();
                std::mem::swap(&mut readings, &mut self.readings);
                let ghost was = self.measured@;
                self.measured.push(
                    FanMeasurement {
                        fan_name: self.classified[at].name.clone(),
                        stall_pwm: self.stalls[at],
                        readings,
                    },
                );
                let ghost rested = CourseView {
                    standing: before.standing.update(at as int, MIDPOINT),
                    measured: before.measured.push(
                        MeasuredView {
                            name: before.names[at as int],
                            stall: before.stalls[at as int],
                            readings: before.readings,
                        },
                    ),
                    ..before
                };
                proof {
                    assert(measured_views(self.measured@) =~= rested.measured);
                    assert(self@ =~= CourseView { readings: self@.readings, ..rested });
                    assert(self@.swept() =~= rested.swept());
                    let fan = first_from(rested.swept(), at + 1);
                    assert(self@.others(fan) =~= rested.others(fan));
                    assert(self@.at_sweep_from(at + 1) =~= rested.at_sweep_from(at + 1));
                }
                self.sweep_from(at + 1);
            },
            _ => {},
        }
    }

    /// Goes on after the fan was heard to turn at the given speed.
    pub fn heard(&mut self, rpm: u32)
        requires
            old(self).wf(),
            old(self).stage is Listening,
        ensures
            final(self).wf(),
            final(self).classified == old(self).classified,
            final(self)@ == old(self)@.after_listening(rpm > 0),
    {
        proof {
            law_listening_keeps(self@, rpm > 0);
        }
        let ghost before = self@;
        let at: usize = self.at;
        match self.stage {
            Stage::Listening(s, actual) => {
                let mut t = s;
                t.report(actual, rpm);
                match t.phase {
                    StallPhase::Done => {
                        let n: usize = self.stalls.len();
                        let ghost stalls = self.stalls@;
                        let ghost names = before.names;
                        for i in 0..n
                            invariant
                                n == self.stalls@.len(),
                                n == stalls.len(),
                                n == self.classified@.len(),
                                at < n,
                                *self == (Course { stalls: self.stalls, ..*old(self) }),
                                names == old(self)@.names,
                                self.stalls@ == with_stall(names, stalls, at as int, t.stall).take(
                                    i as int,
                                ) + stalls.skip(i as int),
                        {
                            if text::same(
                                self.classified[i].name.as_str(),
                                self.classified[at].name.as_str(),
                            ) {
                                self.stalls.set(i, t.stall);
                            }
                            assert(self.stalls@ =~= with_stall(
                                names,
                                stalls,
                                at as int,
                                t.stall,
                            ).take(i + 1) + stalls.skip(i + 1));
                        }
                        assert(self.stalls@ =~= with_stall(names, stalls, at as int, t.stall));
                        self.stage = Stage::Stilling;
                    },
                    _ => {
                        self.stage = Stage::Searching(t);
                    },
                }
            },
            _ => {},
        }
        assert(self@ =~= before.after_listening(rpm > 0));
    }

    /// Goes on after the sums of the temperatures were sampled.
    pub fn sampled(&mut self, sums: Vec<i128>)
        requires
            old(self).wf(),
            old(self)@.next() is Measure,
        ensures
            final(self).wf(),
            final(self).classified == old(self).classified,
            final(self)@ == old(self)@.after_measuring(sums@),
    {
        proof {
            law_measuring_keeps(self@, sums@);
        }
        let ghost before = self@;
        match self.stage {
            Stage::Baseline => {
                self.baseline = sums;
                self.at = first(&self.controllable, 0);
                self.stage = Stage::Searching(StallSearch::new());
            },
            Stage::Reading(k) => {
                let levels = effective_levels(self.stalls[self.at]);
                self.readings.push((levels[k], sums));
                self.stage = if k + 1 < levels.len() {
                    Stage::Raising(k + 1)
                } else {
                    Stage::Resting
                };
                assert(reading_views(self.readings@) =~= before.readings.push(
                    (levels@[k as int], sums@),
                ));
            },
            _ => {},
        }
        assert(self@ =~= before.after_measuring(sums@));
    }
}

// ---- What the course promises ----

/// While a fan is measured at a level, it was last asked to run at that level and
/// every other fan that can be driven at the midpoint.
pub proof fn law_measured_alone(c: CourseView, k: usize, other: int)
    requires
        c.wf(),
        c.stage == Stage::Reading(k),
    ensures
        c.standing[c.at] == levels_of(c.stalls[c.at])[k as int],
        0 <= other < c.total() && other != c.at && c.controllable[other] ==> c.standing[other]
            == MIDPOINT,
{
}

/// A complete benchmark has measured exactly the fans that can be driven and follow
/// no other, in their order, each at all the levels above its stall threshold.
pub proof fn law_complete(c: CourseView)
    requires
        c.wf(),
        c.stage is Done,
    ensures
        ({
            let fans = marked_below(c.swept(), c.total());
            &&& c.measured.len() == fans.len()
            &&& forall|m: int|
                0 <= m < fans.len() ==> {
                    let x = #[trigger] c.measured[m];
                    &&& x.name == c.names[fans[m]]
                    &&& x.stall == c.stalls[fans[m]]
                    &&& at_levels(x.readings, x.stall, levels_of(x.stall).len() as int)
                }
        }),
{
}

/// A fan that does not let itself be driven is not driven.
pub proof fn law_only_controllable_are_driven(c: CourseView, fan: usize, pwm: u8)
    requires
        c.wf(),
        c.total() <= usize::MAX,
        c.next() == Action::Drive(fan, pwm),
    ensures
        fan < c.total(),
        c.controllable[fan as int],
{
}

// ---- How it goes on ----

/// The marked places are those that are marked, all of them in their order.
pub proof fn law_marked(marks: Seq<bool>, n: int)
    requires
        0 <= n <= marks.len(),
    ensures
        marked_below(marks, n) == Seq::new(n as nat, |i: int| i).filter(|i: int| marks[i]),
    decreases n,
{
    reveal(Seq::filter);
    let all = Seq::new(n as nat, |i: int| i);
    if n > 0 {
        law_marked(marks, n - 1);
        assert(all.drop_last() =~= Seq::new((n - 1) as nat, |i: int| i));
        assert(all.last() == n - 1);
    }
}

/// A complete benchmark has measured the fans that let themselves be driven and follow
/// no other, each once, in their order.
pub proof fn law_complete_in_order(c: CourseView)
    requires
        c.wf(),
        c.stage is Done,
    ensures
        c.measured.map_values(|x: MeasuredView| x.name) == Seq::new(
            c.names.len(),
            |i: int| i,
        ).filter(|i: int| c.controllable[i] && !c.follower[i]).map_values(|i: int| c.names[i]),
{
    let marks = c.swept();
    let n = c.total();
    law_marked(marks, n);
    let all = Seq::new(c.names.len(), |i: int| i);
    lemma_same_marks(
        all,
        |i: int| marks[i],
        |i: int| c.controllable[i] && !c.follower[i],
        n,
    );
    let fans = marked_below(marks, n);
    assert(c.measured.map_values(|x: MeasuredView| x.name) =~= fans.map_values(
        |i: int| c.names[i],
    )) by {
        assert forall|m: int| 0 <= m < fans.len() implies (#[trigger] c.measured[m]).name
            == c.names[fans[m]] by {}
    }
}

proof fn lemma_same_marks(s: Seq<int>, p: spec_fn(int) -> bool, q: spec_fn(int) -> bool, n: int)
    requires
        forall|i: int| 0 <= i < n ==> #[trigger] p(i) == q(i),
        forall|k: int| 0 <= k < s.len() ==> 0 <= #[trigger] s[k] < n,
    ensures
        s.filter(p) == s.filter(q),
    decreases s.len(),
{
    reveal(Seq::filter);
    if s.len() > 0 {
        let rest = s.drop_last();
        assert forall|k: int| 0 <= k < rest.len() implies 0 <= #[trigger] rest[k] < n by {
            assert(0 <= s[k] < n);
        }
        lemma_same_marks(rest, p, q, n);
        assert(0 <= s[s.len() - 1] < n);
        assert(p(s.last()) == q(s.last()));
    }
}

/// What is done at each stage. Fans are stopped with nought, and set aside at 128; a
/// fan is listened to after three seconds at first and after two from then on.
pub proof fn law_next(c: CourseView)
    requires
        c.wf(),
        c.total() <= usize::MAX,
    ensures
        match (c.stage, c.next()) {
            (Stage::Taking, Action::Take(f)) => f == c.at,
            (Stage::Clearing | Stage::Stilling, Action::Drive(f, p)) => f == c.at && p == 0,
            (Stage::Isolating(o), Action::Drive(f, p)) => f == o && p == 128,
            (Stage::Resting, Action::Drive(f, p)) => f == c.at && p == 128,
            (Stage::Searching(s), Action::Drive(f, p)) => f == c.at && p == asked(s),
            (Stage::Raising(k), Action::Drive(f, p)) => f == c.at && p == levels_of(
                c.stalls[c.at],
            )[k as int],
            (Stage::Listening(s, _), Action::Listen(f, secs)) => {
                &&& f == c.at
                &&& secs == 3 <==> s.phase is Start
                &&& secs == 2 <==> !(s.phase is Start)
            },
            (Stage::Baseline | Stage::Reading(_), Action::Measure) => true,
            (Stage::Done, Action::Finish) => true,
            (Stage::Failed, Action::Fail) => true,
            _ => false,
        },
{
}

/// After the last fan was taken the benchmark fails exactly where none lets itself be
/// driven; else the first that does is cleared first.
pub proof fn law_all_taken(c: CourseView, driven: bool)
    requires
        c.wf(),
        c.stage is Taking,
        c.at + 1 == c.total(),
    ensures
        ({
            let d = c.after_taking(driven);
            let marks = c.controllable.push(driven);
            &&& d.controllable == marks
            &&& d.stage is Failed <==> forall|i: int| 0 <= i < c.total() ==> !#[trigger] marks[i]
            &&& d.stage is Failed || d.stage is Clearing
            &&& d.stage is Clearing ==> {
                &&& 0 <= d.at < c.total()
                &&& marks[d.at]
                &&& forall|i: int| 0 <= i < d.at ==> !#[trigger] marks[i]
            }
        }),
{
    let marks = c.controllable.push(driven);
    lemma_first_from(marks, 0);
    lemma_none_marked(marks, c.total());
    if c.after_taking(driven).stage is Clearing {
        let i = choose|i: int| 0 <= i < c.total() && #[trigger] marks[i];
        if first_from(marks, 0) >= marks.len() {
            assert(!marks[i]);
        }
    }
}

/// Taking one fan notes whether it let itself be driven, and goes on with the next.
pub proof fn law_taken(c: CourseView, driven: bool)
    requires
        c.wf(),
        c.stage is Taking,
        c.at + 1 < c.total(),
    ensures
        c.after_taking(driven) == (CourseView {
            controllable: c.controllable.push(driven),
            at: c.at + 1,
            ..c
        }),
{
}

/// Fans are cleared, and searched for their thresholds, one after another: after a fan
/// has been stopped comes the next that can be driven, none being passed over. After
/// the last one the machine is measured without cooling, or the sweeps begin.
pub proof fn law_one_after_another(c: CourseView, actual: u8)
    requires
        c.wf(),
        c.stage is Clearing || c.stage is Stilling,
    ensures
        ({
            let d = c.after_setting(actual);
            let last = forall|k: int| c.at < k < c.total() ==> !#[trigger] c.controllable[k];
            &&& d.standing == c.standing.update(c.at, 0)
            &&& d.controllable == c.controllable && d.stalls == c.stalls && d.baseline
                == c.baseline && d.measured == c.measured && d.names == c.names
            &&& c.stage is Clearing && last ==> d.stage is Baseline
            &&& c.stage is Clearing && !last ==> d.stage is Clearing
            &&& c.stage is Stilling && last ==> d.stage is Isolating || d.stage is Raising
                || d.stage is Done
            &&& c.stage is Stilling && !last ==> d.stage == Stage::Searching(first_search())
            &&& !last ==> {
                &&& c.at < d.at < c.total()
                &&& c.controllable[d.at]
                &&& forall|k: int| c.at < k < d.at ==> !#[trigger] c.controllable[k]
            }
        }),
{
    lemma_first_from(c.controllable, c.at + 1);
    let next = first_from(c.controllable, c.at + 1);
    if next < c.total() {
        assert(c.controllable[next]);
    }
}

/// Without cooling, the sums are kept as the baseline, and the first fan that can be
/// driven is searched first.
pub proof fn law_baseline_kept(c: CourseView, sums: Seq<i128>)
    requires
        c.wf(),
        c.stage is Baseline,
    ensures
        ({
            let d = c.after_measuring(sums);
            &&& d.baseline == sums
            &&& d.stage == Stage::Searching(first_search())
            &&& 0 <= d.at < c.total() && c.controllable[d.at]
            &&& forall|k: int| 0 <= k < d.at ==> !#[trigger] c.controllable[k]
            &&& d.readings == c.readings && d.measured == c.measured && d.stalls == c.stalls
        }),
{
    lemma_first_from(c.controllable, 0);
}

/// The sums at a level are kept with that level, behind those of the levels before;
/// then comes the next level, and the fan rests after the last.
pub proof fn law_reading_kept(c: CourseView, k: usize, sums: Seq<i128>)
    requires
        c.wf(),
        c.stage == Stage::Reading(k),
    ensures
        ({
            let d = c.after_measuring(sums);
            let levels = levels_of(c.stalls[c.at]);
            &&& d.readings.len() == k + 1
            &&& d.readings[k as int] == (c.standing[c.at], sums)
            &&& forall|j: int| 0 <= j < k ==> #[trigger] d.readings[j] == c.readings[j]
            &&& k + 1 == levels.len() ==> d.stage is Resting
            &&& k + 1 < levels.len() ==> (d.stage matches Stage::Raising(n) && n == k + 1)
            &&& d.at == c.at && d.stalls == c.stalls && d.standing == c.standing && d.measured
                == c.measured && d.baseline == c.baseline
        }),
{
}

/// A threshold that is found holds for every entry of the fan's name and changes no
/// other; until then the search goes on with what was heard.
pub proof fn law_threshold_kept(c: CourseView, s: StallSearch, actual: u8, turns: bool, i: int)
    requires
        c.wf(),
        c.stage == Stage::Listening(s, actual),
        0 <= i < c.total(),
    ensures
        ({
            let d = c.after_listening(turns);
            let t = s.after(actual, turns);
            &&& d.at == c.at && d.standing == c.standing && d.readings == c.readings && d.measured
                == c.measured && d.baseline == c.baseline && d.controllable == c.controllable
            &&& t.phase is Done ==> {
                &&& d.stage is Stilling
                &&& d.stalls[i] == if c.names[i] == c.names[c.at] {
                    t.stall
                } else {
                    c.stalls[i]
                }
            }
            &&& !(t.phase is Done) ==> d.stage == Stage::Searching(t) && d.stalls == c.stalls
        }),
{
}

/// The sweeps come in the order of the fans: after a rest, and after the last search,
/// comes the next fan that is swept, none being passed over, with nothing read yet;
/// and after the last, the end.
pub proof fn law_sweeps_in_order(c: CourseView, actual: u8)
    requires
        c.wf(),
        c.stage is Resting,
        c.total() <= usize::MAX,
    ensures
        ({
            let d = c.after_setting(actual);
            let swept = |i: int| c.controllable[i] && !c.follower[i];
            &&& c.at < d.at <= c.total()
            &&& forall|k: int| c.at < k < d.at ==> !(#[trigger] c.controllable[k] && !c.follower[k])
            &&& d.at < c.total() ==> swept(d.at)
            &&& d.stage is Done <==> d.at == c.total()
            &&& d.readings.len() == 0
            &&& d.measured.len() == c.measured.len() + 1
            &&& d.measured.last().name == c.names[c.at]
            &&& d.measured.last().stall == c.stalls[c.at]
            &&& d.measured.last().readings == c.readings
            &&& forall|m: int| 0 <= m < c.measured.len() ==> #[trigger] d.measured[m]
                == c.measured[m]
            &&& d.standing == c.standing.update(c.at, 128)
        }),
{
    let rested = CourseView {
        standing: c.standing.update(c.at, MIDPOINT),
        measured: c.measured.push(
            MeasuredView {
                name: c.names[c.at],
                stall: c.stalls[c.at],
                readings: c.readings,
            },
        ),
        ..c
    };
    assert(rested.swept() =~= c.swept());
    lemma_first_from(c.swept(), c.at + 1);
    let d = c.after_setting(actual);
    assert forall|k: int| c.at < k < d.at implies !(#[trigger] c.controllable[k]
        && !c.follower[k]) by {
        assert(!c.swept()[k]);
    }
}

/// Two courses with the same view agree in all that steers them and all that they have
/// found.
pub proof fn law_views_tell_apart(a: Course, b: Course, i: int, j: int)
    requires
        a@ == b@,
    ensures
        a.classified@.len() == b.classified@.len(),
        0 <= i < a.classified@.len() ==> a.classified@[i].name@ == b.classified@[i].name@
            && a.classified@[i].role@ is CaseFollower == b.classified@[i].role@ is CaseFollower,
        a.controllable@ == b.controllable@,
        a.standing@ == b.standing@,
        a.stalls@ == b.stalls@,
        a.at == b.at,
        a.stage == b.stage,
        a.baseline@ == b.baseline@,
        a.readings@.len() == b.readings@.len(),
        0 <= i < a.readings@.len() ==> a.readings@[i].0 == b.readings@[i].0 && a.readings@[i].1@
            == b.readings@[i].1@,
        a.measured@.len() == b.measured@.len(),
        0 <= i < a.measured@.len() ==> {
            let (m, n) = (a.measured@[i], b.measured@[i]);
            &&& m.fan_name@ == n.fan_name@
            &&& m.stall_pwm == n.stall_pwm
            &&& m.readings@.len() == n.readings@.len()
            &&& 0 <= j < m.readings@.len() ==> m.readings@[j].0 == n.readings@[j].0
                && m.readings@[j].1@ == n.readings@[j].1@
        },
        a.failure is Some == b.failure is Some,
        a.failure matches Some(m) ==> b.failure->Some_0@ == m@,
{
    assert(a@.names.len() == a.classified@.len());
    assert(b@.names.len() == b.classified@.len());
    if 0 <= i < a.classified@.len() {
        assert(a@.names[i] == b@.names[i]);
        assert(a@.follower[i] == follows(a.classified@[i]));
        assert(b@.follower[i] == follows(b.classified@[i]));
        assert(a@.follower == b@.follower);
    }
    assert(a@.readings.len() == a.readings@.len());
    assert(b@.readings.len() == b.readings@.len());
    if 0 <= i < a.readings@.len() {
        assert(a@.readings[i] == b@.readings[i]);
    }
    assert(a@.measured.len() == a.measured@.len());
    assert(b@.measured.len() == b.measured@.len());
    if 0 <= i < a.measured@.len() {
        let (m, n) = (a@.measured[i], b@.measured[i]);
        assert(m == n);
        assert(m.readings.len() == a.measured@[i].readings@.len());
        assert(n.readings.len() == b.measured@[i].readings@.len());
        if 0 <= j < m.readings.len() {
            assert(m.readings[j] == n.readings[j]);
        }
    }
}

} // verus!
