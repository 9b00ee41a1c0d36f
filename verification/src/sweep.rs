//! Sweeping fans through their PWM range: the levels, when a reading counts, and
//! the couplings that the readings give.
use crate::benchmark::{ClassifiedFan, FanRole, RoleView, POLL_MS};
use crate::regression::{as_points, denominator, moments, numerator, spread_y};
use crate::scalar::Scalar;
use crate::text;
use crate::wide::{Big, Wide};
use vstd::prelude::*;

verus! {

/// The bit pattern of 0.15: temperatures have settled once the fast and the slow
/// average are closer than this.
pub const CONVERGED: u64 = 0x3fc3_3333_3333_3333;

/// Seconds that are always waited for temperatures to settle.
pub const MIN_SETTLE_SECS: u64 = 5;

/// Seconds after which temperatures are taken as they are.
pub const MAX_SETTLE_SECS: u64 = 20;

/// The PWM value that the search for the stall threshold starts at.
pub const STALL_CEILING: u8 = 80;

// ---- Waiting and sampling ----

/// Whether the wait for settled temperatures is over, `elapsed` seconds into it
/// and with the given largest difference between the two averages.
pub fn has_settled(elapsed: u64, difference: Scalar) -> (r: bool)
    ensures
        r == (elapsed >= MAX_SETTLE_SECS || (elapsed >= MIN_SETTLE_SECS && difference.below(
            Scalar { bits: CONVERGED },
        ))),
{
    elapsed >= MAX_SETTLE_SECS || (elapsed >= MIN_SETTLE_SECS && difference.lt(
        Scalar { bits: CONVERGED },
    ))
}

/// How many samples are taken in the given time.
pub fn sample_count(duration_secs: u64) -> (r: u64)
    requires
        duration_secs * 1000 <= u64::MAX,
    ensures
        r == duration_secs * 1000 / POLL_MS as int,
{
    duration_secs * 1000 / POLL_MS
}

/// Temperatures summed up, sensor by sensor.
#[derive(Debug)]
pub struct Samples {
    pub sums: Vec<i128>,
    pub rounds: u32,
}

/// The temperature that was read; 0 where none was.
pub open spec fn read_or_zero(t: Option<i64>) -> int {
    match t {
        Some(t) => t as int,
        None => 0,
    }
}

impl Samples {
    pub open spec fn wf(self) -> bool {
        forall|i: int|
            0 <= i < self.sums@.len() ==> -(self.rounds * 0x8000_0000_0000_0000) <= (
            #[trigger] self.sums@[i]) <= self.rounds * 0x8000_0000_0000_0000
    }

    /// Nothing sampled yet, of so many sensors.
    pub fn new(sensors: usize) -> (r: Self)
        ensures
            r.wf(),
            r.rounds == 0,
            r.sums@ == Seq::new(sensors as nat, |i: int| 0i128),
    {
        let mut sums: Vec<i128> = Vec::new();
        for i in 0..sensors
            invariant
                sums@ == Seq::new(i as nat, |k: int| 0i128),
        {
            sums.push(0);
            assert(sums@ =~= Seq::new((i + 1) as nat, |k: int| 0i128));
        }
        Samples { sums, rounds: 0 }
    }

    /// Adds one round of readings; a sensor that could not be read adds nothing.
    pub fn take(&mut self, readings: &Vec<Option<i64>>)
        requires
            old(self).wf(),
            old(self).rounds < u32::MAX,
            readings@.len() == old(self).sums@.len(),
        ensures
            final(self).wf(),
            final(self).rounds == old(self).rounds + 1,
            final(self).sums@.len() == old(self).sums@.len(),
            forall|i: int|
                0 <= i < final(self).sums@.len() ==> #[trigger] final(self).sums@[i] == old(
                    self,
                ).sums@[i] + read_or_zero(readings@[i]),
    {
        let n: usize = self.sums.len();
        let ghost before = self.sums@;
        for i in 0..n
            invariant
                n == before.len(),
                n == self.sums@.len(),
                n == readings@.len(),
                before == old(self).sums@,
                old(self).wf(),
                self.rounds == old(self).rounds,
                self.rounds < u32::MAX,
                forall|k: int|
                    0 <= k < i ==> #[trigger] self.sums@[k] == before[k] + read_or_zero(
                        readings@[k],
                    ),
                forall|k: int| i <= k < n ==> #[trigger] self.sums@[k] == before[k],
        {
            if let Some(t) = readings[i] {
                assert(old(self).sums@[i as int] == before[i as int]);
                let sum: i128 = self.sums[i];
                self.sums[i] = sum + t as i128;
            }
        }
        self.rounds = self.rounds + 1;
        assert forall|i: int| 0 <= i < self.sums@.len() implies -(self.rounds
            * 0x8000_0000_0000_0000) <= (#[trigger] self.sums@[i]) <= self.rounds
            * 0x8000_0000_0000_0000 by {
            assert(old(self).sums@[i] == before[i]);
        }
    }
}

// ---- Stall threshold ----

/// Where a search for the stall threshold stands.
#[derive(Debug, Clone, Copy, PartialEq, Eq, Structural)]
pub enum StallPhase {
    /// The ceiling is to be tried.
    Start,
    /// The middle between the bounds is to be tried.
    Searching,
    Done,
}

/// Finds the lowest PWM value at which a fan turns, by bisection.
#[derive(Debug, Clone, Copy, PartialEq, Eq, Structural)]
pub struct StallSearch {
    pub lo: u8,
    pub hi: u8,
    pub stall: u8,
    pub phase: StallPhase,
}

impl StallSearch {
    pub open spec fn wf(self) -> bool {
        &&& self.phase is Searching ==> self.lo < self.hi <= STALL_CEILING
        &&& self.phase is Start ==> self.lo == 0 && self.hi == STALL_CEILING && self.stall == 0
    }

    pub open spec fn middle(self) -> int {
        self.lo + (self.hi - self.lo) / 2
    }

    /// The search after the fan, asked to run at the value that was due, ran at
    /// `actual` and turned or did not.
    pub open spec fn after(self, actual: u8, turns: bool) -> StallSearch {
        match self.phase {
            StallPhase::Start => if !turns {
                StallSearch { phase: StallPhase::Done, ..self }
            } else {
                let lo = if actual > STALL_CEILING {
                    (actual - STALL_CEILING) as u8
                } else {
                    0
                };
                StallSearch {
                    lo,
                    stall: actual,
                    phase: if lo < self.hi {
                        StallPhase::Searching
                    } else {
                        StallPhase::Done
                    },
                    ..self
                }
            },
            StallPhase::Searching => {
                let next = if turns {
                    StallSearch { stall: actual, hi: self.middle() as u8, ..self }
                } else {
                    StallSearch { lo: (self.middle() + 1) as u8, ..self }
                };
                StallSearch {
                    phase: if next.hi - next.lo <= 3 {
                        StallPhase::Done
                    } else {
                        StallPhase::Searching
                    },
                    ..next
                }
            },
            StallPhase::Done => self,
        }
    }

    pub fn new() -> (r: Self)
        ensures
            r.wf(),
            r == (StallSearch {
                lo: 0,
                hi: STALL_CEILING,
                stall: 0,
                phase: StallPhase::Start,
            }),
    {
        StallSearch { lo: 0, hi: STALL_CEILING, stall: 0, phase: StallPhase::Start }
    }

    /// The PWM value to be tried next; none once the search is over.
    pub fn next(&self) -> (r: Option<u8>)
        requires
            self.wf(),
        ensures
            match self.phase {
                StallPhase::Start => r == Some(STALL_CEILING),
                StallPhase::Searching => r matches Some(p) && p == self.middle(),
                StallPhase::Done => r is None,
            },
    {
        match self.phase {
            StallPhase::Start => Some(STALL_CEILING),
            StallPhase::Searching => Some(self.lo + (self.hi - self.lo) / 2),
            StallPhase::Done => None,
        }
    }

    /// Goes on after the fan ran at `actual` with the given speed.
    pub fn report(&mut self, actual: u8, rpm: u32)
        requires
            old(self).wf(),
        ensures
            final(self).wf(),
            *final(self) == old(self).after(actual, rpm > 0),
    {
        match self.phase {
            StallPhase::Start => {
                if rpm == 0 {
                    self.phase = StallPhase::Done;
                } else {
                    self.stall = actual;
                    self.lo = if actual > STALL_CEILING {
                        actual - STALL_CEILING
                    } else {
                        0
                    };
                    self.phase = if self.lo < self.hi {
                        StallPhase::Searching
                    } else {
                        StallPhase::Done
                    };
                }
            },
            StallPhase::Searching => {
                let middle: u8 = self.lo + (self.hi - self.lo) / 2;
                if rpm > 0 {
                    self.stall = actual;
                    self.hi = middle;
                } else {
                    self.lo = middle + 1;
                }
                if self.hi - self.lo <= 3 {
                    self.phase = StallPhase::Done;
                }
            },
            StallPhase::Done => {},
        }
    }
}

/// Every step of the search narrows it: it ends, and what it ends with is either
/// what it had or a value at which the fan was seen to turn.
pub proof fn law_stall_search_narrows(s: StallSearch, actual: u8, turns: bool)
    requires
        s.wf(),
        s.phase is Searching,
    ensures
        ({
            let t = s.after(actual, turns);
            &&& t.hi - t.lo < s.hi - s.lo
            &&& t.phase is Searching || t.phase is Done
            &&& t.stall == s.stall || (turns && t.stall == actual)
        }),
{
}

/// The search that each fan's begins with.
pub open spec fn first_search() -> StallSearch {
    StallSearch { lo: 0, hi: STALL_CEILING, stall: 0, phase: StallPhase::Start }
}

/// What the search asks for next.
pub open spec fn asked(s: StallSearch) -> u8 {
    if s.phase is Start {
        STALL_CEILING
    } else {
        s.middle() as u8
    }
}

/// Whether a search goes through `states` from its beginning: in the `k`-th step
/// the fan ran at `actual[k]` and turned or did not.
pub open spec fn is_search(states: Seq<StallSearch>, actual: Seq<u8>, turned: Seq<bool>) -> bool {
    &&& states.len() == actual.len() + 1
    &&& turned.len() == actual.len()
    &&& states[0] == first_search()
    &&& forall|k: int|
        0 <= k < actual.len() ==> !((#[trigger] states[k]).phase is Done) && states[k + 1]
            == states[k].after(actual[k], turned[k])
}

proof fn lemma_stall_seen(states: Seq<StallSearch>, actual: Seq<u8>, turned: Seq<bool>, i: int)
    requires
        is_search(states, actual, turned),
        1 <= i < states.len(),
        turned[0],
    ensures
        states[i].wf(),
        exists|k: int| 0 <= k < i && #[trigger] turned[k] && actual[k] == states[i].stall,
    decreases i,
{
    assert(states[i - 1].phase !is Done);
    if i > 1 {
        lemma_stall_seen(states, actual, turned, i - 1);
        let k = choose|k: int|
            0 <= k < i - 1 && #[trigger] turned[k] && actual[k] == states[i - 1].stall;
        assert(states[i - 1].phase is Searching) by {
            lemma_past_start(states, actual, turned, i - 1);
        }
        assert(turned[i - 1] ==> actual[i - 1] == states[i].stall);
        assert(!turned[i - 1] ==> states[i].stall == states[i - 1].stall);
    } else {
        assert(states[0].phase is Start);
        assert(actual[0] == states[1].stall);
    }
}

proof fn lemma_past_start(states: Seq<StallSearch>, actual: Seq<u8>, turned: Seq<bool>, i: int)
    requires
        is_search(states, actual, turned),
        1 <= i < states.len(),
    ensures
        !(states[i].phase is Start),
    decreases i,
{
    assert(!(states[i - 1].phase is Done));
    if i > 1 {
        lemma_past_start(states, actual, turned, i - 1);
    }
}

/// Where the fan turned at the ceiling, the threshold is, after every step, a value
/// at which the fan ran and was seen to turn.
pub proof fn law_stall_was_seen_to_turn(
    states: Seq<StallSearch>,
    actual: Seq<u8>,
    turned: Seq<bool>,
)
    requires
        is_search(states, actual, turned),
        actual.len() > 0,
        turned[0],
    ensures
        exists|k: int| 0 <= k < actual.len() && #[trigger] turned[k] && actual[k]
            == states.last().stall,
{
    lemma_stall_seen(states, actual, turned, actual.len() as int);
}

proof fn lemma_stall_brackets(
    states: Seq<StallSearch>,
    actual: Seq<u8>,
    turned: Seq<bool>,
    least: u8,
    i: int,
)
    requires
        is_search(states, actual, turned),
        1 <= i < states.len(),
        least <= STALL_CEILING,
        forall|k: int|
            0 <= k < actual.len() ==> #[trigger] actual[k] == asked(states[k]) && turned[k] == (
            actual[k] >= least),
    ensures
        states[i].wf(),
        states[i].lo <= least <= states[i].hi,
        states[i].stall == states[i].hi,
        states[i].phase is Done ==> states[i].hi - states[i].lo <= 3,
    decreases i,
{
    assert(!(states[i - 1].phase is Done));
    assert(actual[i - 1] == asked(states[i - 1]));
    if i > 1 {
        lemma_stall_brackets(states, actual, turned, least, i - 1);
        lemma_past_start(states, actual, turned, i - 1);
    }
}

/// Where the driver takes every value and the fan turns from `least` on, no later
/// than at the ceiling, the search ends at most 3 above `least`, and never below.
pub proof fn law_stall_is_close(
    states: Seq<StallSearch>,
    actual: Seq<u8>,
    turned: Seq<bool>,
    least: u8,
)
    requires
        is_search(states, actual, turned),
        actual.len() > 0,
        states.last().phase is Done,
        least <= STALL_CEILING,
        forall|k: int|
            0 <= k < actual.len() ==> #[trigger] actual[k] == asked(states[k]) && turned[k] == (
            actual[k] >= least),
    ensures
        least <= states.last().stall <= least + 3,
{
    lemma_stall_brackets(states, actual, turned, least, actual.len() as int);
}

// ---- Levels ----

/// The levels of a sweep that lie above the stall threshold.
pub open spec fn levels_above(stall: u8) -> Seq<u8> {
    let all: Seq<u8> = seq![40u8, 100u8, 180u8, 255u8];
    all.skip(
        if stall < 40 {
            0
        } else if stall < 100 {
            1
        } else if stall < 180 {
            2
        } else if stall < 255 {
            3
        } else {
            4
        },
    )
}

/// The levels at which a fan is measured: its stall threshold, or 1 where it has
/// none, and the levels of a sweep above it.
pub open spec fn levels_of(stall: u8) -> Seq<u8> {
    seq![
        if stall > 1 {
            stall
        } else {
            1
        },
    ] + levels_above(stall)
}

/// The levels at which a fan is measured.
pub fn effective_levels(stall: u8) -> (r: Vec<u8>)
    ensures
        r@ == levels_of(stall),
{
    let mut r: Vec<u8> = Vec::new();
    r.push(
        if stall > 1 {
            stall
        } else {
            1
        },
    );
    if stall < 40 {
        r.push(40);
    }
    if stall < 100 {
        r.push(100);
    }
    if stall < 180 {
        r.push(180);
    }
    if stall < 255 {
        r.push(255);
    }
    assert(r@ =~= levels_of(stall));
    r
}

/// The levels rise strictly, begin at the stall threshold or 1, and reach full
/// speed.
pub proof fn law_levels_rise(stall: u8)
    ensures
        forall|i: int, j: int|
            0 <= i < j < levels_of(stall).len() ==> #[trigger] levels_of(stall)[i]
                < #[trigger] levels_of(stall)[j],
        levels_of(stall).last() == 255,
{
}

// ---- Who is swept ----

/// Whether the fan follows another one.
pub open spec fn follows(c: ClassifiedFan) -> bool {
    c.role@ is CaseFollower
}

/// How many of the first `n` fans are swept.
pub open spec fn active_count(classified: Seq<ClassifiedFan>, n: int) -> int
    decreases n,
{
    if n <= 0 {
        0
    } else if follows(classified[n - 1]) {
        active_count(classified, n - 1)
    } else {
        active_count(classified, n - 1) + 1
    }
}

fn is_follower(c: &ClassifiedFan) -> (r: bool)
    ensures
        r == follows(*c),
{
    match c.role {
        FanRole::CaseFollower { .. } => true,
        _ => false,
    }
}

/// How many fans are swept: all but the followers.
pub fn count_active(classified: &Vec<ClassifiedFan>) -> (r: usize)
    ensures
        r == active_count(classified@, classified@.len() as int),
{
    let mut n: usize = 0;
    for i in 0..classified.len()
        invariant
            n == active_count(classified@, i as int),
            n <= i,
    {
        if !is_follower(&classified[i]) {
            n = n + 1;
        }
    }
    n
}

/// Whether a fan is swept: it can be driven and follows no other.
pub fn is_swept(fan: &ClassifiedFan, controllable: bool) -> (r: bool)
    ensures
        r == (controllable && !follows(*fan)),
{
    controllable && !is_follower(fan)
}

/// How long the benchmark takes, in seconds, roughly.
pub fn estimated_secs(active: usize) -> (r: u128)
    ensures
        r == 30 + active * 4 * 12,
{
    30 + active as u128 * 4 * 12
}

/// Whether any fan can be driven.
pub fn check_controllable(controllable: &Vec<bool>) -> (r: Result<usize, String>)
    ensures
        match r {
            Ok(n) => n > 0 && n == count_true(controllable@, controllable@.len() as int),
            Err(m) => count_true(controllable@, controllable@.len() as int) == 0 && m@
                == "no fans are controllable \u{2014} cannot benchmark"@,
        },
{
    let mut n: usize = 0;
    for i in 0..controllable.len()
        invariant
            n == count_true(controllable@, i as int),
            n <= i,
    {
        if controllable[i] {
            n = n + 1;
        }
    }
    if n == 0 {
        return Err("no fans are controllable \u{2014} cannot benchmark".to_owned());
    }
    Ok(n)
}

/// How many of the first `n` are true.
pub open spec fn count_true(v: Seq<bool>, n: int) -> int
    decreases n,
{
    if n <= 0 {
        0
    } else if v[n - 1] {
        count_true(v, n - 1) + 1
    } else {
        count_true(v, n - 1)
    }
}

// ---- Couplings ----

/// What was measured of one fan: at each level, for each sensor, the sum of the
/// sampled temperatures in thousandths of a degree.
#[derive(Debug)]
pub struct FanMeasurement {
    pub fan_name: String,
    pub stall_pwm: u8,
    pub readings: Vec<(u8, Vec<i128>)>,
}

/// How a sensor's temperature follows a fan, as measured: the slope `num / den` of
/// the least-squares line in units of the summed temperatures per unit of PWM, the
/// variance of the summed temperatures times the square of the number of
/// readings, and that number.
#[derive(Debug)]
pub struct Coupling {
    pub fan: String,
    pub sensor: String,
    pub num: Big,
    pub den: Big,
    pub spread: Big,
    pub readings: usize,
}

/// A coupling by its texts.
pub ghost struct CouplingView {
    pub fan: Seq<char>,
    pub sensor: Seq<char>,
    pub num: int,
    pub den: int,
    pub spread: int,
    pub readings: usize,
}

impl View for Coupling {
    type V = CouplingView;

    open spec fn view(&self) -> CouplingView {
        CouplingView {
            fan: self.fan@,
            sensor: self.sensor@,
            num: self.num.value(),
            den: self.den.value(),
            spread: self.spread.value(),
            readings: self.readings,
        }
    }
}

pub open spec fn coupling_views(s: Seq<Coupling>) -> Seq<CouplingView> {
    s.map_values(|c: Coupling| c@)
}

/// The readings of one sensor as points: PWM value and summed temperature.
pub open spec fn points(readings: Seq<(u8, Vec<i128>)>, sensor: int) -> Seq<(int, int)> {
    readings.map_values(|r: (u8, Vec<i128>)| (r.0 as int, r.1@[sensor] as int))
}

/// Whether the temperature varies by less than 0.01 square degrees, where each
/// sum is one of `samples` temperatures.
pub open spec fn too_flat(p: Seq<(int, int)>, samples: u32) -> bool {
    spread_y(p) < (samples * samples) * 10000 * (p.len() * p.len())
}

/// What the readings of one sensor say: nothing where there are fewer than two of
/// them, or the temperature hardly varies.
pub open spec fn measured(
    fan: Seq<char>,
    sensor: Seq<char>,
    p: Seq<(int, int)>,
    samples: u32,
) -> Option<CouplingView> {
    if p.len() < 2 || too_flat(p, samples) {
        None
    } else {
        Some(
            CouplingView {
                fan,
                sensor,
                num: if denominator(p) == 0 {
                    0
                } else {
                    numerator(p)
                },
                den: if denominator(p) == 0 {
                    1
                } else {
                    denominator(p)
                },
                spread: spread_y(p),
                readings: p.len() as usize,
            },
        )
    }
}

/// What was measured of a fan for the first `n` sensors.
pub open spec fn fan_couplings(
    m: FanMeasurement,
    names: Seq<String>,
    samples: u32,
    n: int,
) -> Seq<CouplingView>
    decreases n,
{
    if n <= 0 {
        Seq::empty()
    } else {
        let rest = fan_couplings(m, names, samples, n - 1);
        match measured(m.fan_name@, names[n - 1]@, points(m.readings@, n - 1), samples) {
            Some(c) => rest.push(c),
            None => rest,
        }
    }
}

/// What was measured of the first `n` fans.
pub open spec fn direct_couplings(
    measurements: Seq<FanMeasurement>,
    names: Seq<String>,
    samples: u32,
    n: int,
) -> Seq<CouplingView>
    decreases n,
{
    if n <= 0 {
        Seq::empty()
    } else {
        direct_couplings(measurements, names, samples, n - 1) + fan_couplings(
            measurements[n - 1],
            names,
            samples,
            names.len() as int,
        )
    }
}

/// The couplings of `from` among the first `n`, as those of `to`.
pub open spec fn inherited(
    couplings: Seq<CouplingView>,
    from: Seq<char>,
    to: Seq<char>,
    n: int,
) -> Seq<CouplingView>
    decreases n,
{
    if n <= 0 {
        Seq::empty()
    } else if couplings[n - 1].fan == from {
        inherited(couplings, from, to, n - 1).push(CouplingView { fan: to, ..couplings[n - 1] })
    } else {
        inherited(couplings, from, to, n - 1)
    }
}

/// The couplings with those that the first `n` fans inherit: a follower has those
/// of the fan that it follows.
pub open spec fn with_followers(
    couplings: Seq<CouplingView>,
    classified: Seq<ClassifiedFan>,
    n: int,
) -> Seq<CouplingView>
    decreases n,
{
    if n <= 0 {
        couplings
    } else {
        let before = with_followers(couplings, classified, n - 1);
        match classified[n - 1].role@ {
            RoleView::CaseFollower(rep) => before + inherited(
                before,
                rep,
                classified[n - 1].name@,
                before.len() as int,
            ),
            _ => before,
        }
    }
}

fn measure(fan: &str, sensor: &str, p: &Vec<(i128, i128)>, samples: u32) -> (r: Option<Coupling>)
    ensures
        match (r, measured(fan@, sensor@, as_points(p@), samples)) {
            (Some(c), Some(v)) => c@ == v,
            (None, None) => true,
            _ => false,
        },
{
    let n: usize = p.len();
    assert(as_points(p@).len() == n);
    if n < 2 {
        return None;
    }
    let m = moments(p);
    let count: u128 = n as u128;
    let wide: u128 = samples as u128;
    let least = Wide::of(wide).times(wide).times(10000).times(count).times(count);
    proof {
        crate::regression::law_spread_not_negative(as_points(p@));
        let a = samples * samples * 10000;
        assert((a * n) * n == a * (n * n)) by (nonlinear_arith);
    }
    if least.exceeds(&m.spread.size) {
        return None;
    }
    let flat = match m.den.to_i128() {
        Some(den) => den == 0,
        None => false,
    };
    let (num, den) = if flat {
        (Big::of(0), Big::of(1))
    } else {
        (m.num, m.den)
    };
    Some(
        Coupling {
            fan: fan.to_owned(),
            sensor: sensor.to_owned(),
            num,
            den,
            spread: m.spread,
            readings: n,
        },
    )
}

fn gather(readings: &Vec<(u8, Vec<i128>)>, sensor: usize) -> (r: Vec<(i128, i128)>)
    requires
        forall|k: int| 0 <= k < readings@.len() ==> sensor < (#[trigger] readings@[k]).1@.len(),
    ensures
        as_points(r@) == points(readings@, sensor as int),
{
    let mut r: Vec<(i128, i128)> = Vec::new();
    for k in 0..readings.len()
        invariant
            forall|k: int|
                0 <= k < readings@.len() ==> sensor < (#[trigger] readings@[k]).1@.len(),
            r@.len() == k,
            forall|i: int|
                0 <= i < k ==> (#[trigger] r@[i]).0 == readings@[i].0 && r@[i].1
                    == readings@[i].1@[sensor as int],
    {
        r.push((readings[k].0 as i128, readings[k].1[sensor]));
    }
    assert(as_points(r@) =~= points(readings@, sensor as int));
    r
}

fn inherit(couplings: &mut Vec<Coupling>, from: &str, to: &str)
    ensures
        coupling_views(final(couplings)@) == coupling_views(old(couplings)@) + inherited(
            coupling_views(old(couplings)@),
            from@,
            to@,
            old(couplings)@.len() as int,
        ),
{
    let n: usize = couplings.len();
    let ghost start = coupling_views(couplings@);
    assert(start =~= start + inherited(start, from@, to@, 0));
    for i in 0..n
        invariant
            n == start.len(),
            n <= couplings@.len(),
            coupling_views(couplings@) == start + inherited(start, from@, to@, i as int),
    {
        assert(couplings@[i as int]@ == coupling_views(couplings@)[i as int]);
        assert(couplings@[i as int]@ == start[i as int]);
        if text::same(couplings[i].fan.as_str(), from) {
            let copy = Coupling {
                fan: to.to_owned(),
                sensor: couplings[i].sensor.clone(),
                num: couplings[i].num.copied(),
                den: couplings[i].den.copied(),
                spread: couplings[i].spread.copied(),
                readings: couplings[i].readings,
            };
            let ghost was = couplings@;
            couplings.push(copy);
            assert(coupling_views(couplings@) =~= coupling_views(was).push(copy@));
            assert(coupling_views(couplings@) =~= start + inherited(start, from@, to@, i + 1));
        }
    }
}

/// The thermal couplings that the measurements give; followers inherit those of
/// the fan that they follow. Each summed temperature is one of `samples`
/// temperatures.
pub fn compute_tuning(
    measurements: &Vec<FanMeasurement>,
    classified: &Vec<ClassifiedFan>,
    sensor_names: &Vec<String>,
    samples: u32,
) -> (r: Vec<Coupling>)
    requires
        forall|i: int, k: int|
            0 <= i < measurements@.len() && 0 <= k < measurements@[i].readings@.len() ==> (
            #[trigger] measurements@[i].readings@[k]).1@.len() == sensor_names@.len(),
    ensures
        coupling_views(r@) == with_followers(
            direct_couplings(
                measurements@,
                sensor_names@,
                samples,
                measurements@.len() as int,
            ),
            classified@,
            classified@.len() as int,
        ),
{
    let mut couplings: Vec<Coupling> = Vec::new();
    assert(coupling_views(couplings@) =~= direct_couplings(
        measurements@,
        sensor_names@,
        samples,
        0,
    ));
    for i in 0..measurements.len()
        invariant
            forall|i: int, k: int|
                0 <= i < measurements@.len() && 0 <= k < measurements@[i].readings@.len() ==> (
                #[trigger] measurements@[i].readings@[k]).1@.len() == sensor_names@.len(),
            coupling_views(couplings@) == direct_couplings(
                measurements@,
                sensor_names@,
                samples,
                i as int,
            ),
    {
        let m = &measurements[i];
        let ghost start = coupling_views(couplings@);
        assert(start =~= start + fan_couplings(*m, sensor_names@, samples, 0));
        for s in 0..sensor_names.len()
            invariant
                forall|k: int|
                    0 <= k < m.readings@.len() ==> (#[trigger] m.readings@[k]).1@.len()
                        == sensor_names@.len(),
                coupling_views(couplings@) == start + fan_couplings(
                    *m,
                    sensor_names@,
                    samples,
                    s as int,
                ),
        {
            let p = gather(&m.readings, s);
            if let Some(c) = measure(
                m.fan_name.as_str(),
                sensor_names[s].as_str(),
                &p,
                samples,
            ) {
                let ghost was = couplings@;
                couplings.push(c);
                assert(coupling_views(couplings@) =~= coupling_views(was).push(c@));
                assert(coupling_views(couplings@) =~= start + fan_couplings(
                    *m,
                    sensor_names@,
                    samples,
                    s + 1,
                ));
            }
        }
    }
    let ghost direct = coupling_views(couplings@);
    for i in 0..classified.len()
        invariant
            coupling_views(couplings@) == with_followers(direct, classified@, i as int),
    {
        let c = &classified[i];
        if let FanRole::CaseFollower { representative } = &c.role {
            assert(coupling_views(couplings@).len() == couplings@.len());
            inherit(&mut couplings, representative.as_str(), c.name.as_str());
        }
    }
    couplings
}

/// Inherited couplings are those of the fan that is followed, in the follower's
/// name: sensor by sensor, with the same slope.
pub proof fn law_inherited(
    couplings: Seq<CouplingView>,
    from: Seq<char>,
    to: Seq<char>,
    n: int,
    i: int,
)
    requires
        0 <= n <= couplings.len(),
        0 <= i < inherited(couplings, from, to, n).len(),
    ensures
        ({
            let c = inherited(couplings, from, to, n)[i];
            &&& c.fan == to
            &&& exists|k: int|
                0 <= k < n && (#[trigger] couplings[k]).fan == from && couplings[k].sensor
                    == c.sensor && couplings[k].num == c.num && couplings[k].den == c.den
                    && couplings[k].spread == c.spread
        }),
    decreases n,
{
    if n > 0 {
        let rest = inherited(couplings, from, to, n - 1);
        let c = inherited(couplings, from, to, n)[i];
        if i < rest.len() {
            law_inherited(couplings, from, to, n - 1, i);
            let k = choose|k: int|
                0 <= k < n - 1 && (#[trigger] couplings[k]).fan == from && couplings[k].sensor
                    == rest[i].sensor && couplings[k].num == rest[i].num && couplings[k].den
                    == rest[i].den
                    && couplings[k].spread == rest[i].spread;
            assert(couplings[k].fan == from);
        } else {
            assert(couplings[n - 1].fan == from);
        }
    }
}

// ---- Laws of the couplings ----

/// Whether the readings of the sensor tell anything: there are at least two, and
/// the variance of the temperatures is at least 0.01 square degrees, where each sum
/// is one of `samples` temperatures in thousandths of a degree.
pub open spec fn is_telling(readings: Seq<(u8, Vec<i128>)>, sensor: int, samples: u32) -> bool {
    let n = readings.len() as int;
    let sy = readings.fold_left(0, |t: int, r: (u8, Vec<i128>)| t + r.1@[sensor]);
    let syy = readings.fold_left(
        0,
        |t: int, r: (u8, Vec<i128>)| t + r.1@[sensor] * r.1@[sensor],
    );
    n >= 2 && n * syy - sy * sy >= (samples * samples) * 10000 * (n * n)
}

/// Whether the coupling is that of the fan and the sensor by least squares over all
/// the readings: with the line of the slope `num / den` through the middle of the
/// readings, the residuals of all readings sum to zero, and so do their products with
/// the PWM values; the slope is zero where all PWM values are the same.
pub open spec fn is_least_squares(
    c: CouplingView,
    readings: Seq<(u8, Vec<i128>)>,
    sensor: int,
) -> bool {
    let n = readings.len() as int;
    let sx = readings.fold_left(0, |t: int, r: (u8, Vec<i128>)| t + r.0);
    let sy = readings.fold_left(0, |t: int, r: (u8, Vec<i128>)| t + r.1@[sensor]);
    let sxx = readings.fold_left(0, |t: int, r: (u8, Vec<i128>)| t + r.0 * r.0);
    let syy = readings.fold_left(
        0,
        |t: int, r: (u8, Vec<i128>)| t + r.1@[sensor] * r.1@[sensor],
    );
    let (a, b, d) = (n * c.den, n * c.num, c.den * sy - c.num * sx);
    &&& c.den > 0
    &&& readings.fold_left(
        0,
        |t: int, r: (u8, Vec<i128>)| t + (a * r.1@[sensor] - b * r.0 - d),
    ) == 0
    &&& readings.fold_left(
        0,
        |t: int, r: (u8, Vec<i128>)| t + r.0 * (a * r.1@[sensor] - b * r.0 - d),
    ) == 0
    &&& n * sxx - sx * sx == 0 ==> c.num == 0
    &&& c.spread == n * syy - sy * sy
    &&& c.readings == n
}

proof fn lemma_folds(
    readings: Seq<(u8, Vec<i128>)>,
    sensor: int,
    a: int,
    b: int,
    d: int,
)
    ensures
        ({
            let p = points(readings, sensor);
            &&& readings.fold_left(0, |t: int, r: (u8, Vec<i128>)| t + r.0) == p.fold_left(
                0,
                |t: int, q: (int, int)| t + q.0,
            )
            &&& readings.fold_left(0, |t: int, r: (u8, Vec<i128>)| t + r.1@[sensor])
                == p.fold_left(0, |t: int, q: (int, int)| t + q.1)
            &&& readings.fold_left(0, |t: int, r: (u8, Vec<i128>)| t + r.0 * r.0) == p.fold_left(
                0,
                |t: int, q: (int, int)| t + q.0 * q.0,
            )
            &&& readings.fold_left(
                0,
                |t: int, r: (u8, Vec<i128>)| t + r.1@[sensor] * r.1@[sensor],
            ) == p.fold_left(0, |t: int, q: (int, int)| t + q.1 * q.1)
            &&& readings.fold_left(
                0,
                |t: int, r: (u8, Vec<i128>)| t + (a * r.1@[sensor] - b * r.0 - d),
            ) == p.fold_left(0, |t: int, q: (int, int)| t + (a * q.1 - b * q.0 - d))
            &&& readings.fold_left(
                0,
                |t: int, r: (u8, Vec<i128>)| t + r.0 * (a * r.1@[sensor] - b * r.0 - d),
            ) == p.fold_left(0, |t: int, q: (int, int)| t + q.0 * (a * q.1 - b * q.0 - d))
        }),
    decreases readings.len(),
{
    let p = points(readings, sensor);
    if readings.len() > 0 {
        lemma_folds(readings.drop_last(), sensor, a, b, d);
        assert(p.drop_last() =~= points(readings.drop_last(), sensor));
        assert(p.last() == (readings.last().0 as int, readings.last().1@[sensor] as int));
    }
}

proof fn lemma_measured(
    fan: Seq<char>,
    sensor: Seq<char>,
    readings: Seq<(u8, Vec<i128>)>,
    s: int,
    samples: u32,
)
    requires
        readings.len() <= usize::MAX,
    ensures
        match measured(fan, sensor, points(readings, s), samples) {
            None => !is_telling(readings, s, samples),
            Some(c) => {
                &&& is_telling(readings, s, samples)
                &&& is_least_squares(c, readings, s)
                &&& c.fan == fan
                &&& c.sensor == sensor
            },
        },
{
    let p = points(readings, s);
    crate::regression::law_sums(p);
    crate::regression::law_denominator_not_negative(p);
    lemma_folds(readings, s, 0, 0, 0);
    if let Some(c) = measured(fan, sensor, p, samples) {
        if denominator(p) == 0 {
            crate::regression::law_upright(p);
        } else {
            let (x, y) = (numerator(p), denominator(p));
            assert(x * y == y * x) by (nonlinear_arith);
        }
        crate::regression::law_normal_equations(p, c.num, c.den);
        let n = p.len() as int;
        let sx = p.fold_left(0, |t: int, q: (int, int)| t + q.0);
        let sy = p.fold_left(0, |t: int, q: (int, int)| t + q.1);
        lemma_folds(readings, s, n * c.den, n * c.num, c.den * sy - c.num * sx);
    }
}

/// What is measured, of every fan and every sensor: `o` says for each coupling which
/// measurement and which sensor it is of. Each pair of these has one coupling where
/// its readings tell anything and none otherwise; they stand in the order of the
/// measurements and, within each, of the sensors; and each is that of least squares
/// over all of its readings, in the names of its fan and its sensor.
pub proof fn law_couplings_measured(
    measurements: Seq<FanMeasurement>,
    names: Seq<String>,
    samples: u32,
) -> (o: Seq<(int, int)>)
    ensures
        ({
            let found = direct_couplings(
                measurements,
                names,
                samples,
                measurements.len() as int,
            );
            &&& o.len() == found.len()
            &&& forall|j: int, k: int|
                0 <= j < k < o.len() ==> (#[trigger] o[j]).0 < (#[trigger] o[k]).0 || (o[j].0
                    == o[k].0 && o[j].1 < o[k].1)
            &&& forall|i: int, s: int|
                0 <= i < measurements.len() && 0 <= s < names.len() ==> (#[trigger] o.contains(
                    (i, s),
                ) <==> is_telling(measurements[i].readings@, s, samples))
            &&& forall|k: int|
                0 <= k < o.len() ==> {
                    let (i, s) = #[trigger] o[k];
                    &&& 0 <= i < measurements.len()
                    &&& 0 <= s < names.len()
                    &&& found[k].fan == measurements[i].fan_name@
                    &&& found[k].sensor == names[s]@
                    &&& is_least_squares(found[k], measurements[i].readings@, s)
                }
        }),
{
    lemma_origins(measurements, names, samples, measurements.len() as int)
}

proof fn lemma_origins(
    measurements: Seq<FanMeasurement>,
    names: Seq<String>,
    samples: u32,
    n: int,
) -> (o: Seq<(int, int)>)
    requires
        0 <= n <= measurements.len(),
    ensures
        are_origins(
            o,
            direct_couplings(measurements, names, samples, n),
            measurements,
            names,
            samples,
            n,
            0,
        ),
    decreases n,
{
    if n <= 0 {
        Seq::empty()
    } else {
        let before = lemma_origins(measurements, names, samples, n - 1);
        lemma_fan_origins(before, measurements, names, samples, n, names.len() as int)
    }
}

/// Whether `o` are the origins of the couplings of the first `n` measurements and,
/// of the next one, of the first `m` sensors.
spec fn are_origins(
    o: Seq<(int, int)>,
    found: Seq<CouplingView>,
    measurements: Seq<FanMeasurement>,
    names: Seq<String>,
    samples: u32,
    n: int,
    m: int,
) -> bool {
    &&& o.len() == found.len()
    &&& forall|j: int, k: int|
        0 <= j < k < o.len() ==> (#[trigger] o[j]).0 < (#[trigger] o[k]).0 || (o[j].0 == o[k].0
            && o[j].1 < o[k].1)
    &&& forall|i: int, s: int|
        0 <= s < names.len() && (0 <= i < n || (i == n && s < m)) ==> (#[trigger] o.contains((i, s))
            <==> is_telling(measurements[i].readings@, s, samples))
    &&& forall|k: int|
        0 <= k < o.len() ==> {
            let (i, s) = #[trigger] o[k];
            &&& 0 <= s < names.len()
            &&& 0 <= i < n || (i == n && s < m)
            &&& found[k].fan == measurements[i].fan_name@
            &&& found[k].sensor == names[s]@
            &&& is_least_squares(found[k], measurements[i].readings@, s)
        }
}

proof fn lemma_fan_origins(
    before: Seq<(int, int)>,
    measurements: Seq<FanMeasurement>,
    names: Seq<String>,
    samples: u32,
    n: int,
    m: int,
) -> (o: Seq<(int, int)>)
    requires
        0 < n <= measurements.len(),
        0 <= m <= names.len(),
        are_origins(
            before,
            direct_couplings(measurements, names, samples, n - 1),
            measurements,
            names,
            samples,
            n - 1,
            0,
        ),
    ensures
        are_origins(
            o,
            direct_couplings(measurements, names, samples, n - 1) + fan_couplings(
                measurements[n - 1],
                names,
                samples,
                m,
            ),
            measurements,
            names,
            samples,
            n - 1,
            m,
        ),
        m == names.len() ==> are_origins(
            o,
            direct_couplings(measurements, names, samples, n),
            measurements,
            names,
            samples,
            n,
            0,
        ),
    decreases m,
{
    let first = direct_couplings(measurements, names, samples, n - 1);
    let fan = measurements[n - 1];
    if m <= 0 {
        assert(first + fan_couplings(fan, names, samples, m) =~= first);
        before
    } else {
        let was = lemma_fan_origins(before, measurements, names, samples, n, m - 1);
        let p = (n - 1, m - 1);
        assert(fan.readings.len() == fan.readings@.len());
        lemma_measured(fan.fan_name@, names[m - 1]@, fan.readings@, m - 1, samples);
        let old_found = first + fan_couplings(fan, names, samples, m - 1);
        let found = first + fan_couplings(fan, names, samples, m);
        assert(!was.contains(p));
        match measured(fan.fan_name@, names[m - 1]@, points(fan.readings@, m - 1), samples) {
            None => {
                assert(found =~= old_found);
                was
            },
            Some(c) => {
                let o = was.push(p);
                assert(found =~= old_found.push(c));
                assert forall|i: int, s: int|
                    0 <= s < names.len() && (0 <= i < n - 1 || (i == n - 1 && s < m)) implies (
                #[trigger] o.contains((i, s)) <==> is_telling(
                    measurements[i].readings@,
                    s,
                    samples,
                )) by {
                    if (i, s) == p {
                        assert(o[was.len() as int] == p);
                    } else {
                        if was.contains((i, s)) {
                            let k = choose|k: int| 0 <= k < was.len() && was[k] == (i, s);
                            assert(o[k] == (i, s));
                        }
                        if o.contains((i, s)) {
                            let k = choose|k: int| 0 <= k < o.len() && o[k] == (i, s);
                            assert(was[k] == (i, s));
                        }
                    }
                }
                o
            },
        }
    }
}

/// What a fan inherits: the couplings of the fan that it follows, all of them, in
/// their order, under its own name.
pub proof fn law_inherits_all(couplings: Seq<CouplingView>, from: Seq<char>, to: Seq<char>)
    ensures
        inherited(couplings, from, to, couplings.len() as int) == couplings.filter(
            |c: CouplingView| c.fan == from,
        ).map_values(|c: CouplingView| CouplingView { fan: to, ..c }),
{
    lemma_inherits(couplings, from, to, couplings.len() as int);
    assert(couplings.take(couplings.len() as int) =~= couplings);
}

proof fn lemma_inherits(couplings: Seq<CouplingView>, from: Seq<char>, to: Seq<char>, n: int)
    requires
        0 <= n <= couplings.len(),
    ensures
        inherited(couplings, from, to, n) == couplings.take(n).filter(
            |c: CouplingView| c.fan == from,
        ).map_values(|c: CouplingView| CouplingView { fan: to, ..c }),
    decreases n,
{
    reveal(Seq::filter);
    let pred = |c: CouplingView| c.fan == from;
    let map = |c: CouplingView| CouplingView { fan: to, ..c };
    if n > 0 {
        lemma_inherits(couplings, from, to, n - 1);
        assert(couplings.take(n).drop_last() =~= couplings.take(n - 1));
    }
    assert(inherited(couplings, from, to, n) =~= couplings.take(n).filter(pred).map_values(map));
}

/// Whether followers inherit without getting into each other's way: no two fans have
/// one name, no follower was measured itself, and none follows a follower.
pub open spec fn is_plain_following(
    couplings: Seq<CouplingView>,
    classified: Seq<ClassifiedFan>,
) -> bool {
    &&& forall|f: int, g: int|
        0 <= f < g < classified.len() ==> (#[trigger] classified[f]).name@ != (
        #[trigger] classified[g]).name@
    &&& forall|f: int, k: int|
        0 <= f < classified.len() && 0 <= k < couplings.len() && (
        #[trigger] classified[f]).role@ is CaseFollower ==> (#[trigger] couplings[k]).fan
            != classified[f].name@
    &&& forall|f: int, g: int|
        0 <= f < classified.len() && 0 <= g < classified.len() && (
        #[trigger] classified[f]).role@ is CaseFollower && (
        #[trigger] classified[g]).role@ is CaseFollower ==> classified[f].role@->CaseFollower_0
            != classified[g].name@
}

/// Who has which couplings in the end. What was measured stays, in its place; a fan
/// that follows none has what was measured of it; a follower has exactly what was
/// measured of the fan that it follows, in the same order, under its own name.
pub proof fn law_followers_inherit(
    couplings: Seq<CouplingView>,
    classified: Seq<ClassifiedFan>,
    name: Seq<char>,
)
    requires
        is_plain_following(couplings, classified),
    ensures
        ({
            let all = with_followers(couplings, classified, classified.len() as int);
            &&& couplings.is_prefix_of(all)
            &&& (forall|f: int|
                0 <= f < classified.len() && (#[trigger] classified[f]).role@ is CaseFollower
                    ==> classified[f].name@ != name) ==> all.filter(
                |c: CouplingView| c.fan == name,
            ) == couplings.filter(|c: CouplingView| c.fan == name)
            &&& forall|f: int|
                0 <= f < classified.len() && (#[trigger] classified[f]).role@ is CaseFollower
                    && classified[f].name@ == name ==> {
                    let leader = classified[f].role@->CaseFollower_0;
                    all.filter(|c: CouplingView| c.fan == name) == couplings.filter(
                        |c: CouplingView| c.fan == leader,
                    ).map_values(|c: CouplingView| CouplingView { fan: name, ..c })
                }
        }),
{
    lemma_following(couplings, classified, name, classified.len() as int);
}

proof fn lemma_filter_add(
    a: Seq<CouplingView>,
    b: Seq<CouplingView>,
    pred: spec_fn(CouplingView) -> bool,
)
    ensures
        (a + b).filter(pred) == a.filter(pred) + b.filter(pred),
    decreases b.len(),
{
    reveal(Seq::filter);
    if b.len() > 0 {
        lemma_filter_add(a, b.drop_last(), pred);
        assert((a + b).drop_last() =~= a + b.drop_last());
        assert((a + b).filter(pred) =~= a.filter(pred) + b.filter(pred));
    } else {
        assert(a + b =~= a);
        assert(a.filter(pred) + b.filter(pred) =~= a.filter(pred));
    }
}

proof fn lemma_filter_all(s: Seq<CouplingView>, name: Seq<char>)
    ensures
        (forall|k: int| 0 <= k < s.len() ==> (#[trigger] s[k]).fan == name) ==> s.filter(
            |c: CouplingView| c.fan == name,
        ) == s,
        (forall|k: int| 0 <= k < s.len() ==> (#[trigger] s[k]).fan != name) ==> s.filter(
            |c: CouplingView| c.fan == name,
        ) == Seq::<CouplingView>::empty(),
    decreases s.len(),
{
    reveal(Seq::filter);
    let pred = |c: CouplingView| c.fan == name;
    if s.len() > 0 {
        lemma_filter_all(s.drop_last(), name);
        assert(forall|k: int| 0 <= k < s.len() - 1 ==> #[trigger] s.drop_last()[k] == s[k]);
        assert(s.drop_last().push(s.last()) =~= s);
        if forall|k: int| 0 <= k < s.len() ==> (#[trigger] s[k]).fan == name {
            assert(s[s.len() - 1].fan == name);
            assert(s.filter(pred) =~= s);
        }
        if forall|k: int| 0 <= k < s.len() ==> (#[trigger] s[k]).fan != name {
            assert(s[s.len() - 1].fan != name);
            assert(s.filter(pred) =~= Seq::empty());
        }
    } else {
        assert(s.filter(pred) =~= s);
        assert(s.filter(pred) =~= Seq::empty());
    }
}

proof fn lemma_following(
    couplings: Seq<CouplingView>,
    classified: Seq<ClassifiedFan>,
    name: Seq<char>,
    n: int,
)
    requires
        is_plain_following(couplings, classified),
        0 <= n <= classified.len(),
    ensures
        ({
            let all = with_followers(couplings, classified, n);
            &&& couplings.is_prefix_of(all)
            &&& (forall|f: int|
                0 <= f < n && (#[trigger] classified[f]).role@ is CaseFollower
                    ==> classified[f].name@ != name) ==> all.filter(
                |c: CouplingView| c.fan == name,
            ) == couplings.filter(|c: CouplingView| c.fan == name)
            &&& forall|f: int|
                0 <= f < n && (#[trigger] classified[f]).role@ is CaseFollower
                    && classified[f].name@ == name ==> {
                    let leader = classified[f].role@->CaseFollower_0;
                    all.filter(|c: CouplingView| c.fan == name) == couplings.filter(
                        |c: CouplingView| c.fan == leader,
                    ).map_values(|c: CouplingView| CouplingView { fan: name, ..c })
                }
        }),
    decreases n,
{
    if n > 0 {
        lemma_following(couplings, classified, name, n - 1);
        let before = with_followers(couplings, classified, n - 1);
        let all = with_followers(couplings, classified, n);
        let pred = |c: CouplingView| c.fan == name;
        if let RoleView::CaseFollower(leader) = classified[n - 1].role@ {
            let to = classified[n - 1].name@;
            let got = inherited(before, leader, to, before.len() as int);
            law_inherits_all(before, leader, to);
            lemma_filter_add(before, got, pred);
            lemma_filter_all(got, name);
            assert forall|k: int| 0 <= k < got.len() implies (#[trigger] got[k]).fan == to by {}
            assert(couplings =~= all.subrange(0, couplings.len() as int)) by {
                assert(couplings =~= before.subrange(0, couplings.len() as int));
            }
            assert(before.filter(pred) + Seq::<CouplingView>::empty() =~= before.filter(pred));
            lemma_following(couplings, classified, leader, n - 1);
            if to == name {
                lemma_filter_all(couplings, name);
                assert(classified[n - 1].role@ is CaseFollower);
                assert forall|k: int| 0 <= k < couplings.len() implies (#[trigger] couplings[k]).fan
                    != name by {}
                assert forall|f: int|
                    0 <= f < n - 1 && (#[trigger] classified[f]).role@ is CaseFollower implies classified[f].name@
                    != name && classified[f].name@ != leader by {
                    assert(classified[f].name@ != classified[n - 1].name@);
                }
                assert(Seq::<CouplingView>::empty() + got =~= got);
            }
        } else {
            assert(all == before);
        }
    } else {
        assert(couplings =~= couplings.subrange(0, couplings.len() as int));
    }
}

/// The levels of a sweep: first the stall threshold, or 1 where there is none, then
/// exactly those of 40, 100, 180 and 255 that lie above it.
pub proof fn law_levels(stall: u8, v: u8)
    ensures
        levels_of(stall)[0] == if stall == 0 {
            1u8
        } else {
            stall
        },
        levels_of(stall).skip(1).contains(v) <==> v > stall && (v == 40 || v == 100 || v == 180 || v
            == 255),
{
    let all: Seq<u8> = seq![40u8, 100u8, 180u8, 255u8];
    let rest = levels_of(stall).skip(1);
    assert(rest =~= levels_above(stall));
    if v > stall && (v == 40 || v == 100 || v == 180 || v == 255) {
        let d = all.len() - rest.len();
        let k: int = if v == 40 {
            0
        } else if v == 100 {
            1
        } else if v == 180 {
            2
        } else {
            3
        };
        assert(rest[k - d] == v);
    }
}

/// The search begins by asking for 80. A fan that stands still there has no threshold,
/// and the search is over; one that turns has the value at which it ran.
pub proof fn law_search_begins(actual: u8, turns: bool)
    ensures
        asked(first_search()) == 80,
        ({
            let s = first_search().after(actual, turns);
            &&& !turns ==> s.phase is Done && s.stall == 0
            &&& turns ==> s.stall == actual
            &&& turns && actual <= 80 ==> s.phase is Searching && s.lo == 0 && s.hi == 80
            &&& turns && actual >= 160 ==> s.phase is Done
            &&& turns && 80 < actual < 160 ==> s.phase is Searching && s.lo == actual - 80 && s.hi
                == 80
        }),
{
}

/// The search halves what is left: it asks for the middle of it. Where the fan turns
/// there, what lies above is dropped and the value at which it ran is the threshold so
/// far; where not, what lies up to there is dropped. It is over exactly where no more
/// than three are between the ends.
pub proof fn law_search_halves(s: StallSearch, actual: u8, turns: bool)
    requires
        s.wf(),
        s.phase is Searching,
    ensures
        ({
            let t = s.after(actual, turns);
            let m = asked(s);
            &&& s.lo <= m < s.hi
            &&& -1 <= (m - s.lo) - (s.hi - m) <= 0
            &&& turns ==> (t.lo, t.hi, t.stall) == (s.lo, m, actual)
            &&& !turns ==> t.lo == m + 1 && t.hi == s.hi && t.stall == s.stall
            &&& t.phase is Done <==> t.hi <= t.lo + 3
            &&& t.phase is Searching <==> t.hi > t.lo + 3
        }),
{
}

/// How many are counted: as many as are marked, and as many fans as follow no other.
pub proof fn law_counted(v: Seq<bool>, classified: Seq<ClassifiedFan>)
    ensures
        count_true(v, v.len() as int) == v.filter(|b: bool| b).len(),
        active_count(classified, classified.len() as int) == classified.filter(
            |c: ClassifiedFan| !(c.role is CaseFollower),
        ).len(),
{
    assert(v.take(v.len() as int) =~= v);
    assert(classified.take(classified.len() as int) =~= classified);
    lemma_marks_counted(v, v.len() as int);
    lemma_active_counted(classified, classified.len() as int);
}

proof fn lemma_marks_counted(v: Seq<bool>, n: int)
    requires
        0 <= n <= v.len(),
    ensures
        count_true(v, n) == v.take(n).filter(|b: bool| b).len(),
    decreases n,
{
    reveal(Seq::filter);
    if n > 0 {
        lemma_marks_counted(v, n - 1);
        assert(v.take(n).drop_last() =~= v.take(n - 1));
    }
}

proof fn lemma_active_counted(classified: Seq<ClassifiedFan>, n: int)
    requires
        0 <= n <= classified.len(),
    ensures
        active_count(classified, n) == classified.take(n).filter(
            |c: ClassifiedFan| !(c.role is CaseFollower),
        ).len(),
    decreases n,
{
    reveal(Seq::filter);
    if n > 0 {
        lemma_active_counted(classified, n - 1);
        assert(classified.take(n).drop_last() =~= classified.take(n - 1));
        assert(follows(classified[n - 1]) == (classified[n - 1].role is CaseFollower));
    }
}

} // verus!
