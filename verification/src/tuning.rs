//! The thermal tuning of the whole machine: correlators, step responses, coupling
//! and heat integrals, taken one tick further together.
use crate::correlation::{found, CrossCorrelator, Peak};
use crate::coupling::{CouplingEstimator, CouplingResult};
use crate::integral::ThermalIntegral;
use crate::names::{looked_up, map_from, NameMap};
use crate::steps::{finished, recording_views, step_views, still_active, with_new_steps};
use crate::steps::{FittedStep, Recording, StepDetector, StepView};
use crate::text;
use vstd::prelude::*;

verus! {

/// Sensors integrate heat above this temperature, in thousandths of a degree.
pub const BASELINE: i32 = 40000;

/// Ticks below the baseline after which the integral starts anew.
pub const COOLDOWN: usize = 30;

/// Ticks between two recomputations.
pub const RECOMPUTE_INTERVAL: u32 = 30;

/// Settings of the tuning subsystem.
#[derive(Debug, Clone, Copy)]
pub struct TuningParams {
    pub ewma_span: usize,
    pub ccf_buffer_size: usize,
    pub ccf_max_lag: usize,
    pub step_threshold: u8,
    pub response_window: usize,
    pub regression_min_samples: usize,
    pub poll_interval_ms: u64,
}

/// The correlation of a fan and a sensor.
#[derive(Debug, Clone)]
pub struct CorrelationResult {
    pub fan: String,
    pub sensor: String,
    pub peak_ccf: Peak,
    pub optimal_lag: usize,
}

/// The heat that a sensor has seen: twice the integral above the baseline, in
/// thousandths of a degree times milliseconds, and the baseline.
#[derive(Debug, Clone)]
pub struct IntegralResult {
    pub sensor: String,
    pub integral: u128,
    pub baseline: i32,
}

/// What is left to be computed after a tick.
#[derive(Debug)]
pub struct Due {
    /// Responses to be fitted.
    pub recordings: Vec<Recording>,
    /// Whether the coupling is to be solved.
    pub solve: bool,
}

/// All thermal tuning subsystems.
#[derive(Debug)]
pub struct ThermalSystem {
    pub correlators: Vec<CrossCorrelator>,
    pub step_detector: StepDetector,
    pub coupling: CouplingEstimator,
    pub integrals: NameMap<ThermalIntegral>,
    pub poll_interval_ms: u64,
    pub prev_pwms: NameMap<u8>,
    pub tick: u32,
}

/// The PWM value of `name`, 0 where there is none.
pub open spec fn pwm_or_zero(m: Map<Seq<char>, u8>, name: Seq<char>) -> u8 {
    match looked_up(m, name) {
        Some(v) => v,
        None => 0,
    }
}

/// The temperature of `name`, 0 where there is none.
pub open spec fn temp_or_zero(m: Map<Seq<char>, i32>, name: Seq<char>) -> i32 {
    match looked_up(m, name) {
        Some(v) => v,
        None => 0,
    }
}

/// Whether a recomputation is due at the tick.
pub open spec fn recompute_due(tick: u32) -> bool {
    tick > 0 && tick % RECOMPUTE_INTERVAL == 0
}

impl ThermalSystem {
    pub open spec fn wf(self) -> bool {
        &&& forall|i: int|
            0 <= i < self.correlators@.len() ==> (#[trigger] self.correlators@[i]).wf()
        &&& self.step_detector.wf()
        &&& self.coupling.wf()
    }

    /// Whether the correlator of fan `i` and sensor `j`, of `ns` sensors, is
    /// there, with nothing seen yet.
    pub open spec fn has_fresh_correlator(
        self,
        i: int,
        j: int,
        ns: int,
        fan: Seq<char>,
        sensor: Seq<char>,
        params: TuningParams,
    ) -> bool {
        let c = self.correlators@[i * ns + j];
        &&& c.fan_name@ == fan
        &&& c.sensor_name@ == sensor
        &&& c.buf_size == params.ccf_buffer_size
        &&& c.max_lag == if params.ccf_max_lag < params.ccf_buffer_size / 2 {
            params.ccf_max_lag
        } else {
            params.ccf_buffer_size / 2
        }
        &&& c.prev is None
        &&& c.changes() == Seq::<(int, int)>::empty()
        &&& c.held() == (None::<Peak>, 0usize)
    }

    pub fn new(
        params: &TuningParams,
        fan_names: &Vec<String>,
        sensor_names: &Vec<String>,
    ) -> (r: Self)
        requires
            0 < params.ccf_buffer_size <= usize::MAX / 16,
            fan_names@.len() * fan_names@.len() <= usize::MAX,
        ensures
            r.wf(),
            r.tick == 0,
            r.poll_interval_ms == params.poll_interval_ms,
            r.prev_pwms@ == Map::<Seq<char>, u8>::empty(),
            r.step_detector.step_threshold == params.step_threshold,
            r.step_detector.response_window == params.response_window,
            step_views(r.step_detector.active@) == Seq::<StepView>::empty(),
            r.step_detector.completed@.len() == 0,
            text::views(r.coupling.fan_names@) == text::views(fan_names@),
            text::views(r.coupling.sensor_names@) == text::views(sensor_names@),
            r.coupling.min_samples == params.regression_min_samples,
            r.coupling.samples == 0,
            r.correlators@.len() == fan_names@.len() * sensor_names@.len(),
            forall|i: int, j: int|
                0 <= i < fan_names@.len() && 0 <= j < sensor_names@.len()
                    ==> r.has_fresh_correlator(
                    i,
                    j,
                    sensor_names@.len() as int,
                    (#[trigger] fan_names@[i])@,
                    (#[trigger] sensor_names@[j])@,
                    *params,
                ),
            forall|name: Seq<char>| #[trigger]
                looked_up(r.integrals@, name) == if text::views(sensor_names@).contains(name) {
                    Some(
                        ThermalIntegral {
                            baseline: BASELINE,
                            doubled: 0,
                            prev_excess: None,
                            cooldown_ticks: 0,
                            cooldown_threshold: COOLDOWN,
                        },
                    )
                } else {
                    None
                },
    {
        let nf: usize = fan_names.len();
        let ns: usize = sensor_names.len();
        let mut r = ThermalSystem {
            correlators: Vec::new(),
            step_detector: StepDetector::new(params.step_threshold, params.response_window),
            coupling: CouplingEstimator::new(
                fan_names,
                sensor_names,
                params.regression_min_samples,
            ),
            integrals: fresh_integrals(sensor_names),
            poll_interval_ms: params.poll_interval_ms,
            prev_pwms: NameMap::new(),
            tick: 0,
        };
        let ghost start = r;
        assert(0 * ns == 0) by (nonlinear_arith);
        for i in 0..nf
            invariant
                nf == fan_names@.len(),
                ns == sensor_names@.len(),
                0 < params.ccf_buffer_size <= usize::MAX / 16,
                r == (ThermalSystem { correlators: r.correlators, ..start }),
                r.correlators@.len() == i * ns,
                forall|k: int|
                    0 <= k < r.correlators@.len() ==> (#[trigger] r.correlators@[k]).wf(),
                forall|a: int, b: int|
                    0 <= a < i && 0 <= b < ns ==> r.has_fresh_correlator(
                        a,
                        b,
                        ns as int,
                        (#[trigger] fan_names@[a])@,
                        (#[trigger] sensor_names@[b])@,
                        *params,
                    ),
        {
            for j in 0..ns
                invariant
                    i < nf,
                    nf == fan_names@.len(),
                    ns == sensor_names@.len(),
                    0 < params.ccf_buffer_size <= usize::MAX / 16,
                    r == (ThermalSystem { correlators: r.correlators, ..start }),
                    r.correlators@.len() == i * ns + j,
                    forall|k: int|
                        0 <= k < r.correlators@.len() ==> (#[trigger] r.correlators@[k]).wf(),
                    forall|a: int, b: int|
                        (0 <= a < i && 0 <= b < ns) || (a == i && 0 <= b < j)
                            ==> r.has_fresh_correlator(
                            a,
                            b,
                            ns as int,
                            (#[trigger] fan_names@[a])@,
                            (#[trigger] sensor_names@[b])@,
                            *params,
                        ),
            {
                let ghost was = r;
                let c = CrossCorrelator::new(
                    fan_names[i].as_str(),
                    sensor_names[j].as_str(),
                    params.ccf_buffer_size,
                    params.ccf_max_lag,
                );
                r.correlators.push(c);
                proof {
                    assert forall|a: int, b: int|
                        (0 <= a < i && 0 <= b < ns) || (a == i && 0 <= b < j + 1) implies
                        r.has_fresh_correlator(
                        a,
                        b,
                        ns as int,
                        (#[trigger] fan_names@[a])@,
                        (#[trigger] sensor_names@[b])@,
                        *params,
                    ) by {
                        if a < i {
                            assert(0 <= a * ns && a * ns + ns <= i * ns) by (nonlinear_arith)
                                requires
                                    0 <= a < i,
                                    0 <= ns,
                            ;
                        }
                        if a < i || b < j {
                            assert(0 <= a * ns) by (nonlinear_arith)
                                requires
                                    0 <= a,
                                    0 <= ns,
                            ;
                            assert(was.has_fresh_correlator(
                                a,
                                b,
                                ns as int,
                                fan_names@[a]@,
                                sensor_names@[b]@,
                                *params,
                            ));
                        }
                    }
                }
            }
            proof {
                assert((i + 1) * ns == i * ns + ns) by (nonlinear_arith);
            }
        }
        r
    }

    /// Takes the system one tick further, with the temperatures of the sensors in
    /// thousandths of a degree Celsius and the PWM values of the fans.
    pub fn update(&mut self, sensor_temps: &NameMap<i32>, fan_pwms: &NameMap<u8>) -> (r: Due)
        requires
            old(self).wf(),
        ensures
            final(self).wf(),
            final(self).poll_interval_ms == old(self).poll_interval_ms,
            final(self).prev_pwms@ == fan_pwms@,
            final(self).tick == (if old(self).tick == u32::MAX {
                0
            } else {
                old(self).tick + 1
            }),
            r.solve == recompute_due(old(self).tick),
            final(self).correlators@.len() == old(self).correlators@.len(),
            forall|i: int|
                0 <= i < old(self).correlators@.len() ==> {
                    let before = #[trigger] old(self).correlators@[i];
                    let after = final(self).correlators@[i];
                    &&& after.has_seen(
                        before,
                        pwm_or_zero(fan_pwms@, before.fan_name@),
                        temp_or_zero(sensor_temps@, before.sensor_name@),
                    )
                    &&& after.held() == if recompute_due(old(self).tick) {
                        found(after.changes(), after.max_lag as int, before.held())
                    } else {
                        before.held()
                    }
                },
            ({
                let before = old(self).step_detector;
                let running = with_new_steps(
                    step_views(before.active@),
                    old(self).prev_pwms@,
                    *fan_pwms,
                    *sensor_temps,
                    before.step_threshold,
                    fan_pwms.entries@.len() as int,
                );
                let window = before.response_window as int;
                &&& step_views(final(self).step_detector.active@) == still_active(
                    running,
                    sensor_temps@,
                    window,
                )
                &&& recording_views(r.recordings@) == finished(running, sensor_temps@, window)
                &&& final(self).step_detector.completed == before.completed
                &&& final(self).step_detector.step_threshold == before.step_threshold
                &&& final(self).step_detector.response_window == before.response_window
            }),
            final(self).coupling.fan_names == old(self).coupling.fan_names,
            final(self).coupling.sensor_names == old(self).coupling.sensor_names,
            final(self).coupling.min_samples == old(self).coupling.min_samples,
            final(self).coupling.solutions == old(self).coupling.solutions,
            if old(self).coupling.only_remembers() {
                &&& final(self).coupling.samples == old(self).coupling.samples
                &&& final(self).coupling.xtx == old(self).coupling.xtx
                &&& final(self).coupling.xty == old(self).coupling.xty
                &&& final(self).coupling.ssy == old(self).coupling.ssy
            } else {
                final(self).coupling.has_added(old(self).coupling, fan_pwms@, sensor_temps@)
            },
            final(self).coupling.prev_pwms@ == old(self).coupling.prev_pwms@.union_prefer_right(
                fan_pwms@,
            ),
            final(self).coupling.prev_temps@ == old(self).coupling.prev_temps@.union_prefer_right(
                sensor_temps@,
            ),
            forall|name: Seq<char>| #[trigger]
                looked_up(final(self).integrals@, name) == match (
                    looked_up(old(self).integrals@, name),
                    looked_up(sensor_temps@, name),
                ) {
                    (Some(i), Some(t)) => Some(i.after(t, old(self).poll_interval_ms)),
                    (i, _) => i,
                },
    {
        let solve = self.tick > 0 && self.tick % RECOMPUTE_INTERVAL == 0;
        let n: usize = self.correlators.len();
        for i in 0..n
            invariant
                n == self.correlators@.len(),
                n == old(self).correlators@.len(),
                old(self).wf(),
                solve == recompute_due(old(self).tick),
                *self == (ThermalSystem { correlators: self.correlators, ..*old(self) }),
                forall|k: int| i <= k < n ==> #[trigger] self.correlators@[k] == old(
                    self,
                ).correlators@[k],
                forall|k: int| 0 <= k < n ==> (#[trigger] self.correlators@[k]).wf(),
                forall|k: int|
                    0 <= k < i ==> {
                        let before = #[trigger] old(self).correlators@[k];
                        let after = self.correlators@[k];
                        &&& after.has_seen(
                            before,
                            pwm_or_zero(fan_pwms@, before.fan_name@),
                            temp_or_zero(sensor_temps@, before.sensor_name@),
                        )
                        &&& after.held() == if solve {
                            found(after.changes(), after.max_lag as int, before.held())
                        } else {
                            before.held()
                        }
                    },
        {
            assert(self.correlators@[i as int] == old(self).correlators@[i as int]);
            let pwm: u8 = match fan_pwms.get(self.correlators[i].fan_name.as_str()) {
                Some(v) => v,
                None => 0,
            };
            let temp: i32 = match sensor_temps.get(self.correlators[i].sensor_name.as_str()) {
                Some(v) => v,
                None => 0,
            };
            self.correlators[i].update(pwm, temp);
            if solve {
                self.correlators[i].recompute();
            }
        }
        let recordings = self.step_detector.update(&self.prev_pwms, fan_pwms, sensor_temps);
        self.coupling.update(fan_pwms, sensor_temps);
        self.integrate(sensor_temps);
        self.prev_pwms = fan_pwms.copied();
        self.tick = if self.tick == 0xffff_ffff {
            0
        } else {
            self.tick + 1
        };
        Due { recordings, solve }
    }

    fn integrate(&mut self, sensor_temps: &NameMap<i32>)
        ensures
            *final(self) == (ThermalSystem { integrals: final(self).integrals, ..*old(self) }),
            forall|name: Seq<char>| #[trigger]
                looked_up(final(self).integrals@, name) == match (
                    looked_up(old(self).integrals@, name),
                    looked_up(sensor_temps@, name),
                ) {
                    (Some(i), Some(t)) => Some(i.after(t, old(self).poll_interval_ms)),
                    (i, _) => i,
                },
    {
        let n: usize = self.integrals.entries.len();
        let ghost before = self.integrals.entries@;
        let dt_ms: u64 = self.poll_interval_ms;
        for i in 0..n
            invariant
                n == before.len(),
                n == self.integrals.entries@.len(),
                before == old(self).integrals.entries@,
                dt_ms == old(self).poll_interval_ms,
                *self == (ThermalSystem { integrals: self.integrals, ..*old(self) }),
                forall|k: int| i <= k < n ==> #[trigger] self.integrals.entries@[k] == before[k],
                forall|k: int|
                    0 <= k < i ==> (#[trigger] self.integrals.entries@[k]).0@ == before[k].0@
                        && self.integrals.entries@[k].1 == integrated(
                        before[k].1,
                        before[k].0@,
                        sensor_temps@,
                        dt_ms,
                    ),
        {
            assert(self.integrals.entries@[i as int] == before[i as int]);
            let name = self.integrals.entries[i].0.clone();
            let mut value = self.integrals.entries[i].1;
            if let Some(t) = sensor_temps.get(name.as_str()) {
                value.update(t, dt_ms);
            }
            self.integrals.entries.set(i, (name, value));
        }
        assert forall|name: Seq<char>| #[trigger]
            looked_up(self.integrals@, name) == match (
                looked_up(old(self).integrals@, name),
                looked_up(sensor_temps@, name),
            ) {
                (Some(i), Some(t)) => Some(i.after(t, old(self).poll_interval_ms)),
                (i, _) => i,
            } by {
            lemma_integrated(before, self.integrals.entries@, sensor_temps@, dt_ms, name, 0);
        }
    }

    /// Keeps a fit of the sensor's response to the fan.
    pub fn keep_fit(&mut self, fan: &str, sensor: &str, fitted: FittedStep)
        requires
            old(self).wf(),
        ensures
            final(self).wf(),
            forall|f: Seq<char>, s: Seq<char>| #[trigger]
                final(self).step_detector.fits_of(f, s) == if f == fan@ && s == sensor@ {
                    old(self).step_detector.fits_of(f, s).push(fitted)
                } else {
                    old(self).step_detector.fits_of(f, s)
                },
            *final(self) == (ThermalSystem {
                step_detector: final(self).step_detector,
                ..*old(self)
            }),
            final(self).step_detector.active == old(self).step_detector.active,
            final(self).step_detector.step_threshold == old(self).step_detector.step_threshold,
            final(self).step_detector.response_window == old(self).step_detector.response_window,
    {
        self.step_detector.keep_fit(fan, sensor, fitted);
    }

    /// The full coupling matrix.
    pub fn coupling_matrix(&self) -> (r: Vec<CouplingResult>)
        requires
            self.wf(),
        ensures
            if self.coupling.samples < self.coupling.min_samples {
                r@.len() == 0
            } else {
                let nf = self.coupling.fan_names@.len() as int;
                &&& r@.len() == self.coupling.sensor_names@.len() * nf
                &&& forall|s: int, f: int|
                    0 <= s < self.coupling.sensor_names@.len() && 0 <= f < nf ==> {
                        let e = #[trigger] crate::coupling::entry_at(r@, s, f, nf);
                        &&& e.fan@ == self.coupling.fan_names@[f]@
                        &&& e.sensor@ == self.coupling.sensor_names@[s]@
                        &&& e.beta == self.coupling.solutions@[s].betas@[f]
                        &&& e.r_squared == self.coupling.solutions@[s].r_squared
                    }
            },
    {
        self.coupling.coupling_matrix()
    }

    /// The heat that each sensor has seen.
    pub fn thermal_integrals(&self) -> (r: Vec<IntegralResult>)
        ensures
            r@.len() == self.integrals.entries@.len(),
            forall|i: int|
                0 <= i < r@.len() ==> {
                    let (name, held) = self.integrals.entries@[i];
                    &&& (#[trigger] r@[i]).sensor@ == name@
                    &&& r@[i].integral == held.doubled
                    &&& r@[i].baseline == held.baseline
                },
    {
        let mut r: Vec<IntegralResult> = Vec::new();
        for i in 0..self.integrals.entries.len()
            invariant
                r@.len() == i,
                forall|k: int|
                    0 <= k < r@.len() ==> {
                        let (name, held) = self.integrals.entries@[k];
                        &&& (#[trigger] r@[k]).sensor@ == name@
                        &&& r@[k].integral == held.doubled
                        &&& r@[k].baseline == held.baseline
                    },
        {
            let entry = &self.integrals.entries[i];
            r.push(
                IntegralResult {
                    sensor: entry.0.clone(),
                    integral: entry.1.integral(),
                    baseline: entry.1.baseline(),
                },
            );
        }
        r
    }

    /// The correlations found so far that are worth telling.
    pub fn cross_correlations(&self) -> (r: Vec<CorrelationResult>)
        ensures
            correlation_views(r@) == correlations_of(
                self.correlators@,
                self.correlators@.len() as int,
            ),
    {
        let mut r: Vec<CorrelationResult> = Vec::new();
        assert(correlation_views(r@) =~= correlations_of(self.correlators@, 0));
        for i in 0..self.correlators.len()
            invariant
                correlation_views(r@) == correlations_of(self.correlators@, i as int),
        {
            let c = &self.correlators[i];
            if let Some(peak) = c.peak_ccf() {
                if peak.is_notable() {
                    let ghost was = r@;
                    r.push(
                        CorrelationResult {
                            fan: c.fan_name.clone(),
                            sensor: c.sensor_name.clone(),
                            peak_ccf: peak,
                            optimal_lag: c.optimal_lag(),
                        },
                    );
                    assert(correlation_views(r@) =~= correlation_views(was).push(
                        (c.fan_name@, c.sensor_name@, peak, c.optimal_lag),
                    ));
                }
            }
        }
        r
    }
}

/// What an integral becomes with the temperature that its sensor has, if any.
pub open spec fn integrated(
    i: ThermalIntegral,
    name: Seq<char>,
    temps: Map<Seq<char>, i32>,
    dt_ms: u64,
) -> ThermalIntegral {
    match looked_up(temps, name) {
        Some(t) => i.after(t, dt_ms),
        None => i,
    }
}

proof fn lemma_integrated(
    before: Seq<(String, ThermalIntegral)>,
    after: Seq<(String, ThermalIntegral)>,
    temps: Map<Seq<char>, i32>,
    dt_ms: u64,
    name: Seq<char>,
    from: int,
)
    requires
        0 <= from,
        before.len() == after.len(),
        forall|k: int|
            0 <= k < before.len() ==> (#[trigger] after[k]).0@ == before[k].0@ && after[k].1
                == integrated(before[k].1, before[k].0@, temps, dt_ms),
    ensures
        looked_up(map_from(after, from), name) == match looked_up(map_from(before, from), name) {
            Some(i) => Some(integrated(i, name, temps, dt_ms)),
            None => None,
        },
    decreases before.len() - from,
{
    if from < before.len() {
        lemma_integrated(before, after, temps, dt_ms, name, from + 1);
        assert(after[from].0@ == before[from].0@);
    }
}

fn fresh_integrals(sensor_names: &Vec<String>) -> (r: NameMap<ThermalIntegral>)
    ensures
        forall|name: Seq<char>| #[trigger]
            looked_up(r@, name) == if text::views(sensor_names@).contains(name) {
                Some(
                    ThermalIntegral {
                        baseline: BASELINE,
                        doubled: 0,
                        prev_excess: None,
                        cooldown_ticks: 0,
                        cooldown_threshold: COOLDOWN,
                    },
                )
            } else {
                None
            },
{
    let fresh = ThermalIntegral::new(BASELINE, COOLDOWN);
    let mut r: NameMap<ThermalIntegral> = NameMap::new();
    let ghost names = text::views(sensor_names@);
    for i in 0..sensor_names.len()
        invariant
            names == text::views(sensor_names@),
            fresh == (ThermalIntegral {
                baseline: BASELINE,
                doubled: 0,
                prev_excess: None,
                cooldown_ticks: 0,
                cooldown_threshold: COOLDOWN,
            }),
            forall|name: Seq<char>| #[trigger]
                looked_up(r@, name) == if names.take(i as int).contains(name) {
                    Some(fresh)
                } else {
                    None
                },
    {
        let ghost was = r@;
        r.put(sensor_names[i].as_str(), fresh);
        assert forall|name: Seq<char>| #[trigger]
            looked_up(r@, name) == if names.take(i + 1).contains(name) {
                Some(fresh)
            } else {
                None
            } by {
            assert(names.take(i + 1) =~= names.take(i as int).push(names[i as int]));
            assert(names[i as int] == sensor_names@[i as int]@);
            if name == names[i as int] {
                assert(names.take(i + 1)[i as int] == name);
            } else {
                assert(looked_up(r@, name) == looked_up(was, name));
                if names.take(i as int).contains(name) {
                    let k = choose|k: int| 0 <= k < i && names.take(i as int)[k] == name;
                    assert(names.take(i + 1)[k] == name);
                }
                let more = names.take(i + 1);
                if more.contains(name) {
                    let k = choose|k: int| 0 <= k < more.len() && more[k] == name;
                    assert(names.take(i as int)[k] == name);
                }
            }
        }
    }
    assert(names.take(names.len() as int) =~= names);
    r
}

pub open spec fn correlation_views(
    r: Seq<CorrelationResult>,
) -> Seq<(Seq<char>, Seq<char>, Peak, usize)> {
    r.map_values(|c: CorrelationResult| (c.fan@, c.sensor@, c.peak_ccf, c.optimal_lag))
}

/// The notable correlations that the first `n` correlators have found.
pub open spec fn correlations_of(c: Seq<CrossCorrelator>, n: int) -> Seq<
    (Seq<char>, Seq<char>, Peak, usize),
>
    decreases n,
{
    if n <= 0 {
        Seq::empty()
    } else {
        let rest = correlations_of(c, n - 1);
        match c[n - 1].peak {
            Some(peak) => if peak.notable() {
                rest.push((c[n - 1].fan_name@, c[n - 1].sensor_name@, peak, c[n - 1].optimal_lag))
            } else {
                rest
            },
            None => rest,
        }
    }
}

// ---- Laws ----

/// The correlations told are those of the correlators that have found one which is
/// more than a hundredth away from zero, all of them, in their order.
pub proof fn law_correlations_told(c: Seq<CrossCorrelator>)
    ensures
        correlations_of(c, c.len() as int) == c.filter(
            |x: CrossCorrelator| x.peak matches Some(p) && p.notable(),
        ).map_values(
            |x: CrossCorrelator| (x.fan_name@, x.sensor_name@, x.peak->Some_0, x.optimal_lag),
        ),
{
    assert(c.take(c.len() as int) =~= c);
    lemma_correlations_of(c, c.len() as int);
}

proof fn lemma_correlations_of(c: Seq<CrossCorrelator>, n: int)
    requires
        0 <= n <= c.len(),
    ensures
        correlations_of(c, n) == c.take(n).filter(
            |x: CrossCorrelator| x.peak matches Some(p) && p.notable(),
        ).map_values(
            |x: CrossCorrelator| (x.fan_name@, x.sensor_name@, x.peak->Some_0, x.optimal_lag),
        ),
    decreases n,
{
    reveal(Seq::filter);
    let pred = |x: CrossCorrelator| x.peak matches Some(p) && p.notable();
    let told = |x: CrossCorrelator|
        (x.fan_name@, x.sensor_name@, x.peak->Some_0, x.optimal_lag);
    let all = c.take(n);
    if n > 0 {
        lemma_correlations_of(c, n - 1);
        let rest = c.take(n - 1);
        assert(all.drop_last() =~= rest);
        if pred(all.last()) {
            assert(rest.filter(pred).push(all.last()).map_values(told) =~= rest.filter(
                pred,
            ).map_values(told).push(told(all.last())));
        }
    }
    assert(correlations_of(c, n) =~= all.filter(pred).map_values(told));
}

/// A recomputation is due at every thirtieth tick, and not at the first of all.
pub proof fn law_recompute_due(tick: u32)
    ensures
        recompute_due(tick) <==> exists|k: int| k >= 1 && tick == #[trigger] (30 * k),
{
    if recompute_due(tick) {
        let k = tick as int / 30;
        assert(tick == 30 * k);
    }
}

/// A value that is not known counts as nought, and one that is as itself.
pub proof fn law_or_zero(
    pwms: Map<Seq<char>, u8>,
    temps: Map<Seq<char>, i32>,
    name: Seq<char>,
)
    ensures
        pwms.contains_key(name) ==> pwm_or_zero(pwms, name) == pwms[name],
        !pwms.contains_key(name) ==> pwm_or_zero(pwms, name) == 0,
        temps.contains_key(name) ==> temp_or_zero(temps, name) == temps[name],
        !temps.contains_key(name) ==> temp_or_zero(temps, name) == 0,
{
}

/// A sensor's heat is integrated where its temperature is known, and stays as it is
/// where not: two equal readings above the baseline add twice their excess for the time
/// between them.
pub proof fn law_integrated(
    i: ThermalIntegral,
    name: Seq<char>,
    temps: Map<Seq<char>, i32>,
    dt_ms: u64,
)
    ensures
        !temps.contains_key(name) ==> integrated(i, name, temps, dt_ms) == i,
        temps.contains_key(name) && temps[name] > i.baseline && i.prev_excess == Some(
            (temps[name] - i.baseline) as u32,
        ) && i.doubled + 2 * (temps[name] - i.baseline) * dt_ms <= u128::MAX ==> integrated(
            i,
            name,
            temps,
            dt_ms,
        ).doubled == i.doubled + 2 * (temps[name] - i.baseline) * dt_ms,
        temps.contains_key(name) ==> integrated(i, name, temps, dt_ms).baseline == i.baseline,
{
    if temps.contains_key(name) {
        let e = temps[name] - i.baseline;
        assert((e + e) * dt_ms == 2 * e * dt_ms) by (nonlinear_arith);
    }
}

/// The baseline of the integrals is 40 degrees, and thirty readings at or below it
/// end one.
pub proof fn law_limits()
    ensures
        BASELINE == 40_000,
        COOLDOWN == 30,
{
}

} // verus!
