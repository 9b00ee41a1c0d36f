//! How the temperature of each sensor follows the PWM values of all fans: the
//! sums behind a multivariate least-squares fit, kept exactly.
use crate::names::{looked_up, NameMap};
use crate::scalar::Scalar;
use vstd::prelude::*;

verus! {

/// The most observations that are taken in.
pub const MAX_SAMPLES: u64 = 0x1000_0000_0000_0000;

/// A solved fit for one sensor: degrees per +10 PWM of each fan, and how much of
/// the changes the fit explains.
#[derive(Debug)]
pub struct Solution {
    pub betas: Vec<Scalar>,
    pub r_squared: Scalar,
}

/// One coefficient of the coupling matrix.
#[derive(Debug, Clone)]
pub struct CouplingResult {
    pub fan: String,
    pub sensor: String,
    /// Degrees Celsius per +10 PWM.
    pub beta: Scalar,
    pub r_squared: Scalar,
}

/// Estimates how each sensor's temperature changes with the changes of every
/// fan's PWM value.
#[derive(Debug)]
pub struct CouplingEstimator {
    pub fan_names: Vec<String>,
    pub sensor_names: Vec<String>,
    /// Sums of products of the PWM changes of two fans, row by row.
    pub xtx: Vec<i128>,
    /// By sensor: sums of products of a fan's PWM change and the sensor's
    /// temperature change in thousandths of a degree.
    pub xty: Vec<Vec<i128>>,
    /// By sensor: sum of squares of temperature changes.
    pub ssy: Vec<i128>,
    pub samples: u64,
    pub min_samples: usize,
    pub solutions: Vec<Solution>,
    pub prev_pwms: NameMap<u8>,
    pub prev_temps: NameMap<i32>,
}

/// The PWM value of `name`, 0 where there is none.
pub open spec fn pwm_in(m: Map<Seq<char>, u8>, name: Seq<char>) -> int {
    match looked_up(m, name) {
        Some(v) => v as int,
        None => 0,
    }
}

/// The temperature of `name`, 0 where there is none.
pub open spec fn temp_in(m: Map<Seq<char>, i32>, name: Seq<char>) -> int {
    match looked_up(m, name) {
        Some(v) => v as int,
        None => 0,
    }
}

fn pwm_of(m: &NameMap<u8>, name: &str) -> (r: i64)
    ensures
        r == pwm_in(m@, name@),
        0 <= r <= 255,
{
    match m.get(name) {
        Some(v) => v as i64,
        None => 0,
    }
}

fn temp_of(m: &NameMap<i32>, name: &str) -> (r: i64)
    ensures
        r == temp_in(m@, name@),
        -0x8000_0000 <= r <= 0x7fff_ffff,
{
    match m.get(name) {
        Some(v) => v as i64,
        None => 0,
    }
}

impl CouplingEstimator {
    pub open spec fn wf(self) -> bool {
        &&& self.xtx@.len() == self.fan_names@.len() * self.fan_names@.len()
        &&& self.xty@.len() == self.sensor_names@.len()
        &&& self.ssy@.len() == self.sensor_names@.len()
        &&& self.solutions@.len() == self.sensor_names@.len()
        &&& self.samples <= MAX_SAMPLES
        &&& forall|s: int|
            0 <= s < self.xty@.len() ==> (#[trigger] self.xty@[s])@.len() == self.fan_names@.len()
        &&& forall|s: int|
            0 <= s < self.solutions@.len() ==> (#[trigger] self.solutions@[s]).betas@.len()
                == self.fan_names@.len()
        &&& forall|k: int|
            0 <= k < self.xtx@.len() ==> -(self.samples * 65025) <= #[trigger] self.xtx@[k]
                <= self.samples * 65025
        &&& forall|s: int, i: int|
            0 <= s < self.xty@.len() && 0 <= i < self.fan_names@.len() ==> -(self.samples
                * 0x100_0000_0000) <= #[trigger] self.xty@[s]@[i] <= self.samples
                * 0x100_0000_0000
        &&& forall|s: int|
            0 <= s < self.ssy@.len() ==> 0 <= #[trigger] self.ssy@[s] <= self.samples
                * 0x1_0000_0000_0000_0000
    }

    /// The sum of products of the PWM changes of fans `i` and `j`.
    pub open spec fn product(self, i: int, j: int) -> int {
        self.xtx@[i * self.fan_names@.len() + j] as int
    }

    /// By how much the PWM value of fan `i` has changed.
    pub open spec fn pwm_change(self, pwms: Map<Seq<char>, u8>, i: int) -> int {
        pwm_in(pwms, self.fan_names@[i]@) - pwm_in(self.prev_pwms@, self.fan_names@[i]@)
    }

    /// By how much the temperature of sensor `s` has changed.
    pub open spec fn temp_change(self, temps: Map<Seq<char>, i32>, s: int) -> int {
        temp_in(temps, self.sensor_names@[s]@) - temp_in(
            self.prev_temps@,
            self.sensor_names@[s]@,
        )
    }

    /// Whether an observation is only remembered: there is none before it to
    /// compare it with, or no more can be taken in.
    pub open spec fn only_remembers(self) -> bool {
        self.prev_pwms.entries@.len() == 0 || self.samples >= MAX_SAMPLES
    }

    /// Whether the sums are those of `before` with the observation added.
    pub open spec fn has_added(
        self,
        before: CouplingEstimator,
        pwms: Map<Seq<char>, u8>,
        temps: Map<Seq<char>, i32>,
    ) -> bool {
        &&& self.samples == before.samples + 1
        &&& forall|i: int, j: int|
            0 <= i < self.fan_names@.len() && 0 <= j < self.fan_names@.len()
                ==> #[trigger] self.product(i, j) == before.product(i, j) + before.pwm_change(
                pwms,
                i,
            ) * before.pwm_change(pwms, j)
        &&& forall|s: int, i: int|
            0 <= s < self.sensor_names@.len() && 0 <= i < self.fan_names@.len()
                ==> #[trigger] self.xty@[s]@[i] == before.xty@[s]@[i] + before.pwm_change(pwms, i)
                * before.temp_change(temps, s)
        &&& forall|s: int|
            0 <= s < self.sensor_names@.len() ==> #[trigger] self.ssy@[s] == before.ssy@[s]
                + before.temp_change(temps, s) * before.temp_change(temps, s)
    }

    pub fn new(
        fan_names: &Vec<String>,
        sensor_names: &Vec<String>,
        min_samples: usize,
    ) -> (r: Self)
        requires
            fan_names@.len() * fan_names@.len() <= usize::MAX,
        ensures
            r.wf(),
            crate::text::views(r.fan_names@) == crate::text::views(fan_names@),
            crate::text::views(r.sensor_names@) == crate::text::views(sensor_names@),
            r.min_samples == min_samples,
            r.samples == 0,
            forall|k: int| 0 <= k < r.xtx@.len() ==> #[trigger] r.xtx@[k] == 0,
            forall|s: int, i: int|
                0 <= s < sensor_names@.len() && 0 <= i < fan_names@.len()
                    ==> #[trigger] r.xty@[s]@[i] == 0,
            forall|s: int| 0 <= s < sensor_names@.len() ==> #[trigger] r.ssy@[s] == 0,
            r.prev_pwms.entries@.len() == 0,
            r.prev_temps@ == Map::<Seq<char>, i32>::empty(),
            forall|s: int, i: int|
                0 <= s < sensor_names@.len() && 0 <= i < fan_names@.len()
                    ==> #[trigger] r.solutions@[s].betas@[i] == (Scalar { bits: 0 }),
            forall|s: int|
                0 <= s < sensor_names@.len() ==> (#[trigger] r.solutions@[s]).r_squared == (
                Scalar { bits: 0 }),
    {
        let nf: usize = fan_names.len();
        let ns: usize = sensor_names.len();
        let xtx = zeros(nf * nf);
        let mut xty: Vec<Vec<i128>> = Vec::new();
        let mut solutions: Vec<Solution> = Vec::new();
        for s in 0..ns
            invariant
                nf == fan_names@.len(),
                xty@.len() == s,
                solutions@.len() == s,
                forall|k: int| 0 <= k < s ==> (#[trigger] xty@[k])@.len() == nf,
                forall|k: int, i: int|
                    0 <= k < s && 0 <= i < nf ==> #[trigger] xty@[k]@[i] == 0,
                forall|k: int| 0 <= k < s ==> (#[trigger] solutions@[k]).betas@.len() == nf,
                forall|k: int, i: int|
                    0 <= k < s && 0 <= i < nf ==> #[trigger] solutions@[k].betas@[i] == (
                    Scalar { bits: 0 }),
                forall|k: int|
                    0 <= k < s ==> (#[trigger] solutions@[k]).r_squared == (Scalar { bits: 0 }),
        {
            xty.push(zeros(nf));
            solutions.push(Solution { betas: no_betas(nf), r_squared: Scalar { bits: 0 } });
        }
        CouplingEstimator {
            fan_names: copy_names(fan_names),
            sensor_names: copy_names(sensor_names),
            xtx,
            xty,
            ssy: zeros(ns),
            samples: 0,
            min_samples,
            solutions,
            prev_pwms: NameMap::new(),
            prev_temps: NameMap::new(),
        }
    }

    fn pwm_changes(&self, pwms: &NameMap<u8>) -> (r: Vec<i64>)
        ensures
            r@.len() == self.fan_names@.len(),
            forall|i: int|
                0 <= i < r@.len() ==> #[trigger] r@[i] == self.pwm_change(pwms@, i) && -255 <= r@[i]
                    <= 255,
    {
        let mut r: Vec<i64> = Vec::new();
        for i in 0..self.fan_names.len()
            invariant
                r@.len() == i,
                forall|k: int|
                    0 <= k < i ==> #[trigger] r@[k] == self.pwm_change(pwms@, k) && -255 <= r@[k]
                        <= 255,
        {
            let name = self.fan_names[i].as_str();
            r.push(pwm_of(pwms, name) - pwm_of(&self.prev_pwms, name));
        }
        r
    }

    /// Takes in one observation: the PWM values of the fans and the temperatures
    /// of the sensors in thousandths of a degree Celsius.
    pub fn update(&mut self, fan_pwms: &NameMap<u8>, sensor_temps: &NameMap<i32>)
        requires
            old(self).wf(),
        ensures
            final(self).wf(),
            final(self).fan_names == old(self).fan_names,
            final(self).sensor_names == old(self).sensor_names,
            final(self).min_samples == old(self).min_samples,
            final(self).solutions == old(self).solutions,
            final(self).prev_pwms@ == old(self).prev_pwms@.union_prefer_right(fan_pwms@),
            final(self).prev_temps@ == old(self).prev_temps@.union_prefer_right(sensor_temps@),
            if old(self).only_remembers() {
                &&& final(self).samples == old(self).samples
                &&& final(self).xtx == old(self).xtx
                &&& final(self).xty == old(self).xty
                &&& final(self).ssy == old(self).ssy
            } else {
                final(self).has_added(*old(self), fan_pwms@, sensor_temps@)
            },
    {
        if self.prev_pwms.entries.len() > 0 && self.samples < MAX_SAMPLES {
            let dpwm = self.pwm_changes(fan_pwms);
            self.add_products(&dpwm);
            let ghost mid = *self;
            let ns: usize = self.sensor_names.len();
            for s in 0..ns
                invariant
                    ns == self.sensor_names@.len(),
                    old(self).wf(),
                    old(self).samples < MAX_SAMPLES,
                    self.fan_names == old(self).fan_names,
                    self.sensor_names == old(self).sensor_names,
                    self.min_samples == old(self).min_samples,
                    self.solutions == old(self).solutions,
                    self.prev_pwms == old(self).prev_pwms,
                    self.prev_temps == old(self).prev_temps,
                    self.samples == old(self).samples,
                    self.xtx == mid.xtx,
                    self.xty@.len() == ns,
                    self.ssy@.len() == ns,
                    dpwm@.len() == self.fan_names@.len(),
                    forall|i: int|
                        0 <= i < dpwm@.len() ==> #[trigger] dpwm@[i] == old(self).pwm_change(
                            fan_pwms@,
                            i,
                        ) && -255 <= dpwm@[i] <= 255,
                    forall|k: int|
                        0 <= k < ns ==> (#[trigger] self.xty@[k])@.len() == self.fan_names@.len(),
                    forall|k: int|
                        s <= k < ns ==> (#[trigger] self.xty@[k])@ == old(self).xty@[k]@,
                    forall|k: int, i: int|
                        0 <= k < s && 0 <= i < self.fan_names@.len()
                            ==> #[trigger] self.xty@[k]@[i] == old(self).xty@[k]@[i]
                            + old(self).pwm_change(fan_pwms@, i) * old(self).temp_change(
                            sensor_temps@,
                            k,
                        ) && -((old(self).samples + 1) * 0x100_0000_0000) <= self.xty@[k]@[i] <= (
                        old(self).samples + 1) * 0x100_0000_0000,
                    forall|k: int| s <= k < ns ==> #[trigger] self.ssy@[k] == old(self).ssy@[k],
                    forall|k: int|
                        0 <= k < s ==> #[trigger] self.ssy@[k] == old(self).ssy@[k] + old(
                            self,
                        ).temp_change(sensor_temps@, k) * old(self).temp_change(sensor_temps@, k)
                            && 0 <= self.ssy@[k] <= (old(self).samples + 1)
                            * 0x1_0000_0000_0000_0000,
            {
                let name = self.sensor_names[s].as_str();
                let dt: i64 = temp_of(sensor_temps, name) - temp_of(&self.prev_temps, name);
                assert(dt == old(self).temp_change(sensor_temps@, s as int));
                let row = add_row(
                    &self.xty[s],
                    &dpwm,
                    dt,
                    Ghost(old(self).samples as int),
                );
                assert(0 <= dt * dt <= 0x1_0000_0000_0000_0000) by (nonlinear_arith)
                    requires
                        -0xffff_ffff <= dt <= 0xffff_ffff,
                ;
                let wide: i128 = dt as i128;
                assert(old(self).ssy@[s as int] <= MAX_SAMPLES * 0x1_0000_0000_0000_0000);
                let square: i128 = self.ssy[s] + wide * wide;
                self.xty.set(s, row);
                self.ssy.set(s, square);
            }
            self.samples = self.samples + 1;
            assert(self.has_added(*old(self), fan_pwms@, sensor_temps@)) by {
                assert forall|i: int, j: int|
                    0 <= i < self.fan_names@.len() && 0 <= j < self.fan_names@.len() implies
                    #[trigger] self.product(i, j) == old(self).product(i, j) + old(
                    self,
                ).pwm_change(fan_pwms@, i) * old(self).pwm_change(fan_pwms@, j) by {
                    assert(mid.product(i, j) == old(self).product(i, j) + dpwm@[i] * dpwm@[j]);
                }
            }
        }
        let ghost done = *self;
        self.prev_pwms.put_all(fan_pwms);
        self.prev_temps.put_all(sensor_temps);
        proof {
            if !old(self).only_remembers() {
                assert forall|i: int, j: int|
                    0 <= i < self.fan_names@.len() && 0 <= j < self.fan_names@.len() implies
                    #[trigger] self.product(i, j) == old(self).product(i, j) + old(
                    self,
                ).pwm_change(fan_pwms@, i) * old(self).pwm_change(fan_pwms@, j) by {
                    assert(done.product(i, j) == self.product(i, j));
                }
            }
        }
    }

    fn add_products(&mut self, dpwm: &Vec<i64>)
        requires
            old(self).wf(),
            old(self).samples < MAX_SAMPLES,
            dpwm@.len() == old(self).fan_names@.len(),
            forall|i: int| 0 <= i < dpwm@.len() ==> -255 <= #[trigger] dpwm@[i] <= 255,
        ensures
            final(self).xtx@.len() == old(self).xtx@.len(),
            *final(self) == (CouplingEstimator { xtx: final(self).xtx, ..*old(self) }),
            forall|i: int, j: int|
                0 <= i < dpwm@.len() && 0 <= j < dpwm@.len() ==> #[trigger] final(self).product(
                    i,
                    j,
                ) == old(self).product(i, j) + dpwm@[i] * dpwm@[j],
            forall|k: int|
                0 <= k < final(self).xtx@.len() ==> -((old(self).samples + 1) * 65025)
                    <= #[trigger] final(self).xtx@[k] <= (old(self).samples + 1) * 65025,
    {
        let nf: usize = self.fan_names.len();
        let total: usize = self.xtx.len();
        for i in 0..nf
            invariant
                nf == self.fan_names@.len(),
                nf == dpwm@.len(),
                total == nf * nf,
                total == self.xtx@.len(),
                old(self).wf(),
                old(self).samples < MAX_SAMPLES,
                *self == (CouplingEstimator { xtx: self.xtx, ..*old(self) }),
                forall|a: int| 0 <= a < dpwm@.len() ==> -255 <= #[trigger] dpwm@[a] <= 255,
                forall|a: int, b: int|
                    0 <= a < i && 0 <= b < nf ==> #[trigger] self.product(a, b) == old(
                        self,
                    ).product(a, b) + dpwm@[a] * dpwm@[b],
                forall|k: int|
                    i * nf <= k < total ==> #[trigger] self.xtx@[k] == old(self).xtx@[k],
                forall|k: int|
                    0 <= k < total ==> -((old(self).samples + 1) * 65025)
                        <= #[trigger] self.xtx@[k] <= (old(self).samples + 1) * 65025,
        {
            for j in 0..nf
                invariant
                    nf == self.fan_names@.len(),
                    nf == dpwm@.len(),
                    i < nf,
                    total == nf * nf,
                    total == self.xtx@.len(),
                    old(self).wf(),
                    old(self).samples < MAX_SAMPLES,
                    *self == (CouplingEstimator { xtx: self.xtx, ..*old(self) }),
                    forall|a: int| 0 <= a < dpwm@.len() ==> -255 <= #[trigger] dpwm@[a] <= 255,
                    forall|a: int, b: int|
                        0 <= a < i && 0 <= b < nf ==> #[trigger] self.product(a, b) == old(
                            self,
                        ).product(a, b) + dpwm@[a] * dpwm@[b],
                    forall|b: int|
                        0 <= b < j ==> #[trigger] self.product(i as int, b) == old(
                            self,
                        ).product(i as int, b) + dpwm@[i as int] * dpwm@[b],
                    forall|k: int|
                        i * nf + j <= k < total ==> #[trigger] self.xtx@[k] == old(self).xtx@[k],
                    forall|k: int|
                        0 <= k < total ==> -((old(self).samples + 1) * 65025)
                            <= #[trigger] self.xtx@[k] <= (old(self).samples + 1) * 65025,
            {
                proof {
                    lemma_place(i as int, j as int, nf as int);
                }
                let k: usize = i * nf + j;
                let a: i128 = dpwm[i] as i128;
                let b: i128 = dpwm[j] as i128;
                assert(-65025 <= a * b <= 65025) by (nonlinear_arith)
                    requires
                        -255 <= a <= 255,
                        -255 <= b <= 255,
                ;
                let ghost was = *self;
                assert(self.xtx@[k as int] == old(self).xtx@[k as int]);
                let sum: i128 = self.xtx[k] + a * b;
                self.xtx.set(k, sum);
                proof {
                    assert forall|c: int, d: int| 0 <= c < i && 0 <= d < nf implies
                        #[trigger] self.product(c, d) == old(self).product(c, d) + dpwm@[c]
                        * dpwm@[d] by {
                        lemma_place(c, d, nf as int);
                        lemma_rows(c, i as int, nf as int);
                        assert(was.product(c, d) == old(self).product(c, d) + dpwm@[c]
                            * dpwm@[d]);
                    }
                    assert forall|d: int| 0 <= d < j + 1 implies #[trigger] self.product(
                        i as int,
                        d,
                    ) == old(self).product(i as int, d) + dpwm@[i as int] * dpwm@[d] by {
                        if d < j {
                            assert(was.product(i as int, d) == old(self).product(i as int, d)
                                + dpwm@[i as int] * dpwm@[d]);
                        }
                    }
                }
            }
            proof {
                assert((i + 1) * nf == i * nf + nf) by (nonlinear_arith);
            }
        }
    }

    /// Whether there are observations enough to solve for the coefficients.
    pub fn is_solvable(&self) -> (r: bool)
        ensures
            r == (self.samples >= self.min_samples),
    {
        self.samples >= self.min_samples as u64
    }

    /// Keeps the solution for one sensor.
    pub fn keep_solution(&mut self, sensor: usize, betas: Vec<Scalar>, r_squared: Scalar)
        requires
            old(self).wf(),
            sensor < old(self).sensor_names@.len(),
            betas@.len() == old(self).fan_names@.len(),
        ensures
            final(self).wf(),
            final(self).solutions@ == old(self).solutions@.update(
                sensor as int,
                Solution { betas, r_squared },
            ),
            *final(self) == (CouplingEstimator {
                solutions: final(self).solutions,
                ..*old(self)
            }),
    {
        self.solutions.set(sensor, Solution { betas, r_squared });
    }

    /// The coupling matrix as a flat list, sensor by sensor; empty before there
    /// are observations enough.
    pub fn coupling_matrix(&self) -> (r: Vec<CouplingResult>)
        requires
            self.wf(),
        ensures
            if self.samples < self.min_samples {
                r@.len() == 0
            } else {
                &&& r@.len() == self.sensor_names@.len() * self.fan_names@.len()
                &&& forall|s: int, f: int|
                    0 <= s < self.sensor_names@.len() && 0 <= f < self.fan_names@.len() ==> {
                        let e = #[trigger] entry_at(r@, s, f, self.fan_names@.len() as int);
                        &&& e.fan@ == self.fan_names@[f]@
                        &&& e.sensor@ == self.sensor_names@[s]@
                        &&& e.beta == self.solutions@[s].betas@[f]
                        &&& e.r_squared == self.solutions@[s].r_squared
                    }
            },
    {
        let mut r: Vec<CouplingResult> = Vec::new();
        if !self.is_solvable() {
            return r;
        }
        let nf: usize = self.fan_names.len();
        let ns: usize = self.sensor_names.len();
        assert(0 * nf == 0) by (nonlinear_arith);
        for s in 0..ns
            invariant
                self.wf(),
                nf == self.fan_names@.len(),
                ns == self.sensor_names@.len(),
                r@.len() == s * nf,
                forall|k: int, f: int|
                    0 <= k < s && 0 <= f < nf ==> {
                        let e = #[trigger] entry_at(r@, k, f, nf as int);
                        &&& e.fan@ == self.fan_names@[f]@
                        &&& e.sensor@ == self.sensor_names@[k]@
                        &&& e.beta == self.solutions@[k].betas@[f]
                        &&& e.r_squared == self.solutions@[k].r_squared
                    },
        {
            for f in 0..nf
                invariant
                    self.wf(),
                    nf == self.fan_names@.len(),
                    ns == self.sensor_names@.len(),
                    s < ns,
                    r@.len() == s * nf + f,
                    forall|k: int, g: int|
                        (0 <= k < s && 0 <= g < nf) || (k == s && 0 <= g < f) ==> {
                            let e = #[trigger] entry_at(r@, k, g, nf as int);
                            &&& e.fan@ == self.fan_names@[g]@
                            &&& e.sensor@ == self.sensor_names@[k]@
                            &&& e.beta == self.solutions@[k].betas@[g]
                            &&& e.r_squared == self.solutions@[k].r_squared
                        },
            {
                let ghost was = r@;
                r.push(
                    CouplingResult {
                        fan: self.fan_names[f].clone(),
                        sensor: self.sensor_names[s].clone(),
                        beta: self.solutions[s].betas[f],
                        r_squared: self.solutions[s].r_squared,
                    },
                );
                proof {
                    assert forall|k: int, g: int|
                        (0 <= k < s && 0 <= g < nf) || (k == s && 0 <= g < f + 1) implies {
                        let e = #[trigger] entry_at(r@, k, g, nf as int);
                        &&& e.fan@ == self.fan_names@[g]@
                        &&& e.sensor@ == self.sensor_names@[k]@
                        &&& e.beta == self.solutions@[k].betas@[g]
                        &&& e.r_squared == self.solutions@[k].r_squared
                    } by {
                        if k < s {
                            lemma_place_small(k, g, nf as int);
                            lemma_rows(k, s as int, nf as int);
                        }
                        if k < s || g < f {
                            assert(entry_at(r@, k, g, nf as int) == entry_at(
                                was,
                                k,
                                g,
                                nf as int,
                            )) by {
                                assert(0 <= k * nf) by (nonlinear_arith)
                                    requires
                                        0 <= k,
                                        0 <= nf,
                                ;
                            }
                        }
                    }
                }
            }
            proof {
                assert((s + 1) * nf == s * nf + nf) by (nonlinear_arith);
            }
        }
        r
    }
}

/// The entry for sensor `s` and fan `f` in a flat list with `nf` fans.
pub open spec fn entry_at(r: Seq<CouplingResult>, s: int, f: int, nf: int) -> CouplingResult {
    r[s * nf + f]
}

proof fn lemma_place(i: int, j: int, n: int)
    requires
        0 <= i < n,
        0 <= j < n,
    ensures
        0 <= i * n,
        i * n + j < n * n,
{
    assert(0 <= i * n && i * n + j < n * n) by (nonlinear_arith)
        requires
            0 <= i < n,
            0 <= j < n,
    ;
}

proof fn lemma_place_small(i: int, j: int, n: int)
    requires
        0 <= i,
        0 <= j < n,
    ensures
        0 <= i * n,
        i * n + j < i * n + n,
{
    assert(0 <= i * n) by (nonlinear_arith)
        requires
            0 <= i,
            0 <= n,
    ;
}

proof fn lemma_rows(a: int, b: int, n: int)
    requires
        a < b,
        0 <= n,
    ensures
        a * n + n <= b * n,
{
    assert(a * n + n <= b * n) by (nonlinear_arith)
        requires
            a < b,
            0 <= n,
    ;
}

fn zeros(n: usize) -> (r: Vec<i128>)
    ensures
        r@.len() == n,
        forall|k: int| 0 <= k < n ==> #[trigger] r@[k] == 0,
{
    let mut r: Vec<i128> = Vec::new();
    for i in 0..n
        invariant
            r@.len() == i,
            forall|k: int| 0 <= k < i ==> #[trigger] r@[k] == 0,
    {
        r.push(0);
    }
    r
}

fn no_betas(n: usize) -> (r: Vec<Scalar>)
    ensures
        r@.len() == n,
        forall|k: int| 0 <= k < n ==> #[trigger] r@[k] == (Scalar { bits: 0 }),
{
    let mut r: Vec<Scalar> = Vec::new();
    for i in 0..n
        invariant
            r@.len() == i,
            forall|k: int| 0 <= k < i ==> #[trigger] r@[k] == (Scalar { bits: 0 }),
    {
        r.push(Scalar { bits: 0 });
    }
    r
}

/// A copy of the names.
pub fn copy_names(names: &Vec<String>) -> (r: Vec<String>)
    ensures
        crate::text::views(r@) == crate::text::views(names@),
        r@.len() == names@.len(),
{
    let mut r: Vec<String> = Vec::new();
    for i in 0..names.len()
        invariant
            r@.len() == i,
            forall|k: int| 0 <= k < i ==> (#[trigger] r@[k])@ == names@[k]@,
    {
        r.push(names[i].clone());
    }
    assert(crate::text::views(r@) =~= crate::text::views(names@));
    r
}

fn add_row(row: &Vec<i128>, dpwm: &Vec<i64>, dt: i64, samples: Ghost<int>) -> (r: Vec<i128>)
    requires
        row@.len() == dpwm@.len(),
        0 <= samples@ < MAX_SAMPLES,
        -0xffff_ffff <= dt <= 0xffff_ffff,
        forall|i: int| 0 <= i < dpwm@.len() ==> -255 <= #[trigger] dpwm@[i] <= 255,
        forall|i: int|
            0 <= i < row@.len() ==> -(samples@ * 0x100_0000_0000) <= #[trigger] row@[i] <= samples@
                * 0x100_0000_0000,
    ensures
        r@.len() == row@.len(),
        forall|i: int|
            0 <= i < r@.len() ==> #[trigger] r@[i] == row@[i] + dpwm@[i] * dt && -((samples@ + 1)
                * 0x100_0000_0000) <= r@[i] <= (samples@ + 1) * 0x100_0000_0000,
{
    let mut r: Vec<i128> = Vec::new();
    for i in 0..row.len()
        invariant
            row@.len() == dpwm@.len(),
            r@.len() == i,
            0 <= samples@ < MAX_SAMPLES,
            -0xffff_ffff <= dt <= 0xffff_ffff,
            forall|k: int| 0 <= k < dpwm@.len() ==> -255 <= #[trigger] dpwm@[k] <= 255,
            forall|k: int|
                0 <= k < row@.len() ==> -(samples@ * 0x100_0000_0000) <= #[trigger] row@[k]
                    <= samples@ * 0x100_0000_0000,
            forall|k: int|
                0 <= k < i ==> #[trigger] r@[k] == row@[k] + dpwm@[k] * dt && -((samples@ + 1)
                    * 0x100_0000_0000) <= r@[k] <= (samples@ + 1) * 0x100_0000_0000,
    {
        let a: i128 = dpwm[i] as i128;
        let b: i128 = dt as i128;
        assert(-0x100_0000_0000 <= a * b <= 0x100_0000_0000) by (nonlinear_arith)
            requires
                -255 <= a <= 255,
                -0xffff_ffff <= b <= 0xffff_ffff,
        ;
        r.push(row[i] + a * b);
    }
    r
}

/// What one more observation adds. With `f` and `g` the changes of two fans' PWM values
/// since the last observation and `d` that of a sensor's temperature, the sums grow by
/// `f * g`, by `f * d` and by `d * d`, and the observation counts as one.
pub proof fn law_observation_added(
    after: CouplingEstimator,
    before: CouplingEstimator,
    pwms: Map<Seq<char>, u8>,
    temps: Map<Seq<char>, i32>,
    i: int,
    j: int,
    s: int,
)
    requires
        after.has_added(before, pwms, temps),
        after.fan_names == before.fan_names,
        after.sensor_names == before.sensor_names,
        0 <= i < before.fan_names@.len(),
        0 <= j < before.fan_names@.len(),
        0 <= s < before.sensor_names@.len(),
        pwms.contains_key(before.fan_names@[i]@),
        pwms.contains_key(before.fan_names@[j]@),
        temps.contains_key(before.sensor_names@[s]@),
        before.prev_pwms@.contains_key(before.fan_names@[i]@),
        before.prev_pwms@.contains_key(before.fan_names@[j]@),
        before.prev_temps@.contains_key(before.sensor_names@[s]@),
    ensures
        ({
            let (a, b, c) = (
                before.fan_names@[i]@,
                before.fan_names@[j]@,
                before.sensor_names@[s]@,
            );
            let f = pwms[a] - before.prev_pwms@[a];
            let g = pwms[b] - before.prev_pwms@[b];
            let d = temps[c] - before.prev_temps@[c];
            let at = i * before.fan_names@.len() + j;
            &&& after.xtx@[at] == before.xtx@[at] + f * g
            &&& after.xty@[s]@[i] == before.xty@[s]@[i] + f * d
            &&& after.ssy@[s] == before.ssy@[s] + d * d
            &&& after.samples == before.samples + 1
        }),
{
    assert(after.product(i, j) == before.product(i, j) + before.pwm_change(pwms, i)
        * before.pwm_change(pwms, j));
    assert(after.xty@[s]@[i] == before.xty@[s]@[i] + before.pwm_change(pwms, i)
        * before.temp_change(temps, s));
}

/// A fan or sensor that an observation does not know counts as nought there.
pub proof fn law_unknown_is_nought(
    e: CouplingEstimator,
    pwms: Map<Seq<char>, u8>,
    temps: Map<Seq<char>, i32>,
    i: int,
    s: int,
)
    ensures
        !pwms.contains_key(e.fan_names@[i]@) && e.prev_pwms@.contains_key(e.fan_names@[i]@)
            ==> e.pwm_change(pwms, i) == -e.prev_pwms@[e.fan_names@[i]@],
        pwms.contains_key(e.fan_names@[i]@) && !e.prev_pwms@.contains_key(e.fan_names@[i]@)
            ==> e.pwm_change(pwms, i) == pwms[e.fan_names@[i]@],
        !temps.contains_key(e.sensor_names@[s]@) && e.prev_temps@.contains_key(
            e.sensor_names@[s]@,
        ) ==> e.temp_change(temps, s) == -e.prev_temps@[e.sensor_names@[s]@],
        temps.contains_key(e.sensor_names@[s]@) && !e.prev_temps@.contains_key(
            e.sensor_names@[s]@,
        ) ==> e.temp_change(temps, s) == temps[e.sensor_names@[s]@],
{
}

/// An observation is left out of the sums exactly where none came before it, or where
/// 2^60 have been added.
pub proof fn law_only_remembered(e: CouplingEstimator)
    requires
        e.wf(),
    ensures
        e.only_remembers() <==> e.prev_pwms.entries@.len() == 0 || e.samples
            == 0x1000_0000_0000_0000,
{
}

/// The coefficients stand sensor by sensor, the fans of each in their order.
pub proof fn law_entry_places(r: Seq<CouplingResult>, s: int, f: int, nf: int)
    requires
        0 <= s,
        0 <= f < nf,
    ensures
        entry_at(r, s, f, nf) == r[s * nf + f],
        f + 1 < nf ==> entry_at(r, s, f + 1, nf) == r[s * nf + f + 1],
        entry_at(r, s + 1, 0, nf) == r[s * nf + nf],
{
    assert((s + 1) * nf + 0 == s * nf + nf) by (nonlinear_arith);
}

} // verus!
