//! After how long a fan's changes show in a temperature: the lag at which the
//! changes of the two correlate most.
use crate::regression::{denominator, spread_y, sum_x, sum_xx, sum_y, sum_yy};
use crate::wide::{distance, magnitude, Big, Tally, Wide};
use vstd::prelude::*;

verus! {

/// How many more changes than the longest lag a correlation takes.
pub const MARGIN: usize = 10;

/// The correlation at a lag: the covariance, how many pairs of changes it is the
/// sum of, and the variances of the two, each multiplied by the square of the
/// number of changes. The coefficient is
/// `covariance / (pairs * sqrt(var_pwm) * sqrt(var_temp))`.
#[derive(Debug, Clone, Copy, PartialEq, Eq, Structural)]
pub struct Peak {
    pub covariance: i128,
    pub pairs: usize,
    pub var_pwm: i128,
    pub var_temp: i128,
}

impl Peak {
    /// Whether the coefficient is farther from zero than a hundredth: whether a
    /// hundred times the covariance is greater than what the coefficient divides by,
    /// both squared.
    pub open spec fn notable(self) -> bool {
        10000 * (distance(self.covariance as int) * distance(self.covariance as int)) > (self.pairs
            * self.pairs) * (distance(self.var_pwm as int) * distance(self.var_temp as int))
    }

    /// Whether the coefficient is farther from zero than a hundredth.
    pub fn is_notable(&self) -> (r: bool)
        ensures
            r == self.notable(),
    {
        let c: u128 = magnitude(self.covariance);
        let p: u128 = self.pairs as u128;
        let v: u128 = magnitude(self.var_pwm);
        let w: u128 = magnitude(self.var_temp);
        proof {
            assert((c * c) * 10000 == 10000 * (c * c)) by (nonlinear_arith);
            assert(((p * p) * v) * w == (p * p) * (v * w)) by (nonlinear_arith);
        }
        Wide::of(c).times(c).times(10000).exceeds(&Wide::of(p).times(p).times(v).times(w))
    }
}

/// Correlates the PWM changes of a fan with the temperature changes of a sensor.
#[derive(Debug)]
pub struct CrossCorrelator {
    pub fan_name: String,
    pub sensor_name: String,
    pub dpwm_buf: Vec<i64>,
    pub dtemp_buf: Vec<i64>,
    pub buf_size: usize,
    pub max_lag: usize,
    pub write_pos: usize,
    pub count: usize,
    pub prev: Option<(u8, i32)>,
    pub peak: Option<Peak>,
    pub optimal_lag: usize,
}

/// Where the `i`-th oldest of `count` entries stands in a ring of `capacity`
/// places that is written next at `write_pos`.
pub open spec fn ring(write_pos: int, count: int, i: int, capacity: int) -> int {
    if write_pos + i >= count {
        write_pos + i - count
    } else {
        write_pos + i + capacity - count
    }
}

/// Where the `i`-th oldest entry stands in the ring.
pub fn ring_idx(write_pos: usize, count: usize, i: usize, capacity: usize) -> (r: usize)
    requires
        write_pos < capacity,
        i < count <= capacity,
    ensures
        r == ring(write_pos as int, count as int, i as int, capacity as int),
        r == (write_pos + capacity - count + i) % capacity as int,
        r < capacity,
{
    let back: usize = count - i;
    proof {
        let x = write_pos + capacity - count + i;
        if write_pos >= back {
            assert(x % capacity as int == x - capacity) by (nonlinear_arith)
                requires
                    capacity <= x < 2 * capacity,
                    capacity > 0,
            ;
        } else {
            assert(x % capacity as int == x) by (nonlinear_arith)
                requires
                    0 <= x < capacity,
                    capacity > 0,
            ;
        }
    }
    if write_pos >= back {
        write_pos - back
    } else {
        capacity - (back - write_pos)
    }
}

// ---- What the correlation is ----

/// The sum of the products of the deviations of the first `k` PWM changes and of
/// the temperature changes `lag` later, times the square of the number of
/// changes.
pub open spec fn covariance_of(c: Seq<(int, int)>, lag: int, k: int) -> int
    decreases k,
{
    if k <= 0 {
        0
    } else {
        covariance_of(c, lag, k - 1) + (c.len() * c[k - 1].0 - sum_x(c)) * (c.len() * c[k - 1
            + lag].1 - sum_y(c))
    }
}

/// The covariance at `lag`.
pub open spec fn covariance(c: Seq<(int, int)>, lag: int) -> int {
    covariance_of(c, lag, c.len() - lag)
}

/// Whether the mean covariance `a / m` is farther from zero than `b / n`.
pub open spec fn stronger(a: int, m: int, b: int, n: int) -> bool {
    distance(a) * n > distance(b) * m
}

/// The lag up to `m` with the strongest correlation, the shortest where several
/// have it, with its covariance; lag 0 with none where there is no correlation.
pub open spec fn best_lag(c: Seq<(int, int)>, m: int) -> (int, int)
    decreases m + 1,
{
    if m < 0 {
        (0, 0)
    } else {
        let b = best_lag(c, m - 1);
        if stronger(covariance(c, m), c.len() - m, b.1, c.len() - b.0) {
            (m, covariance(c, m))
        } else {
            b
        }
    }
}

/// Whether the changes of one of the two are too small for a correlation: a
/// standard deviation below 10^-9 PWM units or degrees.
pub open spec fn too_steady(c: Seq<(int, int)>) -> bool {
    ||| denominator(c) * 1_000_000_000_000_000_000 < c.len() * c.len()
    ||| spread_y(c) * 1_000_000_000_000 < c.len() * c.len()
}

/// Whether there are changes enough to correlate.
pub open spec fn enough(c: Seq<(int, int)>, max_lag: int) -> bool {
    max_lag + MARGIN <= c.len()
}

/// Whether 128 bits hold the number.
pub open spec fn holds(x: int) -> bool {
    i128::MIN <= x <= i128::MAX
}

/// Whether 128 bits hold what is told of the strongest correlation.
pub open spec fn can_be_told(c: Seq<(int, int)>, max_lag: int) -> bool {
    holds(best_lag(c, max_lag).1) && holds(denominator(c)) && holds(spread_y(c))
}

/// What the changes say: the strongest correlation and its lag; or what was held
/// before, where they say nothing.
pub open spec fn found(
    c: Seq<(int, int)>,
    max_lag: int,
    held: (Option<Peak>, usize),
) -> (Option<Peak>, usize) {
    if !enough(c, max_lag) || too_steady(c) || !can_be_told(c, max_lag) {
        held
    } else {
        let b = best_lag(c, max_lag);
        (
            Some(
                Peak {
                    covariance: b.1 as i128,
                    pairs: (c.len() - b.0) as usize,
                    var_pwm: denominator(c) as i128,
                    var_temp: spread_y(c) as i128,
                },
            ),
            b.0 as usize,
        )
    }
}

/// `c` with one more change: where `size` changes are there already, the oldest
/// gives way.
pub open spec fn with_change(c: Seq<(int, int)>, size: int, change: (int, int)) -> Seq<(int, int)> {
    if c.len() >= size {
        c.drop_first().push(change)
    } else {
        c.push(change)
    }
}

// ---- The correlator ----

impl CrossCorrelator {
    pub open spec fn wf(self) -> bool {
        &&& 0 < self.buf_size <= usize::MAX / 16
        &&& self.dpwm_buf@.len() == self.buf_size
        &&& self.dtemp_buf@.len() == self.buf_size
        &&& self.write_pos < self.buf_size
        &&& self.count <= self.buf_size
        &&& self.max_lag <= self.buf_size / 2
        &&& forall|i: int| 0 <= i < self.buf_size ==> -255 <= #[trigger] self.dpwm_buf@[i] <= 255
        &&& forall|i: int|
            0 <= i < self.buf_size ==> -0xffff_ffff <= #[trigger] self.dtemp_buf@[i] <= 0xffff_ffff
    }

    /// The changes that are held, the oldest first.
    pub open spec fn changes(self) -> Seq<(int, int)> {
        Seq::new(
            self.count as nat,
            |i: int|
                {
                    let at = ring(
                        self.write_pos as int,
                        self.count as int,
                        i,
                        self.buf_size as int,
                    );
                    (self.dpwm_buf@[at] as int, self.dtemp_buf@[at] as int)
                },
        )
    }

    /// The results that are held.
    pub open spec fn held(self) -> (Option<Peak>, usize) {
        (self.peak, self.optimal_lag)
    }

    /// Whether this is `before` after it has seen the values, results aside.
    pub open spec fn has_seen(self, before: CrossCorrelator, pwm: u8, temp: i32) -> bool {
        &&& self.fan_name == before.fan_name
        &&& self.sensor_name == before.sensor_name
        &&& self.buf_size == before.buf_size
        &&& self.max_lag == before.max_lag
        &&& self.prev == Some((pwm, temp))
        &&& self.changes() == match before.prev {
            None => before.changes(),
            Some((p, t)) => with_change(
                before.changes(),
                before.buf_size as int,
                (pwm - p, temp - t),
            ),
        }
    }

    pub fn new(fan_name: &str, sensor_name: &str, buf_size: usize, max_lag: usize) -> (r: Self)
        requires
            0 < buf_size <= usize::MAX / 16,
        ensures
            r.wf(),
            r.fan_name@ == fan_name@,
            r.sensor_name@ == sensor_name@,
            r.buf_size == buf_size,
            r.max_lag == if max_lag < buf_size / 2 {
                max_lag
            } else {
                buf_size / 2
            },
            r.prev is None,
            r.changes() == Seq::<(int, int)>::empty(),
            r.held() == (None::<Peak>, 0usize),
    {
        let mut dpwm_buf: Vec<i64> = Vec::new();
        let mut dtemp_buf: Vec<i64> = Vec::new();
        for i in 0..buf_size
            invariant
                dpwm_buf@.len() == i,
                dtemp_buf@.len() == i,
                forall|k: int| 0 <= k < i ==> #[trigger] dpwm_buf@[k] == 0,
                forall|k: int| 0 <= k < i ==> #[trigger] dtemp_buf@[k] == 0,
        {
            dpwm_buf.push(0);
            dtemp_buf.push(0);
        }
        let r = CrossCorrelator {
            fan_name: fan_name.to_owned(),
            sensor_name: sensor_name.to_owned(),
            dpwm_buf,
            dtemp_buf,
            buf_size,
            max_lag: if max_lag < buf_size / 2 {
                max_lag
            } else {
                buf_size / 2
            },
            write_pos: 0,
            count: 0,
            prev: None,
            peak: None,
            optimal_lag: 0,
        };
        assert(r.changes() =~= Seq::<(int, int)>::empty());
        r
    }

    /// Takes in a PWM value and a temperature in thousandths of a degree Celsius.
    pub fn update(&mut self, pwm: u8, temp: i32)
        requires
            old(self).wf(),
        ensures
            final(self).wf(),
            final(self).has_seen(*old(self), pwm, temp),
            final(self).held() == old(self).held(),
    {
        if let Some((p, t)) = self.prev {
            let dpwm: i64 = pwm as i64 - p as i64;
            let dtemp: i64 = temp as i64 - t as i64;
            let at: usize = self.write_pos;
            self.dpwm_buf.set(at, dpwm);
            self.dtemp_buf.set(at, dtemp);
            self.write_pos = if at + 1 == self.buf_size {
                0
            } else {
                at + 1
            };
            if self.count < self.buf_size {
                self.count = self.count + 1;
            }
            assert(self.changes() =~= with_change(
                old(self).changes(),
                old(self).buf_size as int,
                (dpwm as int, dtemp as int),
            ));
        }
        self.prev = Some((pwm, temp));
        assert(old(self).prev is None ==> self.changes() =~= old(self).changes());
        assert(old(self).prev is Some ==> self.changes() =~= with_change(
            old(self).changes(),
            old(self).buf_size as int,
            (pwm - old(self).prev->Some_0.0, temp - old(self).prev->Some_0.1),
        ));
    }

    fn change(&self, i: usize) -> (r: (i64, i64))
        requires
            self.wf(),
            i < self.count,
        ensures
            self.changes()[i as int] == (r.0 as int, r.1 as int),
            -255 <= r.0 <= 255,
            -0xffff_ffff <= r.1 <= 0xffff_ffff,
    {
        let at: usize = ring_idx(self.write_pos, self.count, i, self.buf_size);
        (self.dpwm_buf[at], self.dtemp_buf[at])
    }

    fn sums(&self) -> (r: (i128, i128, i128, i128))
        requires
            self.wf(),
        ensures
            r.0 == sum_x(self.changes()),
            r.1 == sum_y(self.changes()),
            r.2 == sum_xx(self.changes()),
            r.3 == sum_yy(self.changes()),
            -(self.count * 255) <= r.0 <= self.count * 255,
            -(self.count * 0xffff_ffff) <= r.1 <= self.count * 0xffff_ffff,
            0 <= r.2 <= self.count * 65025,
            0 <= r.3 <= self.count * 0x1_0000_0000_0000_0000,
    {
        let ghost c = self.changes();
        let mut sp: i128 = 0;
        let mut st: i128 = 0;
        let mut spp: i128 = 0;
        let mut stt: i128 = 0;
        for i in 0..self.count
            invariant
                self.wf(),
                c == self.changes(),
                c.len() == self.count,
                sp == sum_x(c.take(i as int)),
                st == sum_y(c.take(i as int)),
                spp == sum_xx(c.take(i as int)),
                stt == sum_yy(c.take(i as int)),
                -(i * 255) <= sp <= i * 255,
                -(i * 0xffff_ffff) <= st <= i * 0xffff_ffff,
                0 <= spp <= i * 65025,
                0 <= stt <= i * 0x1_0000_0000_0000_0000,
        {
            let (p, t) = self.change(i);
            let wide_p: i128 = p as i128;
            let wide_t: i128 = t as i128;
            proof {
                assert(c.take(i + 1).drop_last() =~= c.take(i as int));
                lemma_squares(p as int, t as int);
            }
            sp = sp + wide_p;
            st = st + wide_t;
            spp = spp + wide_p * wide_p;
            stt = stt + wide_t * wide_t;
        }
        assert(c.take(c.len() as int) =~= c);
        (sp, st, spp, stt)
    }

    fn covariance_at(&self, lag: usize, sp: i128, st: i128) -> (r: Big)
        requires
            self.wf(),
            lag <= self.count,
            sp == sum_x(self.changes()),
            st == sum_y(self.changes()),
            -(self.count * 255) <= sp <= self.count * 255,
            -(self.count * 0xffff_ffff) <= st <= self.count * 0xffff_ffff,
        ensures
            r.value() == covariance(self.changes(), lag as int),
            r.size.value() == distance(r.value()),
    {
        let ghost c = self.changes();
        let n: i128 = self.count as i128;
        let pairs: usize = self.count - lag;
        let mut sum = Tally::new();
        for i in 0..pairs
            invariant
                self.wf(),
                n == self.count,
                lag <= self.count,
                pairs == self.count - lag,
                c == self.changes(),
                c.len() == self.count,
                sp == sum_x(c),
                st == sum_y(c),
                -(n * 255) <= sp <= n * 255,
                -(n * 0xffff_ffff) <= st <= n * 0xffff_ffff,
                sum.value() == covariance_of(c, lag as int, i as int),
        {
            let p: i128 = self.change(i).0 as i128;
            let t: i128 = self.change(i + lag).1 as i128;
            assert(-(n * 255) <= n * p <= n * 255) by (nonlinear_arith)
                requires
                    n >= 0,
                    -255 <= p <= 255,
            ;
            assert(-(n * 0xffff_ffff) <= n * t <= n * 0xffff_ffff) by (nonlinear_arith)
                requires
                    n >= 0,
                    -0xffff_ffff <= t <= 0xffff_ffff,
            ;
            sum.add_product(n * p - sp, n * t - st);
        }
        sum.total()
    }

    /// Recomputes the strongest correlation and its lag from the changes held.
    /// Where there are too few of them, or one of the two hardly changes, or 128 bits
    /// do not hold the results, the results stay as they were.
    pub fn recompute(&mut self)
        requires
            old(self).wf(),
        ensures
            final(self).wf(),
            final(self).changes() == old(self).changes(),
            final(self).prev == old(self).prev,
            final(self).fan_name == old(self).fan_name,
            final(self).sensor_name == old(self).sensor_name,
            final(self).buf_size == old(self).buf_size,
            final(self).max_lag == old(self).max_lag,
            final(self).held() == found(
                old(self).changes(),
                old(self).max_lag as int,
                old(self).held(),
            ),
    {
        let n: usize = self.count;
        let ghost c = self.changes();
        if n < self.max_lag + MARGIN {
            return ;
        }
        let (sp, st, spp, stt) = self.sums();
        let count = Big::of(n as i128);
        let (x, y) = (Big::of(sp), Big::of(st));
        let var_pwm = count.product(&Big::of(spp)).minus(&x.product(&x));
        let var_temp = count.product(&Big::of(stt)).minus(&y.product(&y));
        let square = Wide::of(n as u128).times(n as u128);
        proof {
            crate::regression::law_denominator_not_negative(c);
            crate::regression::law_spread_not_negative(c);
        }
        if square.exceeds(&var_pwm.size.times(1_000_000_000_000_000_000)) {
            return ;
        }
        if square.exceeds(&var_temp.size.times(1_000_000_000_000)) {
            return ;
        }
        let mut best: usize = 0;
        let mut best_covariance = Big::of(0);
        let max_lag: usize = self.max_lag;
        let mut lag: usize = 0;
        while lag <= max_lag
            invariant
                self.wf(),
                *self == *old(self),
                c == self.changes(),
                n == self.count,
                max_lag == self.max_lag,
                max_lag + MARGIN <= n,
                lag <= max_lag + 1,
                sp == sum_x(c),
                st == sum_y(c),
                -(n * 255) <= sp <= n * 255,
                -(n * 0xffff_ffff) <= st <= n * 0xffff_ffff,
                best <= max_lag,
                (best as int, best_covariance.value()) == best_lag(c, lag - 1),
                best_covariance.size.value() == distance(best_covariance.value()),
            decreases max_lag + 1 - lag,
        {
            let a = self.covariance_at(lag, sp, st);
            if a.size.times((n - best) as u128).exceeds(
                &best_covariance.size.times((n - lag) as u128),
            ) {
                best = lag;
                best_covariance = a;
            }
            lag = lag + 1;
        }
        match (best_covariance.to_i128(), var_pwm.to_i128(), var_temp.to_i128()) {
            (Some(covariance), Some(var_pwm), Some(var_temp)) => {
                self.peak = Some(Peak { covariance, pairs: n - best, var_pwm, var_temp });
                self.optimal_lag = best;
            },
            _ => {},
        }
        assert(self.changes() =~= c);
    }

    /// The strongest correlation, once there is one.
    pub fn peak_ccf(&self) -> (r: Option<Peak>)
        ensures
            r == self.held().0,
    {
        self.peak
    }

    /// The lag of the strongest correlation.
    pub fn optimal_lag(&self) -> (r: usize)
        ensures
            r == self.held().1,
    {
        self.optimal_lag
    }
}

// ---- Bounds ----

proof fn lemma_squares(p: int, t: int)
    requires
        -255 <= p <= 255,
        -0xffff_ffff <= t <= 0xffff_ffff,
    ensures
        0 <= p * p <= 65025,
        0 <= t * t <= 0x1_0000_0000_0000_0000,
{
    assert(0 <= p * p <= 65025) by (nonlinear_arith)
        requires
            -255 <= p <= 255,
    ;
    assert(0 <= t * t <= 0xffff_ffff * 0xffff_ffff) by (nonlinear_arith)
        requires
            -0xffff_ffff <= t <= 0xffff_ffff,
    ;
    assert(0xffff_ffff * 0xffff_ffff <= 0x1_0000_0000_0000_0000int) by (nonlinear_arith);
}

// ---- Laws ----

proof fn lemma_best_is_earlier(c: Seq<(int, int)>, m: int)
    ensures
        0 <= best_lag(c, m).0 <= if m < 0 {
            0
        } else {
            m
        },
        best_lag(c, m) == (0int, 0int) || best_lag(c, m).1 == covariance(c, best_lag(c, m).0),
    decreases m + 1,
{
    if m >= 0 {
        lemma_best_is_earlier(c, m - 1);
    }
}

/// No lag up to the longest one correlates more strongly than the one found, and
/// none shorter does so equally.
pub proof fn law_best_lag(c: Seq<(int, int)>, m: int, lag: int)
    requires
        0 <= lag <= m < c.len(),
    ensures
        ({
            let b = best_lag(c, m);
            let n = c.len() as int;
            &&& !stronger(covariance(c, lag), n - lag, b.1, n - b.0)
            &&& lag < b.0 ==> stronger(b.1, n - b.0, covariance(c, lag), n - lag)
        }),
    decreases m,
{
    let n = c.len() as int;
    let p = best_lag(c, m - 1);
    let b = best_lag(c, m);
    lemma_best_is_earlier(c, m - 1);
    let x = distance(covariance(c, lag));
    let y = distance(p.1);
    let z = distance(covariance(c, m));
    if lag < m {
        law_best_lag(c, m - 1, lag);
        if b != p {
            // x / (n - lag) <= y / (n - p.0) < z / (n - m)
            assert(x * (n - m) < z * (n - lag)) by (nonlinear_arith)
                requires
                    x * (n - p.0) <= y * (n - lag),
                    z * (n - p.0) > y * (n - m),
                    n - p.0 > 0,
                    n - lag > 0,
                    n - m > 0,
                    x >= 0,
                    y >= 0,
                    z >= 0,
            ;
        }
    } else {
        assert(x * (n - lag) <= x * (n - lag));
    }
}

/// The covariance at a lag sums, over every PWM change that has a temperature change
/// that many steps later, the products of how far each is from its mean, both taken
/// `n` times.
pub proof fn law_covariance(c: Seq<(int, int)>, lag: int)
    requires
        0 <= lag <= c.len(),
    ensures
        ({
            let n = c.len() as int;
            let sx = c.fold_left(0, |t: int, p: (int, int)| t + p.0);
            let sy = c.fold_left(0, |t: int, p: (int, int)| t + p.1);
            covariance(c, lag) == Seq::new(
                (n - lag) as nat,
                |i: int| (n * c[i].0 - sx) * (n * c[i + lag].1 - sy),
            ).fold_left(0, |t: int, x: int| t + x)
        }),
{
    crate::regression::law_sums(c);
    lemma_covariance_of(c, lag, c.len() - lag, sum_x(c), sum_y(c));
}

proof fn lemma_covariance_of(c: Seq<(int, int)>, lag: int, k: int, sx: int, sy: int)
    requires
        0 <= k,
        sx == sum_x(c),
        sy == sum_y(c),
    ensures
        ({
            let n = c.len() as int;
            covariance_of(c, lag, k) == Seq::new(
                k as nat,
                |i: int| (n * c[i].0 - sx) * (n * c[i + lag].1 - sy),
            ).fold_left(0, |t: int, x: int| t + x)
        }),
    decreases k,
{
    let n = c.len() as int;
    let all = Seq::new(k as nat, |i: int| (n * c[i].0 - sx) * (n * c[i + lag].1 - sy));
    if k > 0 {
        lemma_covariance_of(c, lag, k - 1, sx, sy);
        assert(all.drop_last() =~= Seq::new(
            (k - 1) as nat,
            |i: int| (n * c[i].0 - sx) * (n * c[i + lag].1 - sy),
        ));
    }
}

/// What is found, where something is: the lag, none longer than the longest, whose
/// mean covariance is farthest from zero, and the shortest such; its covariance over
/// the pairs that there are at that lag; and the spreads of all the changes. It is
/// found exactly where there are ten changes more than the longest lag, the spreads
/// are not minute, and the numbers are in range; else what was held stays.
pub proof fn law_found(c: Seq<(int, int)>, max_lag: int, held: (Option<Peak>, usize), lag: int)
    requires
        0 <= lag <= max_lag,
        c.len() <= usize::MAX,
    ensures
        ({
            let n = c.len() as int;
            let sx = c.fold_left(0, |t: int, p: (int, int)| t + p.0);
            let sy = c.fold_left(0, |t: int, p: (int, int)| t + p.1);
            let vx = n * c.fold_left(0, |t: int, p: (int, int)| t + p.0 * p.0) - sx * sx;
            let vy = n * c.fold_left(0, |t: int, p: (int, int)| t + p.1 * p.1) - sy * sy;
            let (peak, at) = found(c, max_lag, held);
            let told = n >= max_lag + 10 && vx * 1_000_000_000_000_000_000 >= n * n && vy
                * 1_000_000_000_000 >= n * n && vx <= i128::MAX && vy <= i128::MAX && i128::MIN
                <= best_lag(c, max_lag).1 <= i128::MAX;
            &&& !told ==> (peak, at) == held
            &&& told ==> (peak matches Some(p) && {
                &&& 0 <= at <= max_lag
                &&& p.pairs == n - at
                &&& p.covariance == covariance(c, at as int)
                &&& p.var_pwm == vx
                &&& p.var_temp == vy
                &&& distance(covariance(c, lag)) * (n - at) <= distance(p.covariance as int) * (n
                    - lag)
                &&& lag < at ==> distance(covariance(c, lag)) * (n - at) < distance(
                    p.covariance as int,
                ) * (n - lag)
            })
        }),
{
    crate::regression::law_sums(c);
    crate::regression::law_denominator_not_negative(c);
    crate::regression::law_spread_not_negative(c);
    lemma_best_is_earlier(c, max_lag);
    if max_lag < c.len() {
        lemma_best_is_covariance(c, max_lag);
        law_best_lag(c, max_lag, lag);
    }
}

proof fn lemma_best_is_covariance(c: Seq<(int, int)>, m: int)
    requires
        m < c.len(),
    ensures
        m >= 0 ==> best_lag(c, m).1 == covariance(c, best_lag(c, m).0),
        m < 0 ==> best_lag(c, m) == (0int, 0int),
    decreases m + 1,
{
    if m >= 0 {
        lemma_best_is_covariance(c, m - 1);
        lemma_best_is_earlier(c, m - 1);
        let x = covariance(c, m);
        let b = best_lag(c, m - 1);
        let n = c.len() as int;
        if m == 0 && !stronger(x, n - m, b.1, n - b.0) {
            assert(distance(b.1) * (n - m) == 0) by (nonlinear_arith)
                requires
                    distance(b.1) == 0,
            ;
            assert(x == 0) by (nonlinear_arith)
                requires
                    distance(x) * (n - b.0) <= 0,
                    n - b.0 > 0,
            ;
        }
    }
}

/// One more change stands last, the others before it as they stood; the oldest is gone
/// exactly where there were as many as are kept.
pub proof fn law_with_change(c: Seq<(int, int)>, size: int, change: (int, int), i: int)
    requires
        0 < size,
        c.len() <= size,
    ensures
        ({
            let d = with_change(c, size, change);
            let gone = if c.len() == size {
                1int
            } else {
                0
            };
            &&& d.len() == c.len() + 1 - gone
            &&& d.last() == change
            &&& 0 <= i < d.len() - 1 ==> d[i] == c[i + gone]
        }),
{
}

/// A coefficient is notable where it is more than a hundredth away from zero:
/// `covariance / (pairs * sqrt(var_pwm * var_temp))`, squared, is more than a
/// ten-thousandth.
pub proof fn law_notable(p: Peak)
    requires
        p.var_pwm >= 0,
        p.var_temp >= 0,
    ensures
        p.notable() <==> (100 * p.covariance) * (100 * p.covariance) > (p.pairs * p.var_pwm) * (
        p.pairs * p.var_temp),
{
    let (c, n, v, w) = (
        p.covariance as int,
        p.pairs as int,
        p.var_pwm as int,
        p.var_temp as int,
    );
    assert(distance(c) * distance(c) == c * c) by (nonlinear_arith)
        requires
            distance(c) == c || distance(c) == -c,
    ;
    assert((100 * c) * (100 * c) == 10000 * (c * c)) by (nonlinear_arith);
    assert((n * n) * (v * w) == (n * v) * (n * w)) by (nonlinear_arith);
}

/// A correlator that has seen one more reading holds, as its latest change, how far both
/// values are from those before; the first reading of all changes nothing.
pub proof fn law_seen(after: CrossCorrelator, before: CrossCorrelator, pwm: u8, temp: i32, i: int)
    requires
        before.wf(),
        after.has_seen(before, pwm, temp),
    ensures
        after.prev == Some((pwm, temp)),
        before.prev is None ==> after.changes() == before.changes(),
        before.prev matches Some((p, t)) ==> {
            let (c, d) = (before.changes(), after.changes());
            &&& d.last() == (pwm - p, temp - t)
            &&& c.len() < before.buf_size ==> d.len() == c.len() + 1 && (0 <= i < c.len() ==> d[i]
                == c[i])
            &&& c.len() == before.buf_size ==> d.len() == c.len() && (0 <= i < c.len() - 1 ==> d[i]
                == c[i + 1])
        },
{
}

} // verus!
