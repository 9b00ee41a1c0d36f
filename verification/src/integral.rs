//! How much heat a sensor has seen above a baseline.
use vstd::prelude::*;

verus! {

/// Integrates a temperature above a baseline by the trapezoidal rule.
#[derive(Debug, Clone, Copy, PartialEq, Eq, Structural)]
pub struct ThermalIntegral {
    /// In thousandths of a degree Celsius.
    pub baseline: i32,
    /// Twice the integral, in thousandths of a degree times milliseconds.
    pub doubled: u128,
    pub prev_excess: Option<u32>,
    pub cooldown_ticks: usize,
    pub cooldown_threshold: usize,
}

/// By how much `temp` lies above `baseline`.
pub open spec fn excess(temp: i32, baseline: i32) -> int {
    if temp > baseline {
        temp - baseline
    } else {
        0
    }
}

impl ThermalIntegral {
    /// The integral after a reading `dt_ms` milliseconds behind the last one:
    /// the trapezoid between the two is added, and a long enough cooldown resets
    /// the sum.
    pub open spec fn after(self, temp: i32, dt_ms: u64) -> ThermalIntegral {
        let e = excess(temp, self.baseline);
        let sum = match self.prev_excess {
            Some(p) => self.doubled + (p + e) * dt_ms,
            None => self.doubled as int,
        };
        let ticks = if e > 0 {
            0
        } else if self.cooldown_ticks < usize::MAX {
            self.cooldown_ticks + 1
        } else {
            usize::MAX as int
        };
        ThermalIntegral {
            doubled: if e == 0 && ticks >= self.cooldown_threshold {
                0
            } else if sum > u128::MAX {
                u128::MAX
            } else {
                sum as u128
            },
            prev_excess: Some(e as u32),
            cooldown_ticks: ticks as usize,
            ..self
        }
    }

    pub fn new(baseline: i32, cooldown_threshold: usize) -> (r: Self)
        ensures
            r.baseline == baseline,
            r.doubled == 0,
            r.prev_excess is None,
            r.cooldown_ticks == 0,
            r.cooldown_threshold == cooldown_threshold,
    {
        ThermalIntegral {
            baseline,
            doubled: 0,
            prev_excess: None,
            cooldown_ticks: 0,
            cooldown_threshold,
        }
    }

    /// Takes in a reading taken `dt_ms` milliseconds after the last one.
    pub fn update(&mut self, temp: i32, dt_ms: u64)
        ensures
            *final(self) == old(self).after(temp, dt_ms),
    {
        let e: u32 = if temp > self.baseline {
            (temp as i64 - self.baseline as i64) as u32
        } else {
            0
        };
        if let Some(p) = self.prev_excess {
            let both: u128 = p as u128 + e as u128;
            assert(both * dt_ms <= 0x1_ffff_ffff * 0xffff_ffff_ffff_ffff) by (nonlinear_arith)
                requires
                    0 <= both <= 0x1_ffff_ffff,
                    0 <= dt_ms <= 0xffff_ffff_ffff_ffff,
            ;
            self.doubled = self.doubled.saturating_add(both * dt_ms as u128);
        }
        if e == 0 {
            self.cooldown_ticks = self.cooldown_ticks.saturating_add(1);
            if self.cooldown_ticks >= self.cooldown_threshold {
                self.doubled = 0;
            }
        } else {
            self.cooldown_ticks = 0;
        }
        self.prev_excess = Some(e);
    }

    /// Twice the integral, in thousandths of a degree times milliseconds.
    pub fn integral(&self) -> (r: u128)
        ensures
            r == self.doubled,
    {
        self.doubled
    }

    /// In thousandths of a degree Celsius.
    pub fn baseline(&self) -> (r: i32)
        ensures
            r == self.baseline,
    {
        self.baseline
    }
}

/// The integral after all of the readings, `dt_ms` milliseconds apart.
pub open spec fn after_all(t: ThermalIntegral, temps: Seq<i32>, dt_ms: u64) -> ThermalIntegral
    decreases temps.len(),
{
    if temps.len() == 0 {
        t
    } else {
        after_all(t, temps.drop_last(), dt_ms).after(temps.last(), dt_ms)
    }
}

/// Readings at or below the baseline add nothing: from a fresh start the integral
/// stays zero.
pub proof fn law_nothing_below_baseline(t: ThermalIntegral, temps: Seq<i32>, dt_ms: u64)
    requires
        t.doubled == 0,
        t.prev_excess is None || t.prev_excess == Some(0u32),
        forall|i: int| 0 <= i < temps.len() ==> #[trigger] temps[i] <= t.baseline,
    ensures
        ({
            let a = after_all(t, temps, dt_ms);
            &&& a.doubled == 0
            &&& a.baseline == t.baseline
            &&& a.prev_excess is None || a.prev_excess == Some(0u32)
        }),
    decreases temps.len(),
{
    if temps.len() > 0 {
        law_nothing_below_baseline(t, temps.drop_last(), dt_ms);
        assert(temps.last() <= t.baseline);
        assert((0 + 0) * dt_ms == 0) by (nonlinear_arith);
    }
}

proof fn lemma_cooldown_ticks(t: ThermalIntegral, temps: Seq<i32>, dt_ms: u64)
    requires
        forall|i: int| 0 <= i < temps.len() ==> #[trigger] temps[i] <= t.baseline,
    ensures
        ({
            let a = after_all(t, temps, dt_ms);
            &&& a.baseline == t.baseline
            &&& a.cooldown_threshold == t.cooldown_threshold
            &&& a.cooldown_ticks >= temps.len() || a.cooldown_ticks == usize::MAX
        }),
    decreases temps.len(),
{
    if temps.len() > 0 {
        lemma_cooldown_ticks(t, temps.drop_last(), dt_ms);
        assert(temps.last() <= t.baseline);
    }
}

/// After as many readings at or below the baseline as the cooldown takes, the
/// integral is zero, whatever it was.
pub proof fn law_cooldown_resets(t: ThermalIntegral, temps: Seq<i32>, dt_ms: u64)
    requires
        temps.len() > 0,
        temps.len() >= t.cooldown_threshold,
        forall|i: int| 0 <= i < temps.len() ==> #[trigger] temps[i] <= t.baseline,
    ensures
        after_all(t, temps, dt_ms).doubled == 0,
{
    lemma_cooldown_ticks(t, temps.drop_last(), dt_ms);
    assert(temps.last() <= t.baseline);
}

/// `n` readings at one temperature above the baseline, each `dt_ms` behind the
/// last, integrate to that excess over the `n - 1` spans between them.
pub proof fn law_steady_heat(t: ThermalIntegral, temp: i32, temps: Seq<i32>, dt_ms: u64)
    requires
        t.doubled == 0,
        t.prev_excess is None,
        temp > t.baseline,
        temps.len() > 0,
        forall|i: int| 0 <= i < temps.len() ==> #[trigger] temps[i] == temp,
        2 * (temps.len() - 1) * ((temp - t.baseline) * dt_ms) <= u128::MAX,
    ensures
        after_all(t, temps, dt_ms).doubled == 2 * (temps.len() - 1) * ((temp - t.baseline)
            * dt_ms),
        after_all(t, temps, dt_ms).prev_excess == Some((temp - t.baseline) as u32),
        after_all(t, temps, dt_ms).baseline == t.baseline,
    decreases temps.len(),
{
    let e = temp - t.baseline;
    let k = e * dt_ms;
    let n = temps.len() as int;
    assert(temps.last() == temp);
    assert(k >= 0) by (nonlinear_arith)
        requires
            k == e * dt_ms,
            e > 0,
            dt_ms >= 0,
    ;
    if n > 1 {
        assert(2 * (n - 2) * k <= 2 * (n - 1) * k) by (nonlinear_arith)
            requires
                k >= 0,
        ;
        law_steady_heat(t, temp, temps.drop_last(), dt_ms);
        assert((e + e) * dt_ms == 2 * k) by (nonlinear_arith)
            requires
                k == e * dt_ms,
        ;
        assert(2 * (n - 2) * k + 2 * k == 2 * (n - 1) * k) by (nonlinear_arith);
    } else {
        assert(temps.drop_last() =~= Seq::<i32>::empty());
        assert(2 * (n - 1) * k == 0) by (nonlinear_arith)
            requires
                n == 1,
        ;
    }
}

/// Readings above the baseline integrate to the area between them and the baseline:
/// twice the integral is the sum, over each two neighbours, of both their excesses
/// times the span between them.
pub proof fn law_trapezoids(t: ThermalIntegral, temps: Seq<i32>, dt_ms: u64)
    requires
        t.doubled == 0,
        t.prev_excess is None,
        temps.len() > 0,
        forall|i: int| 0 <= i < temps.len() ==> #[trigger] temps[i] > t.baseline,
        Seq::new(
            (temps.len() - 1) as nat,
            |i: int| ((temps[i] - t.baseline) + (temps[i + 1] - t.baseline)) * dt_ms,
        ).fold_left(0, |a: int, b: int| a + b) <= u128::MAX,
    ensures
        after_all(t, temps, dt_ms).doubled == Seq::new(
            (temps.len() - 1) as nat,
            |i: int| ((temps[i] - t.baseline) + (temps[i + 1] - t.baseline)) * dt_ms,
        ).fold_left(0, |a: int, b: int| a + b),
        after_all(t, temps, dt_ms).prev_excess == Some((temps.last() - t.baseline) as u32),
        after_all(t, temps, dt_ms).baseline == t.baseline,
    decreases temps.len(),
{
    let n = temps.len() as int;
    let rest = temps.drop_last();
    assert(temps.last() > t.baseline);
    if n > 1 {
        let all = Seq::new(
            (n - 1) as nat,
            |i: int| ((temps[i] - t.baseline) + (temps[i + 1] - t.baseline)) * dt_ms,
        );
        let less = Seq::new(
            (n - 2) as nat,
            |i: int| ((rest[i] - t.baseline) + (rest[i + 1] - t.baseline)) * dt_ms,
        );
        assert(all.drop_last() =~= less);
        assert(temps[n - 2] > t.baseline);
        let (p, e) = (temps[n - 2] - t.baseline, temps[n - 1] - t.baseline);
        assert(all.last() == (p + e) * dt_ms);
        assert((p + e) * dt_ms >= 0) by (nonlinear_arith)
            requires
                p > 0,
                e > 0,
                dt_ms >= 0,
        ;
        assert forall|i: int| 0 <= i < rest.len() implies #[trigger] rest[i] > t.baseline by {
            assert(temps[i] > t.baseline);
        }
        law_trapezoids(t, rest, dt_ms);
        assert(rest.last() == temps[n - 2]);
    } else {
        assert(rest =~= Seq::<i32>::empty());
    }
}

/// One more reading never takes anything away, but for a cooldown that is over; and a
/// reading above the baseline starts the cooldown anew.
pub proof fn law_only_cooldown_resets(t: ThermalIntegral, temp: i32, dt_ms: u64)
    ensures
        temp > t.baseline || t.cooldown_ticks + 1 < t.cooldown_threshold ==> t.after(
            temp,
            dt_ms,
        ).doubled >= t.doubled,
        temp > t.baseline ==> t.after(temp, dt_ms).cooldown_ticks == 0,
        temp <= t.baseline && t.cooldown_ticks < usize::MAX ==> t.after(temp, dt_ms).cooldown_ticks
            == t.cooldown_ticks + 1,
        t.after(temp, dt_ms).cooldown_threshold == t.cooldown_threshold,
        t.after(temp, dt_ms).baseline == t.baseline,
{
    if let Some(p) = t.prev_excess {
        let e = excess(temp, t.baseline);
        assert((p + e) * dt_ms >= 0) by (nonlinear_arith)
            requires
                p >= 0,
                e >= 0,
                dt_ms >= 0,
        ;
    }
}

} // verus!
