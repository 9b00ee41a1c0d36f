//! How well a fan cools: the temperatures of its sensors against its PWM value,
//! over its recent history.
use crate::names::{looked_up, NameMap};
use crate::regression::{as_points, denominator, fit, fits, law_denominator_not_negative};
use crate::regression::{law_normal_equations, law_sums, law_upright, numerator, Slope};
use std::collections::VecDeque;
use vstd::prelude::*;

verus! {

/// How many observations an estimate takes.
pub const MIN_OBSERVATIONS: usize = 10;

/// A fan's PWM value and the temperatures of its sensors, in thousandths of a
/// degree Celsius, at one time.
#[derive(Debug)]
pub struct Snapshot {
    pub pwm: u8,
    pub temps: NameMap<i64>,
}

/// Tracks the cooling effectiveness of one fan.
#[derive(Debug)]
pub struct AnalyticsTracker {
    pub name: String,
    pub history: VecDeque<Snapshot>,
    pub max_history: usize,
    /// By sensor: thousandths of a degree per unit of PWM.
    pub effectiveness: NameMap<Slope>,
}

/// PWM value and temperature of the sensor, wherever the history knows it.
pub open spec fn observations(history: Seq<Snapshot>, sensor: Seq<char>) -> Seq<(int, int)>
    decreases history.len(),
{
    if history.len() == 0 {
        Seq::empty()
    } else {
        let rest = observations(history.drop_last(), sensor);
        match looked_up(history.last().temps@, sensor) {
            Some(t) => rest.push((history.last().pwm as int, t as int)),
            None => rest,
        }
    }
}

/// What the history says of the sensor, if it says enough: the slope of the
/// least-squares line, 0 where the PWM value never changed.
pub open spec fn estimate(history: Seq<Snapshot>, sensor: Seq<char>) -> Option<Slope> {
    let o = observations(history, sensor);
    if o.len() < MIN_OBSERVATIONS || !fits(o) {
        None
    } else if denominator(o) == 0 {
        Some(Slope { num: 0, den: 1 })
    } else {
        Some(Slope { num: numerator(o) as i128, den: denominator(o) as i128 })
    }
}

/// What is held of the sensor once the estimates are computed anew: the new
/// estimate where the latest snapshot knows the sensor and the history says
/// enough, else what was held before.
pub open spec fn renewed(
    held: Map<Seq<char>, Slope>,
    history: Seq<Snapshot>,
    sensor: Seq<char>,
) -> Option<Slope> {
    if history.len() >= MIN_OBSERVATIONS && history.last().temps@.dom().contains(sensor)
        && estimate(history, sensor) is Some {
        estimate(history, sensor)
    } else {
        looked_up(held, sensor)
    }
}

impl AnalyticsTracker {
    pub fn new(name: &str, max_history: usize) -> (r: Self)
        ensures
            r.name@ == name@,
            r.history@.len() == 0,
            r.max_history == max_history,
            r.effectiveness@ == Map::<Seq<char>, Slope>::empty(),
    {
        AnalyticsTracker {
            name: name.to_owned(),
            history: VecDeque::new(),
            max_history,
            effectiveness: NameMap::new(),
        }
    }

    /// Record a new data point; where the history is full, the oldest one gives
    /// way.
    pub fn record(&mut self, pwm: u8, temps: NameMap<i64>)
        ensures
            ({
                let h = old(self).history@;
                let kept = if h.len() >= old(self).max_history && h.len() > 0 {
                    h.drop_first()
                } else {
                    h
                };
                final(self).history@ == kept.push(Snapshot { pwm, temps })
            }),
            final(self).name == old(self).name,
            final(self).max_history == old(self).max_history,
            final(self).effectiveness == old(self).effectiveness,
    {
        if self.history.len() >= self.max_history {
            let _ = self.history.pop_front();
        }
        self.history.push_back(Snapshot { pwm, temps });
    }

    fn observe(&self, sensor: &str) -> (r: Vec<(i128, i128)>)
        ensures
            as_points(r@) == observations(self.history@, sensor@),
    {
        let n: usize = self.history.len();
        let mut o: Vec<(i128, i128)> = Vec::new();
        assert(as_points(o@) =~= observations(self.history@.take(0), sensor@));
        for i in 0..n
            invariant
                n == self.history@.len(),
                as_points(o@) == observations(self.history@.take(i as int), sensor@),
        {
            assert(self.history@.take(i + 1).drop_last() =~= self.history@.take(i as int));
            let snapshot = &self.history[i];
            if let Some(t) = snapshot.temps.get(sensor) {
                let ghost was = o@;
                o.push((snapshot.pwm as i128, t as i128));
                assert(as_points(o@) =~= as_points(was).push((snapshot.pwm as int, t as int)));
            }
        }
        assert(self.history@.take(n as int) =~= self.history@);
        o
    }

    fn estimate_for(&self, sensor: &str) -> (r: Option<Slope>)
        ensures
            r == estimate(self.history@, sensor@),
    {
        let o = self.observe(sensor);
        assert(as_points(o@).len() == o@.len());
        if o.len() < MIN_OBSERVATIONS {
            return None;
        }
        match fit(&o) {
            None => None,
            Some(slope) => if slope.den == 0 {
                Some(Slope { num: 0, den: 1 })
            } else {
                Some(slope)
            },
        }
    }

    /// Recompute the effectiveness estimates from the history, for the sensors
    /// of the latest snapshot.
    pub fn recompute(&mut self)
        ensures
            final(self).name == old(self).name,
            final(self).max_history == old(self).max_history,
            final(self).history == old(self).history,
            forall|sensor: Seq<char>| #[trigger]
                looked_up(final(self).effectiveness@, sensor) == renewed(
                    old(self).effectiveness@,
                    old(self).history@,
                    sensor,
                ),
    {
        let n: usize = self.history.len();
        if n < MIN_OBSERVATIONS {
            return ;
        }
        let names = self.history[n - 1].temps.copied();
        let ghost held = self.effectiveness@;
        let ghost history = self.history@;
        let count: usize = names.entries.len();
        for i in 0..count
            invariant
                n >= MIN_OBSERVATIONS,
                n == history.len(),
                count == names.entries@.len(),
                names@ == history.last().temps@,
                history == old(self).history@,
                held == old(self).effectiveness@,
                self.history == old(self).history,
                self.name == old(self).name,
                self.max_history == old(self).max_history,
                forall|sensor: Seq<char>| #[trigger]
                    looked_up(self.effectiveness@, sensor) == if (exists|k: int|
                        0 <= k < i && (#[trigger] names.entries@[k]).0@ == sensor) {
                        renewed(held, history, sensor)
                    } else {
                        looked_up(held, sensor)
                    },
        {
            let sensor = names.entries[i].0.as_str();
            proof {
                crate::names::lemma_named(names.entries@, 0, i as int);
            }
            let ghost was = self.effectiveness@;
            if let Some(slope) = self.estimate_for(sensor) {
                self.effectiveness.put(sensor, slope);
            }
            assert forall|s: Seq<char>| #[trigger]
                looked_up(self.effectiveness@, s) == if (exists|k: int|
                    0 <= k < i + 1 && (#[trigger] names.entries@[k]).0@ == s) {
                    renewed(held, history, s)
                } else {
                    looked_up(held, s)
                } by {
                if s == sensor@ {
                    assert(names.entries@[i as int].0@ == s);
                    assert(looked_up(was, s) == renewed(held, history, s) || looked_up(was, s)
                        == looked_up(held, s));
                } else {
                    assert(looked_up(self.effectiveness@, s) == looked_up(was, s));
                    if exists|k: int| 0 <= k < i + 1 && (#[trigger] names.entries@[k]).0@ == s {
                        let k = choose|k: int|
                            0 <= k < i + 1 && (#[trigger] names.entries@[k]).0@ == s;
                        assert(k < i);
                    }
                }
            }
        }
        assert forall|s: Seq<char>| #[trigger] looked_up(self.effectiveness@, s) == renewed(
            held,
            history,
            s,
        ) by {
            if names@.dom().contains(s) {
                crate::names::lemma_entry_of(names.entries@, 0, s);
            }
        }
    }

    /// The current effectiveness estimates.
    pub fn effectiveness(&self) -> (r: &NameMap<Slope>)
        ensures
            *r == self.effectiveness,
    {
        &self.effectiveness
    }

    pub fn name(&self) -> (r: &str)
        ensures
            r@ == self.name@,
    {
        self.name.as_str()
    }

    pub fn history_len(&self) -> (r: usize)
        ensures
            r == self.history@.len(),
    {
        self.history.len()
    }
}

/// With fewer than ten data points no estimate changes, so a fan without history
/// has none.
pub proof fn law_needs_enough_data(
    held: Map<Seq<char>, Slope>,
    history: Seq<Snapshot>,
    sensor: Seq<char>,
)
    requires
        history.len() < MIN_OBSERVATIONS,
    ensures
        renewed(held, history, sensor) == looked_up(held, sensor),
{
}

/// How well a fan cools, as its sensors tell it. The estimate is renewed exactly where
/// ten snapshots are held, the latest knows the sensor, ten of them know it, and the
/// numbers are in range. It then is the slope of the least-squares line through the
/// PWM values and temperatures of all the snapshots that know the sensor: the
/// residuals of them all sum to zero, and so do their products with the PWM values.
/// The slope is nought where the PWM value never changed.
pub proof fn law_effectiveness_is_least_squares(
    held: Map<Seq<char>, Slope>,
    history: Seq<Snapshot>,
    sensor: Seq<char>,
)
    ensures
        ({
            let p = history.filter(|s: Snapshot| s.temps@.contains_key(sensor)).map_values(
                |s: Snapshot| (s.pwm as int, s.temps@[sensor] as int),
            );
            let n = p.len() as int;
            let sx = p.fold_left(0, |t: int, q: (int, int)| t + q.0);
            let sy = p.fold_left(0, |t: int, q: (int, int)| t + q.1);
            let sxx = p.fold_left(0, |t: int, q: (int, int)| t + q.0 * q.0);
            let sxy = p.fold_left(0, |t: int, q: (int, int)| t + q.0 * q.1);
            let in_range = i128::MIN <= n * sxy - sx * sy <= i128::MAX && n * sxx - sx * sx
                <= i128::MAX;
            if history.len() >= 10 && history.last().temps@.contains_key(sensor) && n >= 10
                && in_range {
                renewed(held, history, sensor) matches Some(slope) && {
                    let (a, b, c) = (n * slope.den, n * slope.num, slope.den * sy - slope.num * sx);
                    &&& slope.den > 0
                    &&& (slope.den == n * sxx - sx * sx || (n * sxx - sx * sx == 0 && slope.num
                        == 0))
                    &&& p.fold_left(0, |t: int, q: (int, int)| t + (a * q.1 - b * q.0 - c)) == 0
                    &&& p.fold_left(0, |t: int, q: (int, int)| t + q.0 * (a * q.1 - b * q.0 - c))
                        == 0
                }
            } else {
                renewed(held, history, sensor) == if held.contains_key(sensor) {
                    Some(held[sensor])
                } else {
                    None
                }
            }
        }),
{
    let p = history.filter(|s: Snapshot| s.temps@.contains_key(sensor)).map_values(
        |s: Snapshot| (s.pwm as int, s.temps@[sensor] as int),
    );
    lemma_observations(history, sensor);
    assert(observations(history, sensor) == p);
    law_sums(p);
    law_denominator_not_negative(p);
    let (num, den) = (numerator(p), denominator(p));
    if den == 0 {
        law_upright(p);
        assert(0 * den == 1 * num);
        law_normal_equations(p, 0, 1);
    } else {
        assert(num * den == den * num) by (nonlinear_arith);
        law_normal_equations(p, num, den);
    }
}

proof fn lemma_observations(history: Seq<Snapshot>, sensor: Seq<char>)
    ensures
        observations(history, sensor) == history.filter(
            |s: Snapshot| s.temps@.contains_key(sensor),
        ).map_values(|s: Snapshot| (s.pwm as int, s.temps@[sensor] as int)),
    decreases history.len(),
{
    reveal(Seq::filter);
    let pred = |s: Snapshot| s.temps@.contains_key(sensor);
    let point = |s: Snapshot| (s.pwm as int, s.temps@[sensor] as int);
    if history.len() > 0 {
        let rest = history.drop_last();
        lemma_observations(rest, sensor);
        if pred(history.last()) {
            assert(rest.filter(pred).push(history.last()).map_values(point) =~= rest.filter(
                pred,
            ).map_values(point).push(point(history.last())));
        }
    }
    assert(observations(history, sensor) =~= history.filter(pred).map_values(point));
}

} // verus!
