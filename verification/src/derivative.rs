//! How fast a temperature changes, over a rolling window of readings.
use crate::regression::{as_points, denominator, fit, fits, numerator, on_line, Slope};
use std::collections::VecDeque;
use vstd::prelude::*;

verus! {

/// A temperature reading: when it was taken, in nanoseconds of a clock that does
/// not go back, and the temperature in thousandths of a degree Celsius.
#[derive(Debug, Clone, Copy, PartialEq, Eq, Structural)]
pub struct Reading {
    pub time: u64,
    pub temp: i64,
}

/// How fast a temperature changes.
#[derive(Debug, Clone, Copy, PartialEq, Eq, Structural)]
pub enum Rate {
    /// Not at all, as far as can be told.
    Level,
    /// By the slope in thousandths of a degree per nanosecond.
    Changing(Slope),
    /// By a slope whose parts 128 bits do not hold.
    Beyond,
}

/// A window no wider than this, as `n * sum(xx) - sum(x) * sum(x)` in square
/// nanoseconds, says nothing of the rate: below 2^-52 square seconds.
pub const NARROWEST: i128 = 222;

/// Tracks temperature readings over a rolling window and computes dT/dt by
/// least squares.
#[derive(Debug)]
pub struct DerivativeTracker {
    pub buffer: VecDeque<Reading>,
    pub window_size: usize,
}

/// Nanoseconds from `t0` to `t`; none where `t` is the earlier one.
pub open spec fn elapsed(t: u64, t0: u64) -> int {
    if t <= t0 {
        0
    } else {
        t - t0
    }
}

/// The readings as points: time since the first one, and temperature.
pub open spec fn points(readings: Seq<Reading>) -> Seq<(int, int)> {
    Seq::new(
        readings.len(),
        |i: int| (elapsed(readings[i].time, readings[0].time), readings[i].temp as int),
    )
}

/// How fast the readings change.
pub open spec fn rate_of(readings: Seq<Reading>) -> Rate {
    let p = points(readings);
    if readings.len() < 2 {
        Rate::Level
    } else if !fits(p) {
        Rate::Beyond
    } else if denominator(p) <= NARROWEST {
        Rate::Level
    } else {
        Rate::Changing(Slope { num: numerator(p) as i128, den: denominator(p) as i128 })
    }
}

/// The window `w` with one more reading: where it is full, the oldest one gives
/// way.
pub open spec fn rolled(w: Seq<Reading>, window_size: usize, r: Reading) -> Seq<Reading> {
    if w.len() >= window_size && w.len() > 0 {
        w.drop_first().push(r)
    } else {
        w.push(r)
    }
}

fn since(t: u64, t0: u64) -> (r: u64)
    ensures
        r == elapsed(t, t0),
{
    if t <= t0 {
        0
    } else {
        t - t0
    }
}

impl DerivativeTracker {
    pub fn new(window_size: usize) -> (r: Self)
        ensures
            r.buffer@.len() == 0,
            r.window_size == window_size,
    {
        DerivativeTracker { buffer: VecDeque::new(), window_size }
    }

    /// Push a new temperature reading taken at the given time.
    pub fn push_at(&mut self, time: u64, temp: i64)
        ensures
            final(self).buffer@ == rolled(
                old(self).buffer@,
                old(self).window_size,
                Reading { time, temp },
            ),
            final(self).window_size == old(self).window_size,
    {
        if self.buffer.len() >= self.window_size {
            let _ = self.buffer.pop_front();
        }
        self.buffer.push_back(Reading { time, temp });
        assert(self.buffer@ =~= rolled(
            old(self).buffer@,
            old(self).window_size,
            Reading { time, temp },
        ));
    }

    /// How fast the temperature changes, by least squares; `Level` if fewer than
    /// 2 readings are there.
    pub fn dt_per_second(&self) -> (r: Rate)
        ensures
            r == rate_of(self.buffer@),
    {
        let n: usize = self.buffer.len();
        if n < 2 {
            return Rate::Level;
        }
        let t0: u64 = self.buffer[0].time;
        let mut p: Vec<(i128, i128)> = Vec::new();
        for i in 0..n
            invariant
                n == self.buffer@.len(),
                n >= 2,
                t0 == self.buffer@[0].time,
                p@.len() == i,
                forall|k: int| 0 <= k < i ==> (#[trigger] p@[k]).0 == points(self.buffer@)[k].0
                    && p@[k].1 == points(self.buffer@)[k].1,
        {
            let reading = self.buffer[i];
            p.push((since(reading.time, t0) as i128, reading.temp as i128));
        }
        assert(as_points(p@) =~= points(self.buffer@));
        match fit(&p) {
            None => Rate::Beyond,
            Some(slope) => if slope.den <= NARROWEST {
                Rate::Level
            } else {
                Rate::Changing(slope)
            },
        }
    }

    /// Latest temperature reading, if any.
    pub fn latest_temp(&self) -> (r: Option<i64>)
        ensures
            match r {
                Some(t) => self.buffer@.len() > 0 && t == self.buffer@.last().temp,
                None => self.buffer@.len() == 0,
            },
    {
        let n: usize = self.buffer.len();
        if n == 0 {
            None
        } else {
            Some(self.buffer[n - 1].temp)
        }
    }

    /// Number of readings currently in the window.
    pub fn len(&self) -> (r: usize)
        ensures
            r == self.buffer@.len(),
    {
        self.buffer.len()
    }

    pub fn is_empty(&self) -> (r: bool)
        ensures
            r == (self.buffer@.len() == 0),
    {
        self.buffer.len() == 0
    }
}

// ---- Laws ----

/// The window after the readings `s`, one after another.
pub open spec fn window_after(s: Seq<Reading>, window_size: usize) -> Seq<Reading>
    decreases s.len(),
{
    if s.len() == 0 {
        s
    } else {
        rolled(window_after(s.drop_last(), window_size), window_size, s.last())
    }
}

/// The window holds the latest readings, as many as fit into it.
pub proof fn law_window_holds_latest(s: Seq<Reading>, window_size: usize)
    requires
        window_size > 0,
    ensures
        window_after(s, window_size) == s.skip(
            if s.len() > window_size {
                s.len() - window_size
            } else {
                0
            },
        ),
    decreases s.len(),
{
    let n = s.len() as int;
    let w = window_size as int;
    if n > 0 {
        let t = s.drop_last();
        law_window_holds_latest(t, window_size);
        if n > w {
            assert(window_after(s, window_size) =~= s.skip(n - w));
        } else {
            assert(window_after(s, window_size) =~= s.skip(0));
        }
    } else {
        assert(s =~= s.skip(0));
    }
}

/// Readings that rise by `a` thousandths of a degree in every nanosecond have the
/// rate `a`, exactly; with `a` zero: readings that stay the same do not change.
pub proof fn law_steady_rate(readings: Seq<Reading>, a: int, b: int)
    requires
        on_line(points(readings), a, b),
    ensures
        match rate_of(readings) {
            Rate::Changing(slope) => slope.num == a * slope.den && slope.den > 0,
            _ => true,
        },
{
    let p = points(readings);
    crate::regression::law_line(p, a, b);
}

/// The rate is the slope of the least-squares line through every reading in the
/// window, for any readings: `p` are the times since the first reading, in
/// nanoseconds, and the temperatures. With the line of that slope through the middle
/// of the readings, the residuals of all readings sum to zero, and so do their
/// products with the times. No rate is told where there are fewer than two readings
/// or they are as good as simultaneous, and only there; a slope that 128 bits do not
/// hold is told as such.
pub proof fn law_rate_is_least_squares(readings: Seq<Reading>, p: Seq<(int, int)>)
    requires
        p.len() == readings.len(),
        forall|k: int|
            0 <= k < p.len() ==> (#[trigger] p[k]).1 == readings[k].temp && p[k].0 == if readings[k].time
                > readings[0].time {
                readings[k].time - readings[0].time
            } else {
                0
            },
    ensures
        ({
            let n = p.len() as int;
            let sx = p.fold_left(0, |t: int, q: (int, int)| t + q.0);
            let sy = p.fold_left(0, |t: int, q: (int, int)| t + q.1);
            let sxx = p.fold_left(0, |t: int, q: (int, int)| t + q.0 * q.0);
            let sxy = p.fold_left(0, |t: int, q: (int, int)| t + q.0 * q.1);
            let held = i128::MIN <= n * sxy - sx * sy <= i128::MAX && n * sxx - sx * sx <= i128::MAX;
            match rate_of(readings) {
                Rate::Changing(slope) => {
                    let (a, b, c) = (n * slope.den, n * slope.num, slope.den * sy - slope.num * sx);
                    &&& n >= 2
                    &&& held
                    &&& slope.den == n * sxx - sx * sx
                    &&& slope.den > 222
                    &&& p.fold_left(0, |t: int, q: (int, int)| t + (a * q.1 - b * q.0 - c)) == 0
                    &&& p.fold_left(0, |t: int, q: (int, int)| t + q.0 * (a * q.1 - b * q.0 - c))
                        == 0
                },
                Rate::Level => n < 2 || (held && n * sxx - sx * sx <= 222),
                Rate::Beyond => n >= 2 && !held,
            }
        }),
{
    assert(p =~= points(readings));
    crate::regression::law_sums(p);
    crate::regression::law_denominator_not_negative(p);
    assert(numerator(p) * denominator(p) == denominator(p) * numerator(p)) by (nonlinear_arith);
    crate::regression::law_normal_equations(p, numerator(p), denominator(p));
}

/// The rate does not depend on when the clock started nor on where the temperature
/// scale starts.
pub proof fn law_rate_is_relative(readings: Seq<Reading>, others: Seq<Reading>, d: int, h: int)
    requires
        others.len() == readings.len(),
        forall|k: int|
            0 <= k < others.len() ==> (#[trigger] others[k]).time == readings[k].time + d
                && others[k].temp == readings[k].temp + h,
    ensures
        match (rate_of(readings), rate_of(others)) {
            (Rate::Changing(a), Rate::Changing(b)) => a.num == b.num && a.den == b.den,
            (Rate::Changing(_), _) => false,
            (Rate::Level, r) => r is Level,
            (Rate::Beyond, r) => r is Beyond,
        },
{
    let p = points(readings);
    let q = points(others);
    if readings.len() >= 2 {
        assert forall|k: int| 0 <= k < p.len() implies (#[trigger] q[k]).0 == p[k].0 && q[k].1
            == p[k].1 + h by {
            assert(others[k].time == readings[k].time + d);
            assert(others[0].time == readings[0].time + d);
        }
        crate::regression::law_shift(p, q, h);
    }
}

} // verus!
