//! Least squares on whole numbers, without rounding.
use crate::wide::{distance, Big, Tally};
use vstd::prelude::*;

verus! {

/// The slope of a line, `num / den`; `den` is never below zero, and zero where the
/// points stand above each other.
#[derive(Debug, Clone, Copy, PartialEq, Eq, Structural)]
pub struct Slope {
    pub num: i128,
    pub den: i128,
}

/// Points as numbers.
pub open spec fn as_points(v: Seq<(i128, i128)>) -> Seq<(int, int)> {
    v.map_values(|p: (i128, i128)| (p.0 as int, p.1 as int))
}

pub open spec fn sum_x(s: Seq<(int, int)>) -> int
    decreases s.len(),
{
    if s.len() == 0 {
        0
    } else {
        sum_x(s.drop_last()) + s.last().0
    }
}

pub open spec fn sum_y(s: Seq<(int, int)>) -> int
    decreases s.len(),
{
    if s.len() == 0 {
        0
    } else {
        sum_y(s.drop_last()) + s.last().1
    }
}

pub open spec fn sum_xx(s: Seq<(int, int)>) -> int
    decreases s.len(),
{
    if s.len() == 0 {
        0
    } else {
        sum_xx(s.drop_last()) + s.last().0 * s.last().0
    }
}

pub open spec fn sum_yy(s: Seq<(int, int)>) -> int
    decreases s.len(),
{
    if s.len() == 0 {
        0
    } else {
        sum_yy(s.drop_last()) + s.last().1 * s.last().1
    }
}

pub open spec fn sum_xy(s: Seq<(int, int)>) -> int
    decreases s.len(),
{
    if s.len() == 0 {
        0
    } else {
        sum_xy(s.drop_last()) + s.last().0 * s.last().1
    }
}

/// `n * sum(xy) - sum(x) * sum(y)`: above the fraction bar of the slope of the
/// least-squares line.
pub open spec fn numerator(s: Seq<(int, int)>) -> int {
    s.len() * sum_xy(s) - sum_x(s) * sum_y(s)
}

/// `n * sum(xx) - sum(x) * sum(x)`: below the fraction bar of the slope of the
/// least-squares line.
pub open spec fn denominator(s: Seq<(int, int)>) -> int {
    s.len() * sum_xx(s) - sum_x(s) * sum_x(s)
}

/// `n * sum(yy) - sum(y) * sum(y)`: the variance of the `y` times the square of
/// their number.
pub open spec fn spread_y(s: Seq<(int, int)>) -> int {
    s.len() * sum_yy(s) - sum_y(s) * sum_y(s)
}

/// Whether 128 bits hold the two parts of the slope.
pub open spec fn fits(s: Seq<(int, int)>) -> bool {
    i128::MIN <= numerator(s) <= i128::MAX && i128::MIN <= denominator(s) <= i128::MAX
}

/// The two parts of the slope of the least-squares line through points, and the
/// spread of their `y`.
#[derive(Debug)]
pub struct Moments {
    pub num: Big,
    pub den: Big,
    pub spread: Big,
}

/// What the points say, without any bound.
pub fn moments(points: &Vec<(i128, i128)>) -> (r: Moments)
    ensures
        r.num.value() == numerator(as_points(points@)),
        r.den.value() == denominator(as_points(points@)),
        r.spread.value() == spread_y(as_points(points@)),
        r.spread.size.value() == distance(r.spread.value()),
{
    let n: usize = points.len();
    let ghost p = as_points(points@);
    let mut x = Tally::new();
    let mut y = Tally::new();
    let mut xx = Tally::new();
    let mut xy = Tally::new();
    let mut yy = Tally::new();
    for i in 0..n
        invariant
            n == points@.len(),
            p == as_points(points@),
            x.value() == sum_x(p.take(i as int)),
            y.value() == sum_y(p.take(i as int)),
            xx.value() == sum_xx(p.take(i as int)),
            xy.value() == sum_xy(p.take(i as int)),
            yy.value() == sum_yy(p.take(i as int)),
    {
        let (a, b) = points[i];
        assert(p.take(i + 1).drop_last() =~= p.take(i as int));
        assert(p[i as int] == (a as int, b as int));
        x.add(a);
        y.add(b);
        xx.add_product(a, a);
        xy.add_product(a, b);
        yy.add_product(b, b);
    }
    assert(p.take(n as int) =~= p);
    let count = Big::of(n as i128);
    let (x, y) = (x.total(), y.total());
    Moments {
        num: count.product(&xy.total()).minus(&x.product(&y)),
        den: count.product(&xx.total()).minus(&x.product(&x)),
        spread: count.product(&yy.total()).minus(&y.product(&y)),
    }
}

/// The two parts of the slope of the least-squares line through the points; none
/// where 128 bits do not hold them.
pub fn fit(points: &Vec<(i128, i128)>) -> (r: Option<Slope>)
    ensures
        match r {
            Some(f) => fits(as_points(points@)) && f.num == numerator(as_points(points@)) && f.den
                == denominator(as_points(points@)),
            None => !fits(as_points(points@)),
        },
{
    let m = moments(points);
    match (m.num.to_i128(), m.den.to_i128()) {
        (Some(num), Some(den)) => Some(Slope { num, den }),
        _ => None,
    }
}

// ---- Laws ----

/// Whether every point lies on the line `y = a * x + b`.
pub open spec fn on_line(s: Seq<(int, int)>, a: int, b: int) -> bool {
    forall|i: int| 0 <= i < s.len() ==> (#[trigger] s[i]).1 == a * s[i].0 + b
}

proof fn lemma_line_sums(s: Seq<(int, int)>, a: int, b: int)
    requires
        on_line(s, a, b),
    ensures
        sum_y(s) == a * sum_x(s) + b * s.len(),
        sum_xy(s) == a * sum_xx(s) + b * sum_x(s),
    decreases s.len(),
{
    if s.len() > 0 {
        let t = s.drop_last();
        assert forall|i: int| 0 <= i < t.len() implies (#[trigger] t[i]).1 == a * t[i].0 + b by {
            assert(s[i].1 == a * s[i].0 + b);
        }
        lemma_line_sums(t, a, b);
        let x = s.last().0;
        let y = s.last().1;
        assert(y == a * x + b);
        assert(a * sum_x(t) + a * x == a * (sum_x(t) + x)) by (nonlinear_arith);
        assert(b * t.len() + b == b * s.len()) by (nonlinear_arith)
            requires
                s.len() == t.len() + 1,
        ;
        assert(x * (a * x + b) == a * (x * x) + b * x) by (nonlinear_arith);
        assert(a * sum_xx(t) + a * (x * x) == a * (sum_xx(t) + x * x)) by (nonlinear_arith);
        assert(b * sum_x(t) + b * x == b * (sum_x(t) + x)) by (nonlinear_arith);
    } else {
        assert(a * 0 + b * 0 == 0) by (nonlinear_arith);
    }
}

/// The slope of points on a line is that line's slope, exactly.
pub proof fn law_line(s: Seq<(int, int)>, a: int, b: int)
    requires
        on_line(s, a, b),
    ensures
        numerator(s) == a * denominator(s),
{
    lemma_line_sums(s, a, b);
    let n = s.len() as int;
    let sx = sum_x(s);
    let sxx = sum_xx(s);
    assert(n * (a * sxx + b * sx) - sx * (a * sx + b * n) == a * (n * sxx - sx * sx))
        by (nonlinear_arith);
}

/// `sum((x_i - c)^2)` in terms of the sums.
spec fn spread(s: Seq<(int, int)>, c: int) -> int {
    sum_xx(s) - 2 * c * sum_x(s) + s.len() * (c * c)
}

proof fn lemma_spread(s: Seq<(int, int)>, c: int)
    ensures
        spread(s, c) >= 0,
    decreases s.len(),
{
    if s.len() > 0 {
        let t = s.drop_last();
        lemma_spread(t, c);
        let x = s.last().0;
        assert(spread(s, c) == spread(t, c) + (x - c) * (x - c)) by (nonlinear_arith)
            requires
                spread(s, c) == sum_xx(t) + x * x - 2 * c * (sum_x(t) + x) + (t.len() + 1) * (c
                    * c),
                spread(t, c) == sum_xx(t) - 2 * c * sum_x(t) + t.len() * (c * c),
        ;
        assert((x - c) * (x - c) >= 0) by (nonlinear_arith);
    } else {
        assert(2 * c * 0 == 0 && 0 * (c * c) == 0) by (nonlinear_arith);
    }
}

/// The denominator is never negative.
pub proof fn law_denominator_not_negative(s: Seq<(int, int)>)
    ensures
        denominator(s) >= 0,
    decreases s.len(),
{
    if s.len() > 0 {
        let t = s.drop_last();
        law_denominator_not_negative(t);
        let x = s.last().0;
        lemma_spread(t, x);
        let n = t.len() as int;
        let a = sum_x(t);
        let b = sum_xx(t);
        assert((n + 1) * (b + x * x) - (a + x) * (a + x) == n * b - a * a + (b - 2 * x * a + n * (x
            * x))) by (nonlinear_arith);
    }
}

/// The points with `x` and `y` exchanged.
spec fn swapped(s: Seq<(int, int)>) -> Seq<(int, int)> {
    s.map_values(|p: (int, int)| (p.1, p.0))
}

proof fn lemma_swapped(s: Seq<(int, int)>)
    ensures
        sum_x(swapped(s)) == sum_y(s),
        sum_xx(swapped(s)) == sum_yy(s),
        swapped(s).len() == s.len(),
    decreases s.len(),
{
    if s.len() > 0 {
        lemma_swapped(s.drop_last());
        assert(swapped(s).drop_last() =~= swapped(s.drop_last()));
    }
}

/// The spread is never negative.
pub proof fn law_spread_not_negative(s: Seq<(int, int)>)
    ensures
        spread_y(s) >= 0,
{
    lemma_swapped(s);
    law_denominator_not_negative(swapped(s));
}

// ---- Least squares ----

/// The sums are the sums: of `x`, of `y`, of their squares and of their products,
/// over all points.
pub proof fn law_sums(s: Seq<(int, int)>)
    ensures
        sum_x(s) == s.fold_left(0, |t: int, p: (int, int)| t + p.0),
        sum_y(s) == s.fold_left(0, |t: int, p: (int, int)| t + p.1),
        sum_xx(s) == s.fold_left(0, |t: int, p: (int, int)| t + p.0 * p.0),
        sum_yy(s) == s.fold_left(0, |t: int, p: (int, int)| t + p.1 * p.1),
        sum_xy(s) == s.fold_left(0, |t: int, p: (int, int)| t + p.0 * p.1),
    decreases s.len(),
{
    if s.len() > 0 {
        law_sums(s.drop_last());
    }
}

proof fn lemma_fold_linear(s: Seq<(int, int)>, a: int, b: int, c: int)
    ensures
        s.fold_left(0, |t: int, p: (int, int)| t + (a * p.1 - b * p.0 - c)) == a * sum_y(s) - b
            * sum_x(s) - c * s.len(),
        s.fold_left(0, |t: int, p: (int, int)| t + p.0 * (a * p.1 - b * p.0 - c)) == a * sum_xy(s)
            - b * sum_xx(s) - c * sum_x(s),
    decreases s.len(),
{
    if s.len() > 0 {
        let t = s.drop_last();
        let p = s.last();
        lemma_fold_linear(t, a, b, c);
        let (sx, sy, sxx, sxy, n) = (sum_x(t), sum_y(t), sum_xx(t), sum_xy(t), t.len() as int);
        assert(a * sy - b * sx - c * n + (a * p.1 - b * p.0 - c) == a * (sy + p.1) - b * (sx + p.0)
            - c * (n + 1)) by (nonlinear_arith);
        let (x, y) = p;
        assert(x * (a * y - b * x - c) == a * (x * y) - b * (x * x) - c * x) by (nonlinear_arith);
        assert(a * (sxy + x * y) == a * sxy + a * (x * y)) by (nonlinear_arith);
        assert(b * (sxx + x * x) == b * sxx + b * (x * x)) by (nonlinear_arith);
        assert(c * (sx + x) == c * sx + c * x) by (nonlinear_arith);
    } else {
        assert(a * 0 - b * 0 - c * 0 == 0) by (nonlinear_arith);
    }
}

/// Where the `x` do not spread, they are all the same, and neither part of the slope
/// is other than zero.
pub proof fn law_upright(s: Seq<(int, int)>)
    requires
        denominator(s) == 0,
    ensures
        numerator(s) == 0,
        forall|i: int| 0 <= i < s.len() ==> (#[trigger] s[i]).0 == s.last().0,
    decreases s.len(),
{
    if s.len() > 0 {
        let t = s.drop_last();
        let x = s.last().0;
        law_denominator_not_negative(t);
        lemma_spread(t, x);
        let n = t.len() as int;
        let a = sum_x(t);
        let b = sum_xx(t);
        assert((n + 1) * (b + x * x) - (a + x) * (a + x) == n * b - a * a + (b - 2 * x * a + n * (x
            * x))) by (nonlinear_arith);
        assert(denominator(s) == denominator(t) + spread(t, x));
        lemma_no_spread(t, x);
        assert forall|i: int| 0 <= i < s.len() implies (#[trigger] s[i]).0 == x by {
            if i < t.len() {
                assert(t[i].0 == x);
            }
        }
        lemma_upright_sums(s, x);
        let m = s.len() as int;
        let sy = sum_y(s);
        assert(m * (x * sy) - (m * x) * sy == 0) by (nonlinear_arith);
    }
}

proof fn lemma_no_spread(s: Seq<(int, int)>, c: int)
    requires
        spread(s, c) == 0,
    ensures
        forall|i: int| 0 <= i < s.len() ==> (#[trigger] s[i]).0 == c,
    decreases s.len(),
{
    if s.len() > 0 {
        let t = s.drop_last();
        let x = s.last().0;
        lemma_spread(t, c);
        assert(spread(s, c) == spread(t, c) + (x - c) * (x - c)) by (nonlinear_arith)
            requires
                spread(s, c) == sum_xx(t) + x * x - 2 * c * (sum_x(t) + x) + (t.len() + 1) * (c
                    * c),
                spread(t, c) == sum_xx(t) - 2 * c * sum_x(t) + t.len() * (c * c),
        ;
        assert((x - c) * (x - c) >= 0 && ((x - c) * (x - c) == 0 ==> x == c)) by (nonlinear_arith);
        lemma_no_spread(t, c);
        assert forall|i: int| 0 <= i < s.len() implies (#[trigger] s[i]).0 == c by {
            if i < t.len() {
                assert(t[i].0 == c);
            }
        }
    }
}

proof fn lemma_upright_sums(s: Seq<(int, int)>, x: int)
    requires
        forall|i: int| 0 <= i < s.len() ==> (#[trigger] s[i]).0 == x,
    ensures
        sum_x(s) == s.len() * x,
        sum_xy(s) == x * sum_y(s),
    decreases s.len(),
{
    if s.len() > 0 {
        let t = s.drop_last();
        assert forall|i: int| 0 <= i < t.len() implies (#[trigger] t[i]).0 == x by {
            assert(s[i].0 == x);
        }
        lemma_upright_sums(t, x);
        let (n, sy, y) = (t.len() as int, sum_y(t), s.last().1);
        assert(n * x + x == (n + 1) * x) by (nonlinear_arith);
        assert(x * sy + x * y == x * (sy + y)) by (nonlinear_arith);
    } else {
        assert(0 * x == 0 && x * 0 == 0) by (nonlinear_arith);
    }
}

/// Whether `num / den` is the slope that the two parts give; any slope where the
/// points stand above each other.
pub open spec fn is_slope(s: Seq<(int, int)>, num: int, den: int) -> bool {
    num * denominator(s) == den * numerator(s)
}

/// The normal equations. With the slope `numerator / denominator` and the line
/// through the middle of the points, the residuals of all points sum to zero, and
/// so do their products with the `x`. Residuals are taken `n * den` times.
pub proof fn law_normal_equations(s: Seq<(int, int)>, num: int, den: int)
    requires
        is_slope(s, num, den),
    ensures
        ({
            let n = s.len() as int;
            let sx = s.fold_left(0, |t: int, p: (int, int)| t + p.0);
            let sy = s.fold_left(0, |t: int, p: (int, int)| t + p.1);
            let (a, b, c) = (n * den, n * num, den * sy - num * sx);
            &&& s.fold_left(0, |t: int, p: (int, int)| t + (a * p.1 - b * p.0 - c)) == 0
            &&& s.fold_left(0, |t: int, p: (int, int)| t + p.0 * (a * p.1 - b * p.0 - c)) == 0
        }),
{
    law_sums(s);
    let n = s.len() as int;
    let (sx, sy, sxx, sxy) = (sum_x(s), sum_y(s), sum_xx(s), sum_xy(s));
    let (a, b, c) = (n * den, n * num, den * sy - num * sx);
    lemma_fold_linear(s, a, b, c);
    assert((n * den) * sy - (n * num) * sx - (den * sy - num * sx) * n == 0) by (nonlinear_arith);
    assert(num * (n * sxx - sx * sx) == (n * num) * sxx - num * (sx * sx)) by (nonlinear_arith);
    assert(den * (n * sxy - sx * sy) == (n * den) * sxy - den * (sx * sy)) by (nonlinear_arith);
    assert((den * sy - num * sx) * sx == den * (sx * sy) - num * (sx * sx)) by (nonlinear_arith);
}

proof fn lemma_fold_squares(
    s: Seq<(int, int)>,
    k: int,
    d: int,
    u: int,
    v: int,
    a: int,
    b: int,
    c: int,
)
    ensures
        s.fold_left(
            0,
            |t: int, p: (int, int)| t + (k * (d * p.1 - u * p.0 - v)) * (k * (d * p.1 - u * p.0
                - v)),
        ) == k * k * s.fold_left(
            0,
            |t: int, p: (int, int)| t + (d * p.1 - u * p.0 - v) * (d * p.1 - u * p.0 - v),
        ),
        s.fold_left(0, |t: int, p: (int, int)| t + (a * p.0 + b) * (a * p.0 + b)) >= 0,
        s.fold_left(
            0,
            |t: int, p: (int, int)|
                t + (d * (u * p.1 - v * p.0 - c) + (a * p.0 + b)) * (d * (u * p.1 - v * p.0 - c) + (a
                    * p.0 + b)),
        ) == d * d * s.fold_left(
            0,
            |t: int, p: (int, int)| t + (u * p.1 - v * p.0 - c) * (u * p.1 - v * p.0 - c),
        ) + 2 * d * a * s.fold_left(
            0,
            |t: int, p: (int, int)| t + p.0 * (u * p.1 - v * p.0 - c),
        ) + 2 * d * b * s.fold_left(0, |t: int, p: (int, int)| t + (u * p.1 - v * p.0 - c))
            + s.fold_left(0, |t: int, p: (int, int)| t + (a * p.0 + b) * (a * p.0 + b)),
    decreases s.len(),
{
    if s.len() > 0 {
        let r = s.drop_last();
        let p = s.last();
        lemma_fold_squares(r, k, d, u, v, a, b, c);
        let f = d * p.1 - u * p.0 - v;
        let f0 = r.fold_left(
            0,
            |t: int, p: (int, int)| t + (d * p.1 - u * p.0 - v) * (d * p.1 - u * p.0 - v),
        );
        assert(k * k * f0 + (k * f) * (k * f) == k * k * (f0 + f * f)) by (nonlinear_arith);
        let g = a * p.0 + b;
        assert(g * g >= 0) by (nonlinear_arith);
        let e = u * p.1 - v * p.0 - c;
        let x = p.0;
        let e0 = r.fold_left(
            0,
            |t: int, p: (int, int)| t + (u * p.1 - v * p.0 - c) * (u * p.1 - v * p.0 - c),
        );
        let e1 = r.fold_left(0, |t: int, p: (int, int)| t + p.0 * (u * p.1 - v * p.0 - c));
        let e2 = r.fold_left(0, |t: int, p: (int, int)| t + (u * p.1 - v * p.0 - c));
        assert((d * e + g) * (d * e + g) == d * d * (e * e) + 2 * d * (g * e) + g * g)
            by (nonlinear_arith);
        assert(g * e == a * (x * e) + b * e) by (nonlinear_arith)
            requires
                g == a * x + b,
        ;
        assert(2 * d * (a * (x * e) + b * e) == 2 * d * a * (x * e) + 2 * d * b * e)
            by (nonlinear_arith);
        assert(d * d * (e0 + e * e) == d * d * e0 + d * d * (e * e)) by (nonlinear_arith);
        assert(2 * d * a * (e1 + x * e) == 2 * d * a * e1 + 2 * d * a * (x * e)) by (nonlinear_arith);
        assert(2 * d * b * (e2 + e) == 2 * d * b * e2 + 2 * d * b * e) by (nonlinear_arith);
    } else {
        assert(k * k * 0 == 0 && d * d * 0 == 0 && 2 * d * a * 0 == 0 && 2 * d * b * 0 == 0)
            by (nonlinear_arith);
    }
}

/// Least squares. No line `y = (u * x + v) / d` comes closer to the points than the
/// one with the slope `numerator / denominator` through their middle: the squares of
/// its residuals, summed over all points, are not smaller. On either side the
/// residuals are taken as many times, `n * den * d`.
pub proof fn law_least_squares(
    s: Seq<(int, int)>,
    num: int,
    den: int,
    u: int,
    v: int,
    d: int,
)
    requires
        is_slope(s, num, den),
    ensures
        ({
            let n = s.len() as int;
            let sx = s.fold_left(0, |t: int, p: (int, int)| t + p.0);
            let sy = s.fold_left(0, |t: int, p: (int, int)| t + p.1);
            let (a, b, c) = (n * den, n * num, den * sy - num * sx);
            d * d * s.fold_left(
                0,
                |t: int, p: (int, int)| t + (a * p.1 - b * p.0 - c) * (a * p.1 - b * p.0 - c),
            ) <= (n * den) * (n * den) * s.fold_left(
                0,
                |t: int, p: (int, int)| t + (d * p.1 - u * p.0 - v) * (d * p.1 - u * p.0 - v),
            )
        }),
{
    law_normal_equations(s, num, den);
    let n = s.len() as int;
    let sx = s.fold_left(0, |t: int, p: (int, int)| t + p.0);
    let sy = s.fold_left(0, |t: int, p: (int, int)| t + p.1);
    let (a, b, c) = (n * den, n * num, den * sy - num * sx);
    let (g, h) = (d * b - a * u, d * c - a * v);
    lemma_fold_squares(s, a, d, u, v, 0, 0, 0);
    lemma_fold_squares(s, 0, d, a, b, g, h, c);
    lemma_same_squares(s, a, b, c, u, v, d);
    assert(2 * d * g * 0 == 0 && 2 * d * h * 0 == 0) by (nonlinear_arith);
}

proof fn lemma_same_squares(s: Seq<(int, int)>, a: int, b: int, c: int, u: int, v: int, d: int)
    ensures
        ({
            let (g, h) = (d * b - a * u, d * c - a * v);
            s.fold_left(
                0,
                |t: int, p: (int, int)| t + (a * (d * p.1 - u * p.0 - v)) * (a * (d * p.1 - u * p.0
                    - v)),
            ) == s.fold_left(
                0,
                |t: int, p: (int, int)|
                    t + (d * (a * p.1 - b * p.0 - c) + (g * p.0 + h)) * (d * (a * p.1 - b * p.0 - c)
                        + (g * p.0 + h)),
            )
        }),
    decreases s.len(),
{
    if s.len() > 0 {
        lemma_same_squares(s.drop_last(), a, b, c, u, v, d);
        let (x, y) = s.last();
        let (g, h) = (d * b - a * u, d * c - a * v);
        assert(a * (d * y - u * x - v) == d * a * y - a * u * x - a * v) by (nonlinear_arith);
        assert(d * (a * y - b * x - c) == d * a * y - d * b * x - d * c) by (nonlinear_arith);
        assert(g * x == d * b * x - a * u * x) by (nonlinear_arith)
            requires
                g == d * b - a * u,
        ;
    }
}

/// Points that are moved up keep their slope.
pub proof fn law_shift(s: Seq<(int, int)>, r: Seq<(int, int)>, h: int)
    requires
        r.len() == s.len(),
        forall|k: int| 0 <= k < s.len() ==> (#[trigger] r[k]).0 == s[k].0 && r[k].1 == s[k].1 + h,
    ensures
        numerator(r) == numerator(s),
        denominator(r) == denominator(s),
{
    lemma_shift(s, r, h);
    let (n, sx, sy, sxy) = (s.len() as int, sum_x(s), sum_y(s), sum_xy(s));
    assert(n * (sxy + h * sx) - sx * (sy + n * h) == n * sxy - sx * sy) by (nonlinear_arith);
}

proof fn lemma_shift(s: Seq<(int, int)>, r: Seq<(int, int)>, h: int)
    requires
        r.len() == s.len(),
        forall|k: int| 0 <= k < s.len() ==> (#[trigger] r[k]).0 == s[k].0 && r[k].1 == s[k].1 + h,
    ensures
        sum_x(r) == sum_x(s),
        sum_xx(r) == sum_xx(s),
        sum_y(r) == sum_y(s) + s.len() * h,
        sum_xy(r) == sum_xy(s) + h * sum_x(s),
    decreases s.len(),
{
    if s.len() > 0 {
        let (t, u) = (s.drop_last(), r.drop_last());
        assert forall|k: int| 0 <= k < t.len() implies (#[trigger] u[k]).0 == t[k].0 && u[k].1
            == t[k].1 + h by {
            assert(r[k].0 == s[k].0);
        }
        lemma_shift(t, u, h);
        assert(r[s.len() - 1].0 == s[s.len() - 1].0);
        let (n, x, y, sx) = (t.len() as int, s.last().0, s.last().1, sum_x(t));
        assert(n * h + h == (n + 1) * h) by (nonlinear_arith);
        assert(x * (y + h) == x * y + h * x) by (nonlinear_arith);
        assert(h * sx + h * x == h * (sx + x)) by (nonlinear_arith);
    } else {
        assert(0 * h == 0 && h * 0 == 0) by (nonlinear_arith);
    }
}

} // verus!
