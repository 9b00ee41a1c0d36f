//! Whole numbers of any size, as far as exact sums and products take them.
use vstd::prelude::*;

verus! {

/// One more than the largest limb.
pub const BASE: u128 = 0x1_0000_0000_0000_0000;

/// A natural number, written in limbs to the base `BASE`, the lowest first.
#[derive(Debug)]
pub struct Wide {
    pub limbs: Vec<u64>,
}

/// What a limb counts for that has `n` limbs below it.
pub open spec fn weight(n: int) -> int
    decreases n,
{
    if n <= 0 {
        1
    } else {
        BASE * weight(n - 1)
    }
}

/// The number that the lowest `n` limbs write.
pub open spec fn number(limbs: Seq<u64>, n: int) -> int
    decreases n,
{
    if n <= 0 {
        0
    } else {
        number(limbs, n - 1) + limbs[n - 1] * weight(n - 1)
    }
}

proof fn lemma_number_bound(limbs: Seq<u64>, n: int)
    requires
        0 <= n <= limbs.len(),
    ensures
        0 <= number(limbs, n) < weight(n),
    decreases n,
{
    if n > 0 {
        lemma_number_bound(limbs, n - 1);
        let limb = limbs[n - 1] as int;
        let w = weight(n - 1);
        assert(0 <= limb * w <= (BASE - 1) * w) by (nonlinear_arith)
            requires
                0 <= limb <= BASE - 1,
                w > 0,
        ;
        assert((BASE - 1) * w + w == BASE * w) by (nonlinear_arith);
    }
}

proof fn lemma_number_same(a: Seq<u64>, b: Seq<u64>, n: int)
    requires
        forall|i: int| 0 <= i < n ==> a[i] == b[i],
    ensures
        number(a, n) == number(b, n),
    decreases n,
{
    if n > 0 {
        lemma_number_same(a, b, n - 1);
    }
}

/// Limbs beyond `len` are zero.
proof fn lemma_number_padded(limbs: Seq<u64>, len: int, n: int)
    requires
        0 <= len <= n <= limbs.len(),
        forall|i: int| len <= i < n ==> limbs[i] == 0,
    ensures
        number(limbs, n) == number(limbs, len),
    decreases n,
{
    if n > len {
        lemma_number_padded(limbs, len, n - 1);
        assert(0 * weight(n - 1) == 0) by (nonlinear_arith);
    }
}

proof fn lemma_number_shifted(shifted: Seq<u64>, limbs: Seq<u64>, n: int)
    requires
        0 <= n <= limbs.len(),
        shifted == seq![0u64] + limbs,
    ensures
        number(shifted, n + 1) == number(limbs, n) * BASE,
    decreases n,
{
    if n <= 0 {
        assert(number(shifted, 1) == number(shifted, 0) + shifted[0] * weight(0));
        assert(0 * weight(0) == 0) by (nonlinear_arith);
    } else {
        lemma_number_shifted(shifted, limbs, n - 1);
        let low = number(limbs, n - 1);
        let limb = limbs[n - 1] as int;
        let w = weight(n - 1);
        assert(shifted[n] == limbs[n - 1]);
        assert(weight(n) == BASE * w);
        assert(low * BASE + limb * (BASE * w) == (low + limb * w) * BASE) by (nonlinear_arith);
    }
}

impl Wide {
    /// The number.
    pub open spec fn value(self) -> int {
        number(self.limbs@, self.limbs@.len() as int)
    }

    /// The number `x`.
    pub fn of(x: u128) -> (r: Self)
        ensures
            r.value() == x,
    {
        let low: u64 = (x % BASE) as u64;
        let high: u64 = (x / BASE) as u64;
        let mut limbs: Vec<u64> = Vec::new();
        limbs.push(low);
        limbs.push(high);
        proof {
            reveal_with_fuel(number, 3);
            reveal_with_fuel(weight, 2);
            assert(x == (x / BASE) * BASE + x % BASE) by (nonlinear_arith);
            assert(number(limbs@, 2) == low * 1 + high * (BASE * 1));
        }
        Wide { limbs }
    }

    /// The limb with `i` limbs below it.
    fn limb(&self, i: usize) -> (r: u64)
        ensures
            r == if i < self.limbs@.len() {
                self.limbs@[i as int]
            } else {
                0
            },
    {
        if i < self.limbs.len() {
            self.limbs[i]
        } else {
            0
        }
    }

    /// The number times `m`.
    fn times_limb(&self, m: u64) -> (r: Self)
        ensures
            r.value() == self.value() * m,
    {
        let n: usize = self.limbs.len();
        let mut limbs: Vec<u64> = Vec::new();
        let mut carry: u64 = 0;
        assert(0 * m == 0) by (nonlinear_arith);
        assert(0 * weight(0) == 0) by (nonlinear_arith);
        for i in 0..n
            invariant
                n == self.limbs@.len(),
                limbs@.len() == i,
                number(limbs@, i as int) + carry * weight(i as int) == number(
                    self.limbs@,
                    i as int,
                ) * m,
        {
            let limb: u64 = self.limbs[i];
            assert(limb * m + carry <= (BASE - 1) * (BASE - 1) + (BASE - 1)) by (nonlinear_arith)
                requires
                    0 <= limb <= BASE - 1,
                    0 <= m <= BASE - 1,
                    0 <= carry <= BASE - 1,
            ;
            assert((BASE - 1) * (BASE - 1) + (BASE - 1) <= u128::MAX) by (nonlinear_arith);
            assert(0 <= limb * m) by (nonlinear_arith)
                requires
                    0 <= limb,
                    0 <= m,
            ;
            let t: u128 = limb as u128 * m as u128 + carry as u128;
            assert(t / BASE <= BASE - 1) by (nonlinear_arith)
                requires
                    0 <= t <= (BASE - 1) * (BASE - 1) + (BASE - 1),
            ;
            let low: u64 = (t % BASE) as u64;
            let high: u64 = (t / BASE) as u64;
            let ghost was = limbs@;
            let ghost held = carry as int;
            limbs.push(low);
            carry = high;
            proof {
                let w = weight(i as int);
                let done = number(self.limbs@, i as int);
                lemma_number_same(limbs@, was, i as int);
                assert(weight(i + 1) == BASE * w);
                assert(t == high * BASE + low) by (nonlinear_arith)
                    requires
                        high == t / BASE,
                        low == t % BASE,
                ;
                assert(low * w + high * (BASE * w) == (high * BASE + low) * w)
                    by (nonlinear_arith);
                assert((limb * m + held) * w == (limb * w) * m + held * w) by (nonlinear_arith);
                assert((done + limb * w) * m == done * m + (limb * w) * m) by (nonlinear_arith);
            }
        }
        let ghost was = limbs@;
        limbs.push(carry);
        proof {
            lemma_number_same(limbs@, was, n as int);
        }
        Wide { limbs }
    }

    /// The number times `BASE`.
    fn shifted(&self) -> (r: Self)
        ensures
            r.value() == self.value() * BASE,
    {
        let mut limbs: Vec<u64> = Vec::new();
        limbs.push(0);
        for i in 0..self.limbs.len()
            invariant
                limbs@ == seq![0u64] + self.limbs@.take(i as int),
        {
            limbs.push(self.limbs[i]);
            assert(self.limbs@.take(i + 1) =~= self.limbs@.take(i as int).push(
                self.limbs@[i as int],
            ));
        }
        proof {
            assert(self.limbs@.take(self.limbs@.len() as int) =~= self.limbs@);
            lemma_number_shifted(limbs@, self.limbs@, self.limbs@.len() as int);
        }
        Wide { limbs }
    }

    /// The sum of the two numbers.
    pub fn plus(&self, other: &Self) -> (r: Self)
        ensures
            r.value() == self.value() + other.value(),
    {
        let n: usize = if self.limbs.len() < other.limbs.len() {
            other.limbs.len()
        } else {
            self.limbs.len()
        };
        let ghost a = padded(self.limbs@, n as int);
        let ghost b = padded(other.limbs@, n as int);
        proof {
            lemma_padded(self.limbs@, n as int);
            lemma_padded(other.limbs@, n as int);
        }
        let mut limbs: Vec<u64> = Vec::new();
        let mut carry: u64 = 0;
        assert(0 * weight(0) == 0) by (nonlinear_arith);
        for i in 0..n
            invariant
                a == padded(self.limbs@, n as int),
                b == padded(other.limbs@, n as int),
                limbs@.len() == i,
                carry <= 1,
                number(limbs@, i as int) + carry * weight(i as int) == number(a, i as int)
                    + number(b, i as int),
        {
            let x: u64 = self.limb(i);
            let y: u64 = other.limb(i);
            let t: u128 = x as u128 + y as u128 + carry as u128;
            let low: u64 = (t % BASE) as u64;
            let ghost was = limbs@;
            let ghost held = carry as int;
            limbs.push(low);
            carry = if t >= BASE {
                1
            } else {
                0
            };
            proof {
                let w = weight(i as int);
                lemma_number_same(limbs@, was, i as int);
                assert(weight(i + 1) == BASE * w);
                assert(t == carry * BASE + low);
                assert(low * w + carry * (BASE * w) == (carry * BASE + low) * w)
                    by (nonlinear_arith);
                assert((x + y + held) * w == x * w + y * w + held * w) by (nonlinear_arith);
            }
        }
        if carry > 0 {
            let ghost was = limbs@;
            limbs.push(carry);
            proof {
                lemma_number_same(limbs@, was, n as int);
            }
        } else {
            assert(0 * weight(n as int) == 0) by (nonlinear_arith);
        }
        Wide { limbs }
    }

    /// The number times `m`.
    pub fn times(&self, m: u128) -> (r: Self)
        ensures
            r.value() == self.value() * m,
    {
        let low: u64 = (m % BASE) as u64;
        let high: u64 = (m / BASE) as u64;
        let r = self.times_limb(high).shifted().plus(&self.times_limb(low));
        proof {
            let v = self.value();
            assert(m == (m / BASE) * BASE + m % BASE) by (nonlinear_arith);
            assert((v * high) * BASE + v * low == v * (high * BASE + low)) by (nonlinear_arith);
        }
        r
    }

    /// A copy.
    pub fn copied(&self) -> (r: Self)
        ensures
            r.value() == self.value(),
    {
        let mut limbs: Vec<u64> = Vec::new();
        for i in 0..self.limbs.len()
            invariant
                limbs@ == self.limbs@.take(i as int),
        {
            limbs.push(self.limbs[i]);
        }
        assert(limbs@ =~= self.limbs@);
        Wide { limbs }
    }

    /// Zero.
    pub fn zero() -> (r: Self)
        ensures
            r.value() == 0,
    {
        Wide { limbs: Vec::new() }
    }

    /// The product of the two numbers.
    pub fn product(&self, other: &Self) -> (r: Self)
        ensures
            r.value() == self.value() * other.value(),
    {
        let n: usize = other.limbs.len();
        let mut sum = Wide::zero();
        let mut power = self.times_limb(1);
        assert(self.value() * weight(0) == self.value()) by (nonlinear_arith)
            requires
                weight(0) == 1,
        ;
        assert(self.value() * 0 == 0) by (nonlinear_arith);
        for i in 0..n
            invariant
                n == other.limbs@.len(),
                power.value() == self.value() * weight(i as int),
                sum.value() == self.value() * number(other.limbs@, i as int),
        {
            let limb: u64 = other.limbs[i];
            proof {
                let v = self.value();
                let w = weight(i as int);
                let low = number(other.limbs@, i as int);
                assert(v * low + (v * w) * limb == v * (low + limb * w)) by (nonlinear_arith);
                assert((v * w) * BASE == v * (BASE * w)) by (nonlinear_arith);
                assert(weight(i + 1) == BASE * w);
            }
            sum = sum.plus(&power.times_limb(limb));
            power = power.shifted();
        }
        sum
    }

    /// The number less `other`.
    pub fn minus(&self, other: &Self) -> (r: Self)
        requires
            other.value() <= self.value(),
        ensures
            r.value() == self.value() - other.value(),
    {
        let n: usize = if self.limbs.len() < other.limbs.len() {
            other.limbs.len()
        } else {
            self.limbs.len()
        };
        let ghost a = padded(self.limbs@, n as int);
        let ghost b = padded(other.limbs@, n as int);
        proof {
            lemma_padded(self.limbs@, n as int);
            lemma_padded(other.limbs@, n as int);
        }
        let mut limbs: Vec<u64> = Vec::new();
        let mut borrow: u64 = 0;
        assert(0 * weight(0) == 0) by (nonlinear_arith);
        for i in 0..n
            invariant
                a == padded(self.limbs@, n as int),
                b == padded(other.limbs@, n as int),
                limbs@.len() == i,
                borrow <= 1,
                number(limbs@, i as int) + number(b, i as int) == number(a, i as int) + borrow
                    * weight(i as int),
        {
            let x: u64 = self.limb(i);
            let y: u64 = other.limb(i);
            let need: u128 = y as u128 + borrow as u128;
            let ghost was = limbs@;
            let ghost held = borrow as int;
            let low: u64;
            if x as u128 >= need {
                low = (x as u128 - need) as u64;
                borrow = 0;
            } else {
                low = (x as u128 + BASE - need) as u64;
                borrow = 1;
            }
            limbs.push(low);
            proof {
                let w = weight(i as int);
                lemma_number_same(limbs@, was, i as int);
                assert(weight(i + 1) == BASE * w);
                assert(low + y + held == x + borrow * BASE);
                assert((low + y + held) * w == low * w + y * w + held * w) by (nonlinear_arith);
                assert((x + borrow * BASE) * w == x * w + borrow * (BASE * w)) by (nonlinear_arith);
            }
        }
        proof {
            lemma_number_bound(limbs@, n as int);
            let w = weight(n as int);
            assert(borrow * w == if borrow == 0 {
                0
            } else {
                w
            }) by (nonlinear_arith)
                requires
                    0 <= borrow <= 1,
            ;
        }
        Wide { limbs }
    }

    /// The number, where 128 bits hold it.
    pub fn to_u128(&self) -> (r: Option<u128>)
        ensures
            match r {
                Some(x) => self.value() == x,
                None => self.value() > u128::MAX,
            },
    {
        let n: usize = self.limbs.len();
        assert(weight(2) == BASE * BASE) by {
            reveal_with_fuel(weight, 3);
        }
        assert(BASE * BASE == u128::MAX + 1) by (nonlinear_arith);
        for i in 0..n
            invariant
                n == self.limbs@.len(),
                weight(2) == u128::MAX + 1,
                forall|k: int| 2 <= k < i ==> #[trigger] self.limbs@[k] == 0,
        {
            if i >= 2 && self.limbs[i] != 0 {
                proof {
                    lemma_number_at_least(self.limbs@, i as int, n as int);
                }
                return None;
            }
        }
        let low: u64 = self.limb(0);
        let high: u64 = self.limb(1);
        proof {
            reveal_with_fuel(number, 3);
            reveal_with_fuel(weight, 2);
            if n >= 2 {
                lemma_number_padded(self.limbs@, 2, n as int);
            }
            assert(self.value() == low * 1 + high * (BASE * 1));
            assert(high * BASE + low <= u128::MAX) by (nonlinear_arith)
                requires
                    0 <= high <= BASE - 1,
                    0 <= low <= BASE - 1,
            ;
            assert(0 <= high * BASE) by (nonlinear_arith)
                requires
                    0 <= high,
            ;
        }
        Some(high as u128 * BASE + low as u128)
    }

    /// Whether the number is greater than `other`.
    pub fn exceeds(&self, other: &Self) -> (r: bool)
        ensures
            r == (self.value() > other.value()),
    {
        let n: usize = if self.limbs.len() < other.limbs.len() {
            other.limbs.len()
        } else {
            self.limbs.len()
        };
        let ghost a = padded(self.limbs@, n as int);
        let ghost b = padded(other.limbs@, n as int);
        proof {
            lemma_padded(self.limbs@, n as int);
            lemma_padded(other.limbs@, n as int);
        }
        let mut r = false;
        for i in 0..n
            invariant
                a == padded(self.limbs@, n as int),
                b == padded(other.limbs@, n as int),
                r == (number(a, i as int) > number(b, i as int)),
        {
            let x: u64 = self.limb(i);
            let y: u64 = other.limb(i);
            proof {
                let w = weight(i as int);
                lemma_number_bound(a, i as int);
                lemma_number_bound(b, i as int);
                if x > y {
                    assert(x * w >= y * w + w) by (nonlinear_arith)
                        requires
                            x >= y + 1,
                            w > 0,
                    ;
                } else if x < y {
                    assert(y * w >= x * w + w) by (nonlinear_arith)
                        requires
                            y >= x + 1,
                            w > 0,
                    ;
                }
            }
            if x > y {
                r = true;
            } else if x < y {
                r = false;
            }
        }
        r
    }
}

/// A limb that is not zero makes a number at least as large as its weight.
proof fn lemma_number_at_least(limbs: Seq<u64>, k: int, n: int)
    requires
        2 <= k < n <= limbs.len(),
        limbs[k] != 0,
    ensures
        number(limbs, n) >= weight(2),
    decreases n,
{
    lemma_number_bound(limbs, n - 1);
    let w = weight(n - 1);
    let limb = limbs[n - 1] as int;
    assert(limb * w >= 0) by (nonlinear_arith)
        requires
            limb >= 0,
            w > 0,
    ;
    if n - 1 > k {
        lemma_number_at_least(limbs, k, n - 1);
    } else {
        lemma_weight_grows(2, k);
        assert(limb * w >= w) by (nonlinear_arith)
            requires
                limb >= 1,
                w > 0,
        ;
    }
}

proof fn lemma_weight_grows(i: int, j: int)
    requires
        0 <= i <= j,
    ensures
        0 < weight(i) <= weight(j),
    decreases j,
{
    if j > i {
        lemma_weight_grows(i, j - 1);
        assert(BASE * weight(j - 1) >= weight(j - 1)) by (nonlinear_arith)
            requires
                weight(j - 1) > 0,
        ;
    } else if i > 0 {
        lemma_weight_grows(i - 1, i - 1);
        assert(BASE * weight(i - 1) > 0) by (nonlinear_arith)
            requires
                weight(i - 1) > 0,
        ;
    }
}

/// The limbs, with zeros up to `n` of them.
spec fn padded(limbs: Seq<u64>, n: int) -> Seq<u64> {
    Seq::new(
        n as nat,
        |i: int|
            if i < limbs.len() {
                limbs[i]
            } else {
                0u64
            },
    )
}

proof fn lemma_padded(limbs: Seq<u64>, n: int)
    requires
        limbs.len() <= n,
    ensures
        number(padded(limbs, n), n) == number(limbs, limbs.len() as int),
{
    lemma_number_padded(padded(limbs, n), limbs.len() as int, n);
    lemma_number_same(padded(limbs, n), limbs, limbs.len() as int);
}

// ---- Whole numbers ----

/// How far `x` is from zero.
pub open spec fn distance(x: int) -> int {
    if x < 0 {
        -x
    } else {
        x
    }
}

/// How far `x` is from zero.
pub fn magnitude(x: i128) -> (r: u128)
    ensures
        r == distance(x as int),
{
    if x < 0 {
        (-(x + 1)) as u128 + 1
    } else {
        x as u128
    }
}

/// A whole number: how far it is from zero, and on which side.
#[derive(Debug)]
pub struct Big {
    pub negative: bool,
    pub size: Wide,
}

impl Big {
    /// The number.
    pub open spec fn value(self) -> int {
        if self.negative {
            -self.size.value()
        } else {
            self.size.value()
        }
    }

    /// The number `x`.
    pub fn of(x: i128) -> (r: Self)
        ensures
            r.value() == x,
            r.size.value() == distance(r.value()),
    {
        Big { negative: x < 0, size: Wide::of(magnitude(x)) }
    }

    /// A copy.
    pub fn copied(&self) -> (r: Self)
        ensures
            r.value() == self.value(),
    {
        Big { negative: self.negative, size: self.size.copied() }
    }

    /// `up` less `down`.
    pub fn difference(up: &Wide, down: &Wide) -> (r: Self)
        ensures
            r.value() == up.value() - down.value(),
            r.size.value() == distance(r.value()),
    {
        if down.exceeds(up) {
            Big { negative: true, size: down.minus(up) }
        } else {
            Big { negative: false, size: up.minus(down) }
        }
    }

    /// The number less `other`.
    pub fn minus(&self, other: &Self) -> (r: Self)
        ensures
            r.value() == self.value() - other.value(),
            r.size.value() == distance(r.value()),
    {
        let nothing = Wide::zero();
        let (a, b) = if self.negative {
            (&nothing, &self.size)
        } else {
            (&self.size, &nothing)
        };
        let (c, d) = if other.negative {
            (&nothing, &other.size)
        } else {
            (&other.size, &nothing)
        };
        Big::difference(&a.plus(d), &b.plus(c))
    }

    /// The product of the two numbers.
    pub fn product(&self, other: &Self) -> (r: Self)
        ensures
            r.value() == self.value() * other.value(),
    {
        let r = Big {
            negative: self.negative != other.negative,
            size: self.size.product(&other.size),
        };
        proof {
            let a = self.size.value();
            let b = other.size.value();
            assert((-a) * b == -(a * b)) by (nonlinear_arith);
            assert(a * (-b) == -(a * b)) by (nonlinear_arith);
            assert((-a) * (-b) == a * b) by (nonlinear_arith);
        }
        r
    }

    /// The number, where 128 bits hold it.
    pub fn to_i128(&self) -> (r: Option<i128>)
        ensures
            match r {
                Some(x) => self.value() == x,
                None => !(i128::MIN <= self.value() <= i128::MAX),
            },
    {
        let size: u128 = match self.size.to_u128() {
            Some(size) => size,
            None => {
                return None;
            },
        };
        if self.negative {
            if size == 0 {
                Some(0)
            } else if size <= 0x8000_0000_0000_0000_0000_0000_0000_0000 {
                Some(-((size - 1) as i128) - 1)
            } else {
                None
            }
        } else if size <= 0x7fff_ffff_ffff_ffff_ffff_ffff_ffff_ffff {
            Some(size as i128)
        } else {
            None
        }
    }
}

/// A sum in the making.
#[derive(Debug)]
pub struct Tally {
    /// What has been added since it last left 128 bits.
    pub small: i128,
    pub up: Wide,
    pub down: Wide,
}

impl Tally {
    /// The sum so far.
    pub open spec fn value(self) -> int {
        self.small + self.up.value() - self.down.value()
    }

    /// Nothing added yet.
    pub fn new() -> (r: Self)
        ensures
            r.value() == 0,
    {
        Tally { small: 0, up: Wide::zero(), down: Wide::zero() }
    }

    /// Adds what is `size` from zero.
    fn add_far(&mut self, negative: bool, size: &Wide)
        ensures
            final(self).value() == old(self).value() + if negative {
                -size.value()
            } else {
                size.value()
            },
            final(self).small == old(self).small,
    {
        if negative {
            self.down = self.down.plus(size);
        } else {
            self.up = self.up.plus(size);
        }
    }

    /// Adds `x`.
    pub fn add(&mut self, x: i128)
        ensures
            final(self).value() == old(self).value() + x,
    {
        match self.small.checked_add(x) {
            Some(small) => {
                self.small = small;
            },
            None => {
                self.add_far(x < 0, &Wide::of(magnitude(x)));
            },
        }
    }

    /// Adds the product of `x` and `y`.
    pub fn add_product(&mut self, x: i128, y: i128)
        ensures
            final(self).value() == old(self).value() + x * y,
    {
        match x.checked_mul(y) {
            Some(p) => self.add(p),
            None => {
                let p = Big::of(x).product(&Big::of(y));
                self.add_far(p.negative, &p.size);
            },
        }
    }

    /// The sum.
    pub fn total(&self) -> (r: Big)
        ensures
            r.value() == self.value(),
            r.size.value() == distance(r.value()),
    {
        let m = Wide::of(magnitude(self.small));
        if self.small < 0 {
            Big::difference(&self.up, &self.down.plus(&m))
        } else {
            Big::difference(&self.up.plus(&m), &self.down)
        }
    }
}

} // verus!
