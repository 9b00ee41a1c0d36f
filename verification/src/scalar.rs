//! Measurements that are stored and compared, never computed with.
use vstd::prelude::*;

verus! {

/// The sign bit of a binary64 number.
pub const SIGN_BIT: u64 = 0x8000_0000_0000_0000;

/// The bit pattern of positive infinity; every larger magnitude is a NaN.
pub const INFINITY_BITS: u64 = 0x7ff0_0000_0000_0000;

/// An IEEE 754 binary64 number, held by its bit pattern.
///
/// The library keeps such numbers and orders them; whoever produced them does
/// the arithmetic. The order below is the one IEEE 754 defines: both zeros are
/// equal and a NaN compares with nothing.
#[derive(Debug, Clone, Copy, PartialEq, Eq, Structural)]
pub struct Scalar {
    pub bits: u64,
}

impl Scalar {
    /// The magnitude's bit pattern: the number with its sign dropped.
    pub open spec fn magnitude(self) -> int {
        if self.bits >= SIGN_BIT {
            self.bits - SIGN_BIT
        } else {
            self.bits as int
        }
    }

    pub open spec fn nan(self) -> bool {
        self.magnitude() > INFINITY_BITS
    }

    pub open spec fn finite(self) -> bool {
        self.magnitude() < INFINITY_BITS
    }

    /// The number's place in the order of all numbers; both zeros have place 0.
    pub open spec fn rank(self) -> int {
        if self.bits >= SIGN_BIT {
            -self.magnitude()
        } else {
            self.magnitude()
        }
    }

    /// `self < other`, as IEEE 754 compares them.
    pub open spec fn below(self, other: Scalar) -> bool {
        !self.nan() && !other.nan() && self.rank() < other.rank()
    }

    /// `self` without its sign.
    pub open spec fn absolute(self) -> Scalar {
        Scalar { bits: self.magnitude() as u64 }
    }

    /// `self` with its sign flipped.
    pub open spec fn negated(self) -> Scalar {
        if self.bits >= SIGN_BIT {
            Scalar { bits: (self.bits - SIGN_BIT) as u64 }
        } else {
            Scalar { bits: (self.bits + SIGN_BIT) as u64 }
        }
    }

    /// Whether the number is neither infinite nor a NaN.
    pub fn is_finite(self) -> (r: bool)
        ensures
            r == self.finite(),
    {
        self.abs().bits < INFINITY_BITS
    }

    /// Whether `self < other`.
    pub fn lt(self, other: Scalar) -> (r: bool)
        ensures
            r == self.below(other),
    {
        let a: u64 = self.abs().bits;
        let b: u64 = other.abs().bits;
        if a > INFINITY_BITS || b > INFINITY_BITS {
            return false;
        }
        if self.bits >= SIGN_BIT {
            if other.bits >= SIGN_BIT {
                b < a
            } else {
                a > 0 || b > 0
            }
        } else {
            if other.bits >= SIGN_BIT {
                false
            } else {
                a < b
            }
        }
    }

    /// The number without its sign.
    pub fn abs(self) -> (r: Scalar)
        ensures
            r == self.absolute(),
    {
        if self.bits >= SIGN_BIT {
            Scalar { bits: self.bits - SIGN_BIT }
        } else {
            self
        }
    }

    /// The number with its sign flipped.
    pub fn neg(self) -> (r: Scalar)
        ensures
            r == self.negated(),
    {
        if self.bits >= SIGN_BIT {
            Scalar { bits: self.bits - SIGN_BIT }
        } else {
            Scalar { bits: self.bits + SIGN_BIT }
        }
    }
}

/// Flipping both signs turns a comparison round, and dropping a sign keeps the
/// distance from zero: the facts that let thresholds be compared by magnitude.
pub proof fn law_sign(a: Scalar, b: Scalar)
    ensures
        a.negated().negated() == a,
        a.negated().rank() == -a.rank(),
        a.absolute().magnitude() == a.magnitude(),
        a.negated().below(b.negated()) == b.below(a),
        a.absolute().below(b.absolute()) == (!a.nan() && !b.nan() && a.magnitude()
            < b.magnitude()),
{
}

/// The comparison is a strict order: irreflexive, transitive, and total on
/// numbers that are no NaN once equal places are set aside.
pub proof fn law_strict_order(a: Scalar, b: Scalar, c: Scalar)
    ensures
        !a.below(a),
        a.below(b) && b.below(c) ==> a.below(c),
        !a.nan() && !b.nan() && a.rank() != b.rank() ==> a.below(b) || b.below(a),
        a.nan() ==> !a.below(b) && !b.below(a),
{
}

/// The comparison in terms of the bit patterns. A pattern whose lower 63 bits exceed
/// those of infinity is a NaN and compares with nothing. Otherwise two numbers
/// without the top bit compare as their patterns do, two with it the other way round,
/// and one with it is below one without it unless both are zeros.
pub proof fn law_below(a: Scalar, b: Scalar)
    ensures
        ({
            let top = 0x8000_0000_0000_0000int;
            let infinity = 0x7ff0_0000_0000_0000int;
            let (x, y) = (a.bits as int, b.bits as int);
            a.below(b) <==> x % top <= infinity && y % top <= infinity && if x < top && y < top {
                x < y
            } else if x >= top && y >= top {
                y < x
            } else {
                x >= top && (x > top || y > 0)
            }
        }),
        a.nan() <==> (a.bits as int) % 0x8000_0000_0000_0000 > 0x7ff0_0000_0000_0000,
        a.finite() <==> (a.bits as int) % 0x8000_0000_0000_0000 < 0x7ff0_0000_0000_0000,
        a.absolute().bits == (a.bits as int) % 0x8000_0000_0000_0000,
        a.negated().bits == ((a.bits as int) + 0x8000_0000_0000_0000)
            % 0x1_0000_0000_0000_0000,
{
}

} // verus!
