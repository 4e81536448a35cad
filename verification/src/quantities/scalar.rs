//! Real numbers in IEEE 754 binary64, held by their bit patterns.

use vstd::prelude::*;

verus! {

/// The sign bit of a binary64 pattern.
pub const SIGN_BIT: u64 = 0x8000_0000_0000_0000;

/// The pattern of positive infinity; every larger magnitude is a NaN.
pub const INFINITY_BITS: u64 = 0x7ff0_0000_0000_0000;

/// The pattern of the number one.
pub const ONE_BITS: u64 = 0x3ff0_0000_0000_0000;

/// A binary64 number, identified by its 64 bits.
///
/// Derived equality compares patterns; [`Real::eq_value`] compares numbers.
#[derive(Clone, Copy, Debug, PartialEq, Eq, Structural)]
pub struct Real {
    pub bits: u64,
}

impl Real {
    /// Whether the sign bit is set.
    pub open spec fn negative(self) -> bool {
        self.bits >= SIGN_BIT
    }

    /// The pattern with the sign bit cleared.
    pub open spec fn magnitude(self) -> int {
        if self.bits >= SIGN_BIT {
            self.bits - SIGN_BIT
        } else {
            self.bits as int
        }
    }

    /// Whether the pattern encodes no number.
    pub open spec fn nan(self) -> bool {
        self.magnitude() > INFINITY_BITS
    }

    /// Whether the pattern encodes positive or negative zero.
    pub open spec fn zero(self) -> bool {
        self.magnitude() == 0
    }

    /// A signed integer that grows with the number encoded: both zeros
    /// are 0, and among numbers a larger ordinal is a larger number.
    pub open spec fn ordinal(self) -> int {
        if self.negative() {
            -self.magnitude()
        } else {
            self.magnitude()
        }
    }

    /// The place of the pattern in the IEEE 754 total order: negative
    /// patterns by falling magnitude, then positive ones by rising magnitude,
    /// so that negative zero comes directly before positive zero.
    pub open spec fn rank(self) -> int {
        if self.negative() {
            -self.magnitude() - 1
        } else {
            self.magnitude()
        }
    }

    /// The pattern with the sign bit flipped.
    pub open spec fn negated(self) -> Real {
        if self.bits >= SIGN_BIT {
            Real { bits: (self.bits - SIGN_BIT) as u64 }
        } else {
            Real { bits: (self.bits + SIGN_BIT) as u64 }
        }
    }

    /// The pattern with the sign bit cleared.
    pub open spec fn absolute(self) -> Real {
        Real { bits: self.magnitude() as u64 }
    }

    /// Numeric `<`: false as soon as a NaN is involved.
    pub open spec fn less(self, other: Real) -> bool {
        !self.nan() && !other.nan() && self.ordinal() < other.ordinal()
    }

    /// Numeric `==`: false as soon as a NaN is involved, true of the two zeros.
    pub open spec fn equal(self, other: Real) -> bool {
        !self.nan() && !other.nan() && self.ordinal() == other.ordinal()
    }

    /// Positive zero.
    pub fn zero_value() -> (r: Real)
        ensures
            r.bits == 0,
    {
        Real { bits: 0 }
    }

    /// The number one.
    pub fn one_value() -> (r: Real)
        ensures
            r.bits == ONE_BITS,
    {
        Real { bits: ONE_BITS }
    }

    pub fn is_sign_negative(self) -> (r: bool)
        ensures
            r == self.negative(),
    {
        self.bits >= SIGN_BIT
    }

    /// The pattern without its sign bit, as a machine integer.
    pub fn magnitude_bits(self) -> (r: u64)
        ensures
            r == self.magnitude(),
    {
        if self.bits >= SIGN_BIT {
            self.bits - SIGN_BIT
        } else {
            self.bits
        }
    }

    pub fn is_nan(self) -> (r: bool)
        ensures
            r == self.nan(),
    {
        self.magnitude_bits() > INFINITY_BITS
    }

    pub fn is_zero(self) -> (r: bool)
        ensures
            r == self.zero(),
    {
        self.magnitude_bits() == 0
    }

    /// The absolute value: the same magnitude, sign bit cleared.
    pub fn abs(self) -> (r: Real)
        ensures
            r == self.absolute(),
    {
        Real { bits: self.magnitude_bits() }
    }

    /// The negation: the same magnitude, sign bit flipped.
    pub fn neg(self) -> (r: Real)
        ensures
            r == self.negated(),
    {
        if self.bits >= SIGN_BIT {
            Real { bits: self.bits - SIGN_BIT }
        } else {
            Real { bits: self.bits + SIGN_BIT }
        }
    }

    /// The place in the total order as a machine integer.
    pub fn total_key(self) -> (r: i64)
        ensures
            r == self.rank(),
    {
        let m: u64 = self.magnitude_bits();
        if self.bits >= SIGN_BIT {
            -(m as i64) - 1
        } else {
            m as i64
        }
    }

    /// Whether `self` comes strictly before `other` in the total order.
    pub fn total_lt(self, other: Real) -> (r: bool)
        ensures
            r == (self.rank() < other.rank()),
    {
        self.total_key() < other.total_key()
    }

    /// Numeric `<`.
    pub fn lt(self, other: Real) -> (r: bool)
        ensures
            r == self.less(other),
    {
        if self.is_nan() || other.is_nan() {
            false
        } else {
            let a: u64 = self.magnitude_bits();
            let b: u64 = other.magnitude_bits();
            if self.bits >= SIGN_BIT {
                if other.bits >= SIGN_BIT {
                    b < a
                } else {
                    a > 0 || b > 0
                }
            } else {
                if other.bits >= SIGN_BIT {
                    false
                } else {
                    a < b
                }
            }
        }
    }

    /// Numeric `==`.
    pub fn eq_value(self, other: Real) -> (r: bool)
        ensures
            r == self.equal(other),
    {
        if self.is_nan() || other.is_nan() {
            false
        } else {
            let a: u64 = self.magnitude_bits();
            let b: u64 = other.magnitude_bits();
            if a == 0 && b == 0 {
                true
            } else {
                self.bits == other.bits
            }
        }
    }

    /// Numeric `<=`.
    pub fn le(self, other: Real) -> (r: bool)
        ensures
            r == (self.less(other) || self.equal(other)),
    {
        self.lt(other) || self.eq_value(other)
    }

    /// Numeric `>`.
    pub fn gt(self, other: Real) -> (r: bool)
        ensures
            r == other.less(self),
    {
        other.lt(self)
    }
}

/// Negation keeps the magnitude, flips the sign, and undoes itself.
pub proof fn lemma_negated(x: Real)
    ensures
        x.negated().magnitude() == x.magnitude(),
        x.negated().negative() == !x.negative(),
        x.negated().nan() == x.nan(),
        x.negated().negated() == x,
{
}

/// The absolute value has the magnitude of its argument and no sign.
pub proof fn lemma_absolute(x: Real)
    ensures
        x.absolute().magnitude() == x.magnitude(),
        !x.absolute().negative(),
        x.absolute().absolute() == x.absolute(),
        x.negated().absolute() == x.absolute(),
{
}

/// The total order refines the numeric one: it agrees with `<` on numbers,
/// and puts negative zero before positive zero.
pub proof fn lemma_total_order_refines(a: Real, b: Real)
    ensures
        a.less(b) ==> a.rank() < b.rank(),
        a.rank() == b.rank() <==> a == b,
{
}

} // verus!
