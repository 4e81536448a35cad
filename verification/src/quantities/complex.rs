//! Complex numbers as pairs of binary64 bit patterns.

use vstd::prelude::*;
use crate::quantities::scalar::Real;

verus! {

/// A complex number in Cartesian form.
///
/// Derived equality compares patterns; [`Complex::eq_value`] compares numbers.
#[derive(Clone, Copy, Debug, PartialEq, Eq, Structural)]
pub struct Complex {
    pub re: Real,
    pub im: Real,
}

impl Complex {
    /// Whether both parts are zeros of either sign.
    pub open spec fn zero(self) -> bool {
        self.re.zero() && self.im.zero()
    }

    /// Numeric `==`, part by part.
    pub open spec fn equal(self, other: Complex) -> bool {
        self.re.equal(other.re) && self.im.equal(other.im)
    }

    /// The same real part with the imaginary part negated.
    pub open spec fn conjugate(self) -> Complex {
        Complex { re: self.re, im: self.im.negated() }
    }

    /// Both parts negated.
    pub open spec fn negated(self) -> Complex {
        Complex { re: self.re.negated(), im: self.im.negated() }
    }

    /// The complex number `re + 0i`.
    pub open spec fn of_real(re: Real) -> Complex {
        Complex { re, im: Real { bits: 0 } }
    }

    pub fn new(re: Real, im: Real) -> (c: Complex)
        ensures
            c == (Complex { re, im }),
    {
        Complex { re, im }
    }

    pub fn from_real(re: Real) -> (c: Complex)
        ensures
            c == Complex::of_real(re),
    {
        Complex { re, im: Real::zero_value() }
    }

    /// The origin, `0 + 0i`.
    pub fn zero_value() -> (c: Complex)
        ensures
            c == Complex::of_real(Real { bits: 0 }),
    {
        Complex { re: Real::zero_value(), im: Real::zero_value() }
    }

    /// The unit, `1 + 0i`.
    pub fn one_value() -> (c: Complex)
        ensures
            c == Complex::of_real(Real { bits: crate::quantities::scalar::ONE_BITS }),
    {
        Complex { re: Real::one_value(), im: Real::zero_value() }
    }

    pub fn is_zero(self) -> (r: bool)
        ensures
            r == self.zero(),
    {
        self.re.is_zero() && self.im.is_zero()
    }

    pub fn eq_value(self, other: Complex) -> (r: bool)
        ensures
            r == self.equal(other),
    {
        self.re.eq_value(other.re) && self.im.eq_value(other.im)
    }

    pub fn conj(self) -> (c: Complex)
        ensures
            c == self.conjugate(),
    {
        Complex { re: self.re, im: self.im.neg() }
    }

    pub fn neg(self) -> (c: Complex)
        ensures
            c == self.negated(),
    {
        Complex { re: self.re.neg(), im: self.im.neg() }
    }
}

/// Conjugation undoes itself, and keeps what is zero zero.
pub proof fn lemma_conjugate(x: Complex)
    ensures
        x.conjugate().conjugate() == x,
        x.conjugate().zero() == x.zero(),
{
}

} // verus!
