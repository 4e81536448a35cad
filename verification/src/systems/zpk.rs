//! Zero-pole-gain form.

use vstd::prelude::*;
use crate::quantities::complex::Complex;
use crate::quantities::scalar::{Real, ONE_BITS};

verus! {

/// A system given by the roots of its numerator and denominator and by a
/// gain. A root that occurs several times is listed several times.
#[derive(Clone, Debug)]
pub struct Zpk {
    pub z: Vec<Complex>,
    pub p: Vec<Complex>,
    pub k: Complex,
}

/// A system in zero-pole-gain form whose roots are borrowed.
#[derive(Clone, Copy, Debug)]
pub struct ZpkView<'a> {
    pub z: &'a [Complex],
    pub p: &'a [Complex],
    pub k: Complex,
}

fn copy_of(values: &[Complex]) -> (r: Vec<Complex>)
    ensures
        r@ == values@,
{
    let mut r: Vec<Complex> = Vec::new();
    let mut i: usize = 0;
    while i < values.len()
        invariant
            i <= values.len(),
            r@ == values@.take(i as int),
        decreases values.len() - i,
    {
        r.push(values[i]);
        proof {
            assert(r@ =~= values@.take(i + 1));
        }
        i += 1;
    }
    proof {
        assert(values@.take(values.len() as int) =~= values@);
    }
    r
}

impl<'a> ZpkView<'a> {
    /// The system with roots of its own.
    pub fn to_owned(&self) -> (zpk: Zpk)
        ensures
            zpk.z@ == self.z@,
            zpk.p@ == self.p@,
            zpk.k == self.k,
    {
        Zpk { z: copy_of(self.z), p: copy_of(self.p), k: self.k }
    }
}

impl Zpk {
    /// The same system, its roots borrowed.
    pub fn as_view<'a>(&'a self) -> (view: ZpkView<'a>)
        ensures
            view.z@ == self.z@,
            view.p@ == self.p@,
            view.k == self.k,
    {
        ZpkView { z: self.z.as_slice(), p: self.p.as_slice(), k: self.k }
    }

    /// A copy of the system.
    pub fn to_owned(&self) -> (zpk: Zpk)
        ensures
            zpk.z@ == self.z@,
            zpk.p@ == self.p@,
            zpk.k == self.k,
    {
        Zpk { z: copy_of(self.z.as_slice()), p: copy_of(self.p.as_slice()), k: self.k }
    }

    /// The system that passes every signal unchanged: no roots, gain one.
    pub fn one() -> (zpk: Zpk)
        ensures
            zpk.z@ == Seq::<Complex>::empty(),
            zpk.p@ == Seq::<Complex>::empty(),
            zpk.k == Complex::of_real(Real { bits: ONE_BITS }),
    {
        Zpk { z: Vec::new(), p: Vec::new(), k: Complex::one_value() }
    }

    /// The system that lets no signal pass: no roots, gain zero.
    pub fn zero() -> (zpk: Zpk)
        ensures
            zpk.z@ == Seq::<Complex>::empty(),
            zpk.p@ == Seq::<Complex>::empty(),
            zpk.k == Complex::of_real(Real { bits: 0 }),
    {
        Zpk { z: Vec::new(), p: Vec::new(), k: Complex::zero_value() }
    }

    pub fn new(z: Vec<Complex>, p: Vec<Complex>, k: Complex) -> (zpk: Zpk)
        ensures
            zpk.z@ == z@,
            zpk.p@ == p@,
            zpk.k == k,
    {
        Zpk { z, p, k }
    }
}

} // verus!
