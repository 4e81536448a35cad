//! Partial fractions: residues over poles, plus a polynomial part.

use vstd::prelude::*;
use crate::quantities::complex::Complex;

verus! {

/// A sum of terms `residue / (s - pole)^m` plus the polynomial `k`.
///
/// `rp` lists `(residue, pole)` pairs. A pole of multiplicity `m` fills `m`
/// consecutive entries, the entry for the first power first.
#[derive(Clone, Debug)]
pub struct Rpk {
    pub rp: Vec<(Complex, Complex)>,
    pub k: Vec<Complex>,
}

impl Rpk {
    pub fn new(rp: Vec<(Complex, Complex)>, k: Vec<Complex>) -> (rpk: Rpk)
        ensures
            rpk.rp@ == rp@,
            rpk.k@ == k@,
    {
        Rpk { rp, k }
    }
}

} // verus!
