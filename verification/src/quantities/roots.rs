//! The roots of a polynomial together with what was measured of them.

use vstd::prelude::*;
use crate::quantities::complex::Complex;
use crate::quantities::order::{is_stable_order, stable_order};
use crate::quantities::scalar::Real;
use crate::quantities::table::PairTable;

verus! {

/// A list of roots, the squared magnitude of each, and the distance
/// between any two of them. The measurements are taken by whoever found the
/// roots; they are carried here so that the roots can be compared.
pub struct Roots {
    values: Vec<Complex>,
    norms: Vec<Real>,
    gaps: PairTable,
}

impl Roots {
    #[verifier::type_invariant]
    spec fn well_formed(self) -> bool {
        self.norms.len() == self.values.len() && self.gaps.dim() == self.values.len()
    }

    /// The number of roots.
    pub closed spec fn count(self) -> nat {
        self.values.len() as nat
    }

    /// Root `i`.
    pub closed spec fn value(self, i: int) -> Complex {
        self.values[i]
    }

    /// The squared magnitude of root `i`.
    pub closed spec fn norm(self, i: int) -> Real {
        self.norms[i]
    }

    /// The distance from root `i` to root `j`.
    pub closed spec fn gap(self, i: int, j: int) -> Real {
        self.gaps.at(i, j)
    }

    /// The squared magnitudes of all roots, in the order of the roots.
    pub closed spec fn norms(self) -> Seq<Real> {
        self.norms@
    }

    /// Joins roots and measurements; refused unless there is one squared
    /// magnitude for each root and one distance for each pair.
    pub fn new(values: Vec<Complex>, norms: Vec<Real>, gaps: PairTable) -> (roots: Option<Roots>)
        ensures
            roots is Some <==> norms.len() == values.len() && gaps.dim() == values.len(),
            roots matches Some(r) ==> {
                &&& r.count() == values.len()
                &&& r.norms() == norms@
                &&& forall|i: int| 0 <= i < values.len() ==> r.value(i) == values[i]
                &&& forall|i: int| 0 <= i < values.len() ==> r.norm(i) == norms[i]
                &&& forall|i: int, j: int| r.gap(i, j) == gaps.at(i, j)
            },
    {
        if norms.len() != values.len() || gaps.size() != values.len() {
            return None;
        }
        Some(Roots { values, norms, gaps })
    }

    pub fn len(&self) -> (n: usize)
        ensures
            n == self.count(),
            n == self.norms().len(),
    {
        proof {
            use_type_invariant(self);
        }
        self.values.len()
    }

    pub fn get(&self, i: usize) -> (x: Complex)
        requires
            i < self.count(),
        ensures
            x == self.value(i as int),
    {
        self.values[i]
    }

    pub fn norm_sqr(&self, i: usize) -> (x: Real)
        requires
            i < self.count(),
        ensures
            x == self.norm(i as int),
            x == self.norms()[i as int],
    {
        proof {
            use_type_invariant(self);
        }
        self.norms[i]
    }

    /// The positions of the roots by rising squared magnitude, in the total
    /// order; roots of equal squared magnitude keep their relative order.
    pub fn order_by_norm(&self) -> (order: Vec<usize>)
        ensures
            is_stable_order(self.norms(), order@),
            self.norms().len() == self.count(),
    {
        proof {
            use_type_invariant(self);
        }
        stable_order(&self.norms)
    }

    pub fn distance(&self, i: usize, j: usize) -> (x: Real)
        requires
            i < self.count(),
            j < self.count(),
        ensures
            x == self.gap(i as int, j as int),
    {
        proof {
            use_type_invariant(self);
        }
        self.gaps.get(i, j)
    }
}

/// The list of squared magnitudes holds that of each root, and the number
/// of roots is that of a list in memory.
pub proof fn lemma_roots(roots: Roots)
    ensures
        forall|i: int| roots.norm(i) == roots.norms()[i],
        roots.count() <= usize::MAX,
{
}

} // verus!
