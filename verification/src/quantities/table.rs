//! Square tables of real numbers, one entry for each ordered pair of items.

use vstd::prelude::*;
use crate::quantities::scalar::Real;

verus! {

/// Whether every row is as long as the list of rows.
pub open spec fn square(rows: Seq<Vec<Real>>) -> bool {
    forall|i: int| 0 <= i < rows.len() ==> (#[trigger] rows[i]).len() == rows.len()
}

/// A square table; entry `(i, j)` is a measurement taken of items `i` and `j`.
pub struct PairTable {
    rows: Vec<Vec<Real>>,
}

impl PairTable {
    #[verifier::type_invariant]
    spec fn well_formed(self) -> bool {
        square(self.rows@)
    }

    /// The number of items that the table covers.
    pub closed spec fn dim(self) -> nat {
        self.rows.len() as nat
    }

    /// The entry for the pair `(i, j)`.
    pub closed spec fn at(self, i: int, j: int) -> Real {
        self.rows[i][j]
    }

    /// Takes the rows of a table; a list of rows that is not square is refused.
    pub fn from_rows(rows: Vec<Vec<Real>>) -> (table: Option<PairTable>)
        ensures
            table is Some <==> square(rows@),
            table matches Some(t) ==> {
                &&& t.dim() == rows.len()
                &&& forall|i: int, j: int|
                    0 <= i < rows.len() && 0 <= j < rows.len() ==> t.at(i, j) == rows[i][j]
            },
    {
        let n: usize = rows.len();
        let mut i: usize = 0;
        while i < n
            invariant
                i <= n,
                n == rows.len(),
                forall|k: int| 0 <= k < i ==> (#[trigger] rows[k]).len() == n,
            decreases n - i,
        {
            if rows[i].len() != n {
                return None;
            }
            i += 1;
        }
        Some(PairTable { rows })
    }

    pub fn size(&self) -> (n: usize)
        ensures
            n == self.dim(),
    {
        self.rows.len()
    }

    pub fn get(&self, i: usize, j: usize) -> (x: Real)
        requires
            i < self.dim(),
            j < self.dim(),
        ensures
            x == self.at(i as int, j as int),
    {
        proof {
            use_type_invariant(self);
        }
        self.rows[i][j]
    }
}

} // verus!
