//! Savitzky-Golay smoothing filters.
//!
//! A filter bank of `numtaps` filters with `numtaps` taps each. The filters
//! for the first half of the samples and for the centre come from a
//! least-squares polynomial fit; those for the second half mirror them.

use vstd::prelude::*;
use crate::quantities::complex::Complex;

verus! {

#[derive(Debug, Clone, Copy, PartialEq, Eq, Structural)]
pub enum SGolayError {
    OrderOutOfRange,
    DerivativeOutOfRange,
    EvenFilterLength,
}

impl SGolayError {
    pub open spec fn spec_message(self) -> Seq<char> {
        match self {
            SGolayError::OrderOutOfRange => "Order must be less than number of taps."@,
            SGolayError::DerivativeOutOfRange => "Derivative must be less than number of taps."@,
            SGolayError::EvenFilterLength => "Number of taps must be odd."@,
        }
    }

    /// The text that describes the error.
    pub fn message(&self) -> (s: &'static str)
        ensures
            s@ == self.spec_message(),
    {
        match self {
            SGolayError::OrderOutOfRange => "Order must be less than number of taps.",
            SGolayError::DerivativeOutOfRange => "Derivative must be less than number of taps.",
            SGolayError::EvenFilterLength => "Number of taps must be odd.",
        }
    }
}

/// Where one filter of the bank comes from.
#[derive(Debug, Clone, Copy, PartialEq, Eq, Structural)]
pub enum RowRule {
    /// A least-squares fit of a polynomial around the sample of this index.
    Fitted(usize),
    /// The filter `source` with its taps in reverse order, and negated if
    /// `negate` is set.
    Mirrored { source: usize, negate: bool },
}

/// The make-up of a filter bank.
#[derive(Debug, Clone)]
pub struct SGolayPlan {
    pub numtaps: usize,
    pub order: usize,
    pub derivative: usize,
    pub rows: Vec<RowRule>,
}

/// The rule for filter `row` of a bank of `numtaps` filters: the filters up
/// to the centre are fitted, those behind it mirror the filter that lies as
/// far before the centre. A mirrored filter changes sign for a derivative
/// of odd order.
pub open spec fn row_rule(numtaps: nat, derivative: nat, row: int) -> RowRule {
    if row <= numtaps / 2 {
        RowRule::Fitted(row as usize)
    } else {
        RowRule::Mirrored { source: (numtaps - 1 - row) as usize, negate: derivative % 2 == 1 }
    }
}

/// Whether a request for a bank is in order, and if not, what is wrong with
/// it first: an even number of taps; then an order, and then a derivative,
/// that is not below the number of taps.
pub open spec fn verdict(order: usize, numtaps: usize, derivative: usize) -> Option<SGolayError> {
    if numtaps % 2 != 1 {
        Some(SGolayError::EvenFilterLength)
    } else if order >= numtaps {
        Some(SGolayError::OrderOutOfRange)
    } else if derivative >= numtaps {
        Some(SGolayError::DerivativeOutOfRange)
    } else {
        None
    }
}

/// A form in which a bank of Savitzky-Golay filters can be had.
pub trait SGolay: Sized {
    /// A bank of filters of `numtaps` taps that fit polynomials of degree
    /// `order` and estimate the derivative of order `derivative`.
    fn sgolay(order: usize, numtaps: usize, derivative: usize) -> (r: Result<Self, SGolayError>);
}

impl SGolay for SGolayPlan {
    /// Plans the bank.
    ///
    /// An even number of taps is refused; then an order, and then a
    /// derivative, that is not below the number of taps.
    fn sgolay(order: usize, numtaps: usize, derivative: usize) -> (r: Result<
        SGolayPlan,
        SGolayError,
    >)
        ensures
            match verdict(order, numtaps, derivative) {
                Some(e) => r == Err::<SGolayPlan, SGolayError>(e),
                None => r matches Ok(plan) && {
                    &&& plan.numtaps == numtaps
                    &&& plan.order == order
                    &&& plan.derivative == derivative
                    &&& plan.rows@ == Seq::new(
                        numtaps as nat,
                        |row: int| row_rule(numtaps as nat, derivative as nat, row),
                    )
                },
            },
    {
        if numtaps % 2 != 1 {
            return Err(SGolayError::EvenFilterLength);
        }
        if order >= numtaps {
            return Err(SGolayError::OrderOutOfRange);
        }
        if derivative >= numtaps {
            return Err(SGolayError::DerivativeOutOfRange);
        }
        let half: usize = numtaps / 2;
        let negate: bool = derivative % 2 == 1;
        let mut rows: Vec<RowRule> = Vec::new();
        let mut row: usize = 0;
        while row < numtaps
            invariant
                row <= numtaps,
                half == numtaps / 2,
                negate == (derivative % 2 == 1),
                rows@ == Seq::new(
                    row as nat,
                    |r: int| row_rule(numtaps as nat, derivative as nat, r),
                ),
            decreases numtaps - row,
        {
            if row <= half {
                rows.push(RowRule::Fitted(row));
            } else {
                rows.push(RowRule::Mirrored { source: numtaps - 1 - row, negate });
            }
            proof {
                assert(rows@ =~= Seq::new(
                    (row + 1) as nat,
                    |r: int| row_rule(numtaps as nat, derivative as nat, r),
                ));
            }
            row += 1;
        }
        Ok(SGolayPlan { numtaps, order, derivative, rows })
    }
}

/// The taps in reverse order, each negated if `negate` is set.
pub open spec fn mirrored(taps: Seq<Complex>, negate: bool) -> Seq<Complex> {
    Seq::new(
        taps.len(),
        |i: int|
            if negate {
                taps[taps.len() - 1 - i].negated()
            } else {
                taps[taps.len() - 1 - i]
            },
    )
}

/// Mirrors a filter.
pub fn mirror(taps: &Vec<Complex>, negate: bool) -> (r: Vec<Complex>)
    ensures
        r@ == mirrored(taps@, negate),
{
    let n: usize = taps.len();
    let mut r: Vec<Complex> = Vec::new();
    let mut i: usize = 0;
    while i < n
        invariant
            i <= n,
            n == taps.len(),
            r@ == mirrored(taps@, negate).take(i as int),
        decreases n - i,
    {
        let tap = taps[n - 1 - i];
        r.push(if negate { tap.neg() } else { tap });
        proof {
            assert(r@ =~= mirrored(taps@, negate).take(i + 1));
        }
        i += 1;
    }
    proof {
        assert(mirrored(taps@, negate).take(n as int) =~= mirrored(taps@, negate));
    }
    r
}

/// In a bank that was accepted, every mirrored filter mirrors a fitted one,
/// and the filter behind the centre by some distance mirrors the one
/// before the centre by the same distance.
pub proof fn lemma_mirror_sources(numtaps: nat, derivative: nat, row: int)
    requires
        numtaps % 2 == 1,
        numtaps <= usize::MAX,
        numtaps / 2 < row < numtaps,
    ensures
        row_rule(numtaps, derivative, row) matches RowRule::Mirrored { source, negate } && {
            &&& row_rule(numtaps, derivative, source as int) == RowRule::Fitted(source)
            &&& row - numtaps / 2 == numtaps / 2 - source
            &&& negate == (derivative % 2 == 1)
        },
{
}

} // verus!
