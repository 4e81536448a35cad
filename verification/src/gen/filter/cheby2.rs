//! Chebyshev filters of the second kind.

use vstd::prelude::*;
use crate::gen::filter::design::{
    edges_of,
    plan_filter,
    verdict,
    FilterGenError,
    FilterGenType,
    FilterPlan,
};
use crate::quantities::scalar::Real;

verus! {

/// A form of system in which a Chebyshev filter of the second kind can be had.
pub trait Cheby2: Sized {
    /// A Chebyshev filter of the second kind, of the given order, stop-band
    /// ripple and type, with one or two critical frequencies. `nyquist` is
    /// half the sampling frequency of a digital filter, and absent for an
    /// analog one.
    fn cheby2<const F: usize>(
        order: usize,
        ripple: Real,
        frequencies: [Real; F],
        filter_type: FilterGenType,
        nyquist: Option<Real>,
    ) -> (r: Result<Self, FilterGenError>)
        requires
            1 <= F <= 2,
    ;
}

/// The plan of a Chebyshev filter: that of its transform, and the ripple
/// that shapes its prototype.
#[derive(Debug, Clone, Copy, PartialEq, Eq, Structural)]
pub struct Cheby2Plan {
    pub filter: FilterPlan,
    pub ripple: Real,
}

impl Cheby2 for Cheby2Plan {
    fn cheby2<const F: usize>(
        order: usize,
        ripple: Real,
        frequencies: [Real; F],
        filter_type: FilterGenType,
        nyquist: Option<Real>,
    ) -> (r: Result<Cheby2Plan, FilterGenError>)
        ensures
            match verdict(order, frequencies@, nyquist) {
                Some(e) => r == Err::<Cheby2Plan, FilterGenError>(e),
                None => r == Ok::<Cheby2Plan, FilterGenError>(
                    Cheby2Plan {
                        filter: FilterPlan {
                            order,
                            stop: filter_type.spec_stop(),
                            edges: edges_of(filter_type, F as nat),
                            digital: nyquist is Some,
                        },
                        ripple,
                    },
                ),
            },
    {
        match plan_filter(order, frequencies, filter_type, nyquist) {
            Ok(filter) => Ok(Cheby2Plan { filter, ripple }),
            Err(e) => Err(e),
        }
    }
}

} // verus!
