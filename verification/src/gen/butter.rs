//! Butterworth filters.

use vstd::prelude::*;
use crate::gen::filter::design::{
    edges_of,
    plan_filter,
    verdict,
    FilterGenError,
    FilterGenType,
    FilterPlan,
};
use crate::quantities::scalar::Real;

verus! {

/// A form of system in which a Butterworth filter can be had.
pub trait Butter: Sized {
    /// A Butterworth filter of the given order and type with one or two
    /// critical frequencies. `nyquist` is half the sampling frequency of a
    /// digital filter, and absent for an analog one.
    fn butter<const F: usize>(
        order: usize,
        frequencies: [Real; F],
        filter_type: FilterGenType,
        nyquist: Option<Real>,
    ) -> (r: Result<Self, FilterGenError>)
        requires
            1 <= F <= 2,
    ;
}

impl Butter for FilterPlan {
    /// The plan of the filter: the prototype of order `order`, transformed
    /// to the edges selected.
    fn butter<const F: usize>(
        order: usize,
        frequencies: [Real; F],
        filter_type: FilterGenType,
        nyquist: Option<Real>,
    ) -> (r: Result<FilterPlan, FilterGenError>)
        ensures
            match verdict(order, frequencies@, nyquist) {
                Some(e) => r == Err::<FilterPlan, FilterGenError>(e),
                None => r == Ok::<FilterPlan, FilterGenError>(
                    FilterPlan {
                        order,
                        stop: filter_type.spec_stop(),
                        edges: edges_of(filter_type, F as nat),
                        digital: nyquist is Some,
                    },
                ),
            },
    {
        plan_filter(order, frequencies, filter_type, nyquist)
    }
}

} // verus!
