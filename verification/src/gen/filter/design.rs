//! The decisions shared by the generators of analog and digital filters:
//! whether a request is in order, and which band edges the frequency
//! transform is to be given.

use vstd::prelude::*;
use crate::quantities::scalar::Real;

verus! {

#[derive(Debug, Clone, Copy, PartialEq, Eq, Structural)]
pub enum FilterGenType {
    LowPass,
    HighPass,
    BandPass,
    BandStop,
}

#[derive(Debug, Clone, Copy, PartialEq, Eq, Structural)]
pub enum FilterGenError {
    ZeroOrder,
    FrequenciesNotNondecreasing,
    FrequenciesOutOfRange,
}

/// The plane that a filter is wanted in: that of analog filters, or that
/// of digital filters with a sampling frequency.
#[derive(Debug, Clone, Copy, PartialEq, Eq, Structural)]
pub enum FilterGenPlane {
    S,
    Z { sampling_frequency: Option<Real> },
}

/// The bit pattern of the sampling frequency of a digital filter for which
/// none is given: two, so that frequencies are fractions of half of it.
pub const DEFAULT_SAMPLING_FREQUENCY_BITS: u64 = 0x4000_0000_0000_0000;

impl FilterGenPlane {
    /// The sampling frequency in force; an analog filter has none.
    pub open spec fn spec_sampling_frequency(self) -> Option<Real> {
        match self {
            FilterGenPlane::S => None,
            FilterGenPlane::Z { sampling_frequency: Some(fs) } => Some(fs),
            FilterGenPlane::Z { sampling_frequency: None } => Some(
                Real { bits: DEFAULT_SAMPLING_FREQUENCY_BITS },
            ),
        }
    }

    pub fn sampling_frequency(self) -> (r: Option<Real>)
        ensures
            r == self.spec_sampling_frequency(),
    {
        match self {
            FilterGenPlane::S => None,
            FilterGenPlane::Z { sampling_frequency: Some(fs) } => Some(fs),
            FilterGenPlane::Z { sampling_frequency: None } => Some(
                Real { bits: DEFAULT_SAMPLING_FREQUENCY_BITS },
            ),
        }
    }
}

impl FilterGenType {
    /// Whether the filter rejects what the prototype passes.
    pub open spec fn spec_stop(self) -> bool {
        self == FilterGenType::HighPass || self == FilterGenType::BandStop
    }

    /// Whether the filter has two band edges.
    pub open spec fn spec_band(self) -> bool {
        self == FilterGenType::BandPass || self == FilterGenType::BandStop
    }

    pub fn stop(self) -> (r: bool)
        ensures
            r == self.spec_stop(),
    {
        match self {
            FilterGenType::LowPass => false,
            FilterGenType::HighPass => true,
            FilterGenType::BandPass => false,
            FilterGenType::BandStop => true,
        }
    }

    pub fn band(self) -> (r: bool)
        ensures
            r == self.spec_band(),
    {
        match self {
            FilterGenType::LowPass => false,
            FilterGenType::HighPass => false,
            FilterGenType::BandPass => true,
            FilterGenType::BandStop => true,
        }
    }
}

/// The frequencies, by their positions in the request, that become the
/// edges of the target.
#[derive(Debug, Clone, Copy, PartialEq, Eq, Structural)]
pub enum Edges {
    One(usize),
    Two(usize, usize),
}

/// What a generator hands to the frequency transform.
#[derive(Debug, Clone, Copy, PartialEq, Eq, Structural)]
pub struct FilterPlan {
    /// The order of the prototype.
    pub order: usize,
    /// The `stop` flag of the transform.
    pub stop: bool,
    /// The edges of the transform.
    pub edges: Edges,
    /// Whether the frequencies are digital: they are then warped before the
    /// transform, and the result is mapped to the unit circle after it.
    pub digital: bool,
}

/// The edges for a filter type and a number of frequencies, one or two.
/// A filter with one edge that is given two takes the upper for a low-pass
/// and the lower for a high-pass; a band filter that is given one takes it
/// for both edges.
pub open spec fn edges_of(filter_type: FilterGenType, count: nat) -> Edges {
    if !filter_type.spec_band() && count == 2 {
        Edges::One(
            if filter_type.spec_stop() {
                0
            } else {
                1
            },
        )
    } else if filter_type.spec_band() && count == 1 {
        Edges::Two(0, 0)
    } else if count == 1 {
        Edges::One(0)
    } else {
        Edges::Two(0, 1)
    }
}

pub fn select_edges(filter_type: FilterGenType, count: usize) -> (edges: Edges)
    ensures
        edges == edges_of(filter_type, count as nat),
{
    let stop = filter_type.stop();
    let band = filter_type.band();
    if !band && count == 2 {
        Edges::One(if stop { 0 } else { 1 })
    } else if band && count == 1 {
        Edges::Two(0, 0)
    } else if count == 1 {
        Edges::One(0)
    } else {
        Edges::Two(0, 1)
    }
}

/// Whether no frequency is followed by a smaller one, or by one that it
/// cannot be compared with.
pub open spec fn nondecreasing(frequencies: Seq<Real>) -> bool {
    forall|i: int|
        0 <= i < frequencies.len() - 1 ==> {
            ||| (#[trigger] frequencies[i]).less(frequencies[i + 1])
            ||| frequencies[i].equal(frequencies[i + 1])
        }
}

pub fn is_nondecreasing<const F: usize>(frequencies: &[Real; F]) -> (r: bool)
    ensures
        r == nondecreasing(frequencies@),
{
    if F == 0 {
        return true;
    }
    let last: usize = F - 1;
    let mut i: usize = 0;
    while i < last
        invariant
            i <= last,
            last == F - 1,
            F == frequencies@.len(),
            forall|k: int|
                0 <= k < i ==> {
                    ||| (#[trigger] frequencies[k]).less(frequencies[k + 1])
                    ||| frequencies[k].equal(frequencies[k + 1])
                },
        decreases last - i,
    {
        if !frequencies[i].le(frequencies[i + 1]) {
            return false;
        }
        i += 1;
    }
    true
}

/// Whether some frequency lies above `limit`.
pub open spec fn exceeds(frequencies: Seq<Real>, limit: Real) -> bool {
    exists|i: int| 0 <= i < frequencies.len() && limit.less(#[trigger] frequencies[i])
}

pub fn any_exceeds<const F: usize>(frequencies: &[Real; F], limit: Real) -> (r: bool)
    ensures
        r == exceeds(frequencies@, limit),
{
    let mut i: usize = 0;
    while i < F
        invariant
            i <= F,
            F == frequencies@.len(),
            forall|k: int| 0 <= k < i ==> !limit.less(#[trigger] frequencies[k]),
        decreases F - i,
    {
        if frequencies[i].gt(limit) {
            return true;
        }
        i += 1;
    }
    false
}

/// Whether a request is in order, and if not, what is wrong with it first.
pub open spec fn verdict(order: usize, frequencies: Seq<Real>, nyquist: Option<Real>) -> Option<
    FilterGenError,
> {
    if order < 1 {
        Some(FilterGenError::ZeroOrder)
    } else if !nondecreasing(frequencies) {
        Some(FilterGenError::FrequenciesNotNondecreasing)
    } else if nyquist matches Some(limit) && exceeds(frequencies, limit) {
        Some(FilterGenError::FrequenciesOutOfRange)
    } else {
        None
    }
}

/// Plans a filter of the given order and type with one or two critical
/// frequencies. For a digital filter `nyquist` is half the sampling
/// frequency, which no critical frequency may exceed; for an analog filter
/// it is absent.
///
/// Refused are, in this order: an order of zero, frequencies that do not
/// rise, and a frequency above `nyquist`.
pub fn plan_filter<const F: usize>(
    order: usize,
    frequencies: [Real; F],
    filter_type: FilterGenType,
    nyquist: Option<Real>,
) -> (r: Result<FilterPlan, FilterGenError>)
    requires
        1 <= F <= 2,
    ensures
        match verdict(order, frequencies@, nyquist) {
            Some(e) => r == Err::<FilterPlan, FilterGenError>(e),
            None => r == Ok::<FilterPlan, FilterGenError>(
                FilterPlan {
                    order,
                    stop: filter_type.spec_stop(),
                    edges: edges_of(filter_type, F as nat),
                    digital: nyquist is Some,
                },
            ),
        },
{
    if order < 1 {
        return Err(FilterGenError::ZeroOrder);
    }
    if !is_nondecreasing(&frequencies) {
        return Err(FilterGenError::FrequenciesNotNondecreasing);
    }
    let digital = match nyquist {
        Some(limit) => {
            if any_exceeds(&frequencies, limit) {
                return Err(FilterGenError::FrequenciesOutOfRange);
            }
            true
        },
        None => false,
    };
    Ok(
        FilterPlan {
            order,
            stop: filter_type.stop(),
            edges: select_edges(filter_type, F),
            digital,
        },
    )
}

} // verus!
