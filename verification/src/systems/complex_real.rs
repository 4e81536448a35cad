//! Separation of the roots of a system into real roots and complex pairs.
//!
//! A system with real coefficients has roots that are real or come in
//! conjugate pairs. A root counts as real if its imaginary part is small
//! against its magnitude; every other root is paired with the root that lies
//! closest to its conjugate.

use vstd::prelude::*;
use crate::quantities::complex::Complex;
use crate::quantities::scalar::{Real, ONE_BITS};
use crate::quantities::table::PairTable;
use crate::systems::zpk::Zpk;

verus! {

#[derive(Debug, Clone, Copy, PartialEq, Eq, Structural)]
pub enum ComplexRealError {
    /// The tolerance does not lie between zero and one.
    TolaranceOutOfRange,
    /// A complex root is left without a partner.
    OddNumberComplex,
}

/// The bit pattern of the default tolerance, a hundred times the distance
/// from one to the next larger number.
pub const DEFAULT_REAL_TOLERANCE_BITS: u64 = 0x3d19_0000_0000_0000;

/// The tolerance in force, or the refusal of the one given.
pub open spec fn spec_real_tolerance(tolerance: Option<Real>) -> Result<Real, ComplexRealError> {
    match tolerance {
        Some(t) => if t.less(Real { bits: 0 }) || (Real { bits: ONE_BITS }).less(t) {
            Err(ComplexRealError::TolaranceOutOfRange)
        } else {
            Ok(t)
        },
        None => Ok(Real { bits: DEFAULT_REAL_TOLERANCE_BITS }),
    }
}

/// Settles the tolerance relative to which an imaginary part counts as
/// nothing. One below zero or above one is refused.
pub fn real_tolerance(tolerance: Option<Real>) -> (r: Result<Real, ComplexRealError>)
    ensures
        r == spec_real_tolerance(tolerance),
{
    match tolerance {
        Some(t) => {
            if t.lt(Real::zero_value()) || t.gt(Real::one_value()) {
                Err(ComplexRealError::TolaranceOutOfRange)
            } else {
                Ok(t)
            }
        },
        None => Ok(Real { bits: DEFAULT_REAL_TOLERANCE_BITS }),
    }
}

/// What was measured of a list of roots to tell real from complex and to
/// find conjugates: for each root the largest imaginary part that counts as
/// nothing, which is the tolerance times its magnitude, and for each pair
/// of roots the distance from the second to the conjugate of the first.
pub struct Conjugacy {
    bounds: Vec<Real>,
    gaps: PairTable,
}

impl Conjugacy {
    #[verifier::type_invariant]
    spec fn well_formed(self) -> bool {
        self.gaps.dim() == self.bounds.len()
    }

    /// The number of roots measured.
    pub closed spec fn count(self) -> nat {
        self.bounds.len() as nat
    }

    /// The imaginary part up to which root `i` counts as real.
    pub closed spec fn bound(self, i: int) -> Real {
        self.bounds[i]
    }

    /// The distance from root `j` to the conjugate of root `i`.
    pub closed spec fn gap(self, i: int, j: int) -> Real {
        self.gaps.at(i, j)
    }

    /// Joins the measurements; refused unless there is a distance for each
    /// pair of the roots that have a bound.
    pub fn new(bounds: Vec<Real>, gaps: PairTable) -> (c: Option<Conjugacy>)
        ensures
            c is Some <==> gaps.dim() == bounds.len(),
            c matches Some(c) ==> {
                &&& c.count() == bounds.len()
                &&& forall|i: int| 0 <= i < bounds.len() ==> c.bound(i) == bounds[i]
                &&& forall|i: int, j: int| c.gap(i, j) == gaps.at(i, j)
            },
    {
        if gaps.size() != bounds.len() {
            return None;
        }
        Some(Conjugacy { bounds, gaps })
    }

    pub fn len(&self) -> (n: usize)
        ensures
            n == self.count(),
    {
        self.bounds.len()
    }

    pub fn bound_of(&self, i: usize) -> (x: Real)
        requires
            i < self.count(),
        ensures
            x == self.bound(i as int),
    {
        self.bounds[i]
    }

    pub fn distance(&self, i: usize, j: usize) -> (x: Real)
        requires
            i < self.count(),
            j < self.count(),
        ensures
            x == self.gap(i as int, j as int),
    {
        proof {
            use_type_invariant(self);
        }
        self.gaps.get(i, j)
    }
}

/// Whether root `i` counts as real: it is zero, or the magnitude of its
/// imaginary part does not exceed its bound.
pub open spec fn counts_as_real(values: Seq<Complex>, measured: Conjugacy, i: int) -> bool {
    let im = values[i].im.absolute();
    values[i].zero() || im.less(measured.bound(i)) || im.equal(measured.bound(i))
}

/// The place in `live`, among the first `upto`, of the complex root that
/// lies closest to the conjugate of root `z`; of several that lie equally
/// close, or that cannot be compared, the last.
pub open spec fn closest(
    values: Seq<Complex>,
    measured: Conjugacy,
    live: Seq<usize>,
    z: int,
    upto: int,
) -> Option<int>
    decreases upto,
{
    if upto <= 0 {
        None
    } else {
        let before = closest(values, measured, live, z, upto - 1);
        let pos = upto - 1;
        if counts_as_real(values, measured, live[pos] as int) {
            before
        } else {
            match before {
                None => Some(pos),
                Some(best) => if measured.gap(z, live[best] as int).less(
                    measured.gap(z, live[pos] as int),
                ) {
                    Some(best)
                } else {
                    Some(pos)
                },
            }
        }
    }
}

/// The pairs and the real parts that the roots listed in `live` separate
/// into, or nothing if a complex root finds no partner. The roots are taken
/// from the end of the list; a partner leaves the list with its root.
pub open spec fn separated(values: Seq<Complex>, measured: Conjugacy, live: Seq<usize>) -> Option<
    (Seq<[Complex; 2]>, Seq<Real>),
>
    decreases live.len(),
{
    if live.len() == 0 {
        Some((Seq::empty(), Seq::empty()))
    } else {
        let z = live.last() as int;
        let rest = live.drop_last();
        if counts_as_real(values, measured, z) {
            match separated(values, measured, rest) {
                Some((pairs, reals)) => Some((pairs, seq![values[z].re] + reals)),
                None => None,
            }
        } else {
            match closest(values, measured, rest, z, rest.len() as int) {
                Some(pos) => if 0 <= pos < rest.len() {
                    match separated(values, measured, rest.remove(pos)) {
                        Some((pairs, reals)) => Some(
                            (seq![[values[z], values[rest[pos] as int]]] + pairs, reals),
                        ),
                        None => None,
                    }
                } else {
                    None
                },
                None => None,
            }
        }
    }
}

/// The positions `0 .. n`.
pub open spec fn positions(n: nat) -> Seq<usize> {
    Seq::new(n, |i: int| i as usize)
}

/// What has been separated so far, followed by what the rest separates into.
pub open spec fn followed_by(
    pairs: Seq<[Complex; 2]>,
    reals: Seq<Real>,
    rest: Option<(Seq<[Complex; 2]>, Seq<Real>)>,
) -> Option<(Seq<[Complex; 2]>, Seq<Real>)> {
    match rest {
        Some((p, r)) => Some((pairs + p, reals + r)),
        None => None,
    }
}

proof fn lemma_followed_by_nothing(rest: Option<(Seq<[Complex; 2]>, Seq<Real>)>)
    ensures
        followed_by(Seq::empty(), Seq::empty(), rest) == rest,
{
    if let Some((p, r)) = rest {
        assert(Seq::<[Complex; 2]>::empty() + p =~= p);
        assert(Seq::<Real>::empty() + r =~= r);
    }
}

proof fn lemma_closest_range(
    values: Seq<Complex>,
    measured: Conjugacy,
    live: Seq<usize>,
    z: int,
    upto: int,
)
    ensures
        closest(values, measured, live, z, upto) matches Some(pos) ==> 0 <= pos < upto,
    decreases upto,
{
    if upto > 0 {
        lemma_closest_range(values, measured, live, z, upto - 1);
    }
}

/// Separates the roots into complex pairs and real roots.
///
/// The roots are taken from the last to the first. A root that counts as
/// real gives its real part; any other root is paired with the one, among
/// the complex roots not yet taken, that lies closest to its conjugate.
/// A complex root for which none is left is an error.
pub fn pair_conjugates(values: &Vec<Complex>, measured: &Conjugacy) -> (r: Result<
    (Vec<[Complex; 2]>, Vec<Real>),
    ComplexRealError,
>)
    requires
        measured.count() == values.len(),
    ensures
        match separated(values@, *measured, positions(values.len() as nat)) {
            Some((pairs, reals)) => r matches Ok(found) && found.0@ == pairs && found.1@ == reals,
            None => r matches Err(e) && e == ComplexRealError::OddNumberComplex,
        },
{
    let n: usize = values.len();
    let mut live: Vec<usize> = Vec::new();
    let mut i: usize = 0;
    while i < n
        invariant
            i <= n,
            live@ == positions(i as nat),
        decreases n - i,
    {
        live.push(i);
        proof {
            assert(live@ =~= positions((i + 1) as nat));
        }
        i += 1;
    }
    let ghost all = live@;
    let mut pairs: Vec<[Complex; 2]> = Vec::new();
    let mut reals: Vec<Real> = Vec::new();
    proof {
        lemma_followed_by_nothing(separated(values@, *measured, all));
    }
    while live.len() > 0
        invariant
            n == values.len(),
            measured.count() == n,
            all == positions(n as nat),
            forall|k: int| 0 <= k < live.len() ==> (#[trigger] live[k]) < n,
            separated(values@, *measured, all) == followed_by(
                pairs@,
                reals@,
                separated(values@, *measured, live@),
            ),
        decreases live.len(),
    {
        let ghost listed = live@;
        let ghost pairs_before = pairs@;
        let ghost reals_before = reals@;
        let z: usize = live.pop().unwrap();
        proof {
            assert(live@ == listed.drop_last());
            assert(z == listed.last());
        }
        let value = values[z];
        let im = value.im.abs();
        if value.is_zero() || im.le(measured.bound_of(z)) {
            reals.push(value.re);
            proof {
                let rest = separated(values@, *measured, live@);
                if rest is Some {
                    assert(reals_before + (seq![value.re] + rest.unwrap().1) =~= reals@
                        + rest.unwrap().1);
                }
            }
        } else {
            let mut best: Option<usize> = None;
            let mut pos: usize = 0;
            while pos < live.len()
                invariant
                    pos <= live.len(),
                    z < n,
                    n == values.len(),
                    measured.count() == n,
                    forall|k: int| 0 <= k < live.len() ==> (#[trigger] live[k]) < n,
                    match closest(values@, *measured, live@, z as int, pos as int) {
                        Some(b) => best == Some(b as usize) && 0 <= b < pos,
                        None => best is None,
                    },
                decreases live.len() - pos,
            {
                let candidate: usize = live[pos];
                let c = values[candidate];
                let settled = c.is_zero() || c.im.abs().le(measured.bound_of(candidate));
                if !settled {
                    best = match best {
                        None => Some(pos),
                        Some(b) => {
                            if measured.distance(z, live[b]).lt(measured.distance(z, candidate)) {
                                Some(b)
                            } else {
                                Some(pos)
                            }
                        },
                    };
                }
                pos += 1;
            }
            match best {
                Some(b) => {
                    let ghost rest_before = live@;
                    let partner: usize = live.remove(b);
                    pairs.push([value, values[partner]]);
                    proof {
                        assert(live@ == rest_before.remove(b as int));
                        assert(closest(
                            values@,
                            *measured,
                            rest_before,
                            z as int,
                            rest_before.len() as int,
                        ) == Some(b as int));
                        let rest = separated(values@, *measured, live@);
                        if rest is Some {
                            assert(pairs_before + (seq![[value, values@[partner as int]]]
                                + rest.unwrap().0) =~= pairs@ + rest.unwrap().0);
                        }
                    }
                },
                None => {
                    proof {
                        assert(closest(values@, *measured, live@, z as int, live.len() as int)
                            is None);
                        assert(separated(values@, *measured, listed) is None);
                    }
                    return Err(ComplexRealError::OddNumberComplex);
                },
            }
        }
    }
    proof {
        assert(pairs@ + Seq::<[Complex; 2]>::empty() =~= pairs@);
        assert(reals@ + Seq::<Real>::empty() =~= reals@);
    }
    Ok((pairs, reals))
}

impl Zpk {
    /// Separates the zeros and the poles of the system into complex pairs
    /// and real roots. `zeros` and `poles` hold what was measured of them.
    /// The result lists the pairs of zeros, the pairs of poles, the real
    /// zeros, the real poles and the gain.
    pub fn complex_real(&self, zeros: &Conjugacy, poles: &Conjugacy) -> (r: Result<
        (Vec<[Complex; 2]>, Vec<[Complex; 2]>, Vec<Real>, Vec<Real>, Complex),
        ComplexRealError,
    >)
        requires
            zeros.count() == self.z.len(),
            poles.count() == self.p.len(),
        ensures
            match (
                separated(self.z@, *zeros, positions(self.z.len() as nat)),
                separated(self.p@, *poles, positions(self.p.len() as nat)),
            ) {
                (Some((zc, zr)), Some((pc, pr))) => r matches Ok(parts) && {
                    &&& parts.0@ == zc
                    &&& parts.1@ == pc
                    &&& parts.2@ == zr
                    &&& parts.3@ == pr
                    &&& parts.4 == self.k
                },
                _ => r matches Err(e) && e == ComplexRealError::OddNumberComplex,
            },
    {
        let (zc, zr) = match pair_conjugates(&self.z, zeros) {
            Ok(found) => found,
            Err(e) => {
                return Err(e);
            },
        };
        let (pc, pr) = match pair_conjugates(&self.p, poles) {
            Ok(found) => found,
            Err(e) => {
                return Err(e);
            },
        };
        Ok((zc, pc, zr, pr, self.k))
    }
}

/// A list of roots that separates does so into as many parts as it has
/// roots: two roots to each pair, and one to each real part.
pub proof fn lemma_separated_count(values: Seq<Complex>, measured: Conjugacy, live: Seq<usize>)
    ensures
        separated(values, measured, live) matches Some((pairs, reals)) ==> 2 * pairs.len()
            + reals.len() == live.len(),
    decreases live.len(),
{
    if live.len() > 0 {
        let z = live.last() as int;
        let rest = live.drop_last();
        if counts_as_real(values, measured, z) {
            lemma_separated_count(values, measured, rest);
        } else {
            lemma_closest_range(values, measured, rest, z, rest.len() as int);
            match closest(values, measured, rest, z, rest.len() as int) {
                Some(pos) => {
                    lemma_separated_count(values, measured, rest.remove(pos));
                },
                None => {},
            }
        }
    }
}

} // verus!
