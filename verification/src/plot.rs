//! What a plot of poles and zeros or of curves shows, short of drawing it.

use vstd::prelude::*;
use crate::decompositions::cluster::{cluster_poles, clusters_of, PoleCluster, Tolerance};
use crate::quantities::roots::Roots;
use crate::quantities::scalar::Real;

verus! {

/// The marks of a pole-zero plot: roots that the plot cannot tell apart
/// are drawn as one mark, which is labelled with their number. Two roots
/// cannot be told apart if their distance does not exceed `resolution`.
pub fn mark_roots(roots: &Roots, resolution: Real) -> (marks: Vec<PoleCluster>)
    ensures
        marks@ == clusters_of(
            *roots,
            Tolerance { bound: resolution, inclusive: true },
            roots.count(),
        ),
{
    cluster_poles(roots, Tolerance { bound: resolution, inclusive: true })
}

/// The sum of the three channels below which a colour shows on white.
pub const LEGIBLE_BELOW: u16 = 459;

/// Whether a colour is dark enough to show on a white ground.
pub open spec fn legible(colour: (u8, u8, u8)) -> bool {
    colour.0 + colour.1 + colour.2 < LEGIBLE_BELOW
}

pub fn is_legible(colour: (u8, u8, u8)) -> (r: bool)
    ensures
        r == legible(colour),
{
    (colour.0 as u16) + (colour.1 as u16) + (colour.2 as u16) < LEGIBLE_BELOW
}

/// Picks the colour of the next curve from a palette that is run through
/// again and again: the first legible colour at or after the place `from`.
/// The result is the place of that colour, counted like `from` without
/// regard to the length of the palette; there is none if no colour of the
/// palette is legible, or if the count would leave the range of the
/// machine's numbers.
pub fn pick_colour(palette: &Vec<(u8, u8, u8)>, from: usize) -> (place: Option<usize>)
    ensures
        match place {
            Some(j) => {
                &&& palette.len() > 0
                &&& from <= j < from + palette.len()
                &&& legible(palette[j as int % palette.len() as int])
                &&& forall|i: int| from <= i < j ==> !legible(#[trigger] palette[i % palette.len() as int])
            },
            None => {
                ||| forall|i: int| 0 <= i < palette.len() ==> !legible(#[trigger] palette[i])
                ||| from + palette.len() > usize::MAX
            },
        },
{
    let n: usize = palette.len();
    if n == 0 {
        return None;
    }
    if from > usize::MAX - n {
        return None;
    }
    let mut j: usize = from;
    while j < from + n
        invariant
            from <= j <= from + n,
            n == palette.len(),
            n > 0,
            from + n <= usize::MAX,
            forall|i: int| from <= i < j ==> !legible(#[trigger] palette[i % palette.len() as int]),
        decreases from + n - j,
    {
        if is_legible(palette[j % n]) {
            return Some(j);
        }
        j += 1;
    }
    proof {
        assert forall|i: int| 0 <= i < n implies !legible(#[trigger] palette[i]) by {
            let start = from as int % n as int;
            let k = if i >= start { from + (i - start) } else { from + (i - start) + n };
            assert(from <= k < from + n);
            assert(k % n as int == i) by (nonlinear_arith)
                requires
                    n > 0,
                    0 <= i < n,
                    start == from as int % n as int,
                    k == if i >= start { from + (i - start) } else { from + (i - start) + n },
                    from >= 0,
            ;
            assert(!legible(palette[k % n as int]));
        }
    }
    None
}

} // verus!
