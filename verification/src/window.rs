//! Window functions.
//!
//! A window of `n` samples is a shape sampled at `n` points. What is
//! settled here is the grid of those points.

use vstd::prelude::*;
use crate::quantities::scalar::{Real, ONE_BITS};

pub mod hamming;
pub mod sine;
pub mod welch;

verus! {

/// Whether a window is meant to stand alone or to be repeated.
#[derive(Debug, Clone, Copy, PartialEq, Eq, Structural)]
pub enum WindowRange {
    /// The last sample mirrors the first.
    Symmetric,
    /// The sample after the last would mirror the first.
    Periodic,
}

/// A window, or what is needed to sample it.
#[derive(Debug, Clone)]
pub enum Window {
    /// The samples themselves.
    Samples(Vec<Real>),
    /// `len` samples to be taken: sample `i` lies at the fraction
    /// `i / period` of the shape.
    Grid { len: usize, period: usize },
}

/// The period of the grid of a window of `n` samples, where `n` is at
/// least two.
pub open spec fn period_of(n: nat, range: WindowRange) -> nat {
    match range {
        WindowRange::Symmetric => (n - 1) as nat,
        WindowRange::Periodic => n,
    }
}

/// `n` samples that are all one.
pub open spec fn ones(n: nat) -> Seq<Real> {
    Seq::new(n, |i: int| Real { bits: ONE_BITS })
}

/// What all windows share: a window of fewer than two samples is constant
/// one, and a longer one is sampled on a grid whose period is the number of
/// samples, less one if the window is symmetric.
pub open spec fn window_of(n: nat, range: WindowRange, w: Window) -> bool {
    if n <= 1 {
        w matches Window::Samples(samples) && samples@ == ones(n)
    } else {
        w matches Window::Grid { len, period } && len == n && period == period_of(n, range)
    }
}

/// Lays out a window of `n` samples.
pub fn window_grid(n: usize, range: WindowRange) -> (w: Window)
    ensures
        window_of(n as nat, range, w),
{
    if n <= 1 {
        let mut samples: Vec<Real> = Vec::new();
        if n == 1 {
            samples.push(Real::one_value());
        }
        proof {
            assert(samples@ =~= ones(n as nat));
        }
        return Window::Samples(samples);
    }
    let period: usize = match range {
        WindowRange::Symmetric => n - 1,
        WindowRange::Periodic => n,
    };
    Window::Grid { len: n, period }
}

/// A shape that windows can be sampled from.
pub trait WindowGen {
    /// Lays out a window of `n` samples of this shape.
    fn window_gen(&self, n: usize, range: WindowRange) -> (w: Window)
        ensures
            window_of(n as nat, range, w),
    ;
}

} // verus!
