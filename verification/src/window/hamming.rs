//! The Hamming window.

use vstd::prelude::*;
use crate::window::{window_grid, Window, WindowGen, WindowRange};

verus! {

/// A raised cosine: `a - (1 - a) * cos(2 * pi * x)` at the fraction `x`, with
/// `a = 25 / 46`.
#[derive(Debug, Clone, Copy, PartialEq, Eq, Structural)]
pub struct Hamming;

impl WindowGen for Hamming {
    fn window_gen(&self, n: usize, range: WindowRange) -> (w: Window) {
        window_grid(n, range)
    }
}

} // verus!
