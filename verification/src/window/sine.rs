//! The sine window.

use vstd::prelude::*;
use crate::window::{window_grid, Window, WindowGen, WindowRange};

verus! {

/// Half a period of a sine: `sin(pi * x)` at the fraction `x`.
#[derive(Debug, Clone, Copy, PartialEq, Eq, Structural)]
pub struct Sine;

impl WindowGen for Sine {
    fn window_gen(&self, n: usize, range: WindowRange) -> (w: Window) {
        window_grid(n, range)
    }
}

} // verus!
