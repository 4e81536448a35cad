//! The Welch window.

use vstd::prelude::*;
use crate::window::{window_grid, Window, WindowGen, WindowRange};

verus! {

/// A parabola that is one at the centre of the window: `1 - z * z`, where `z`
/// is the distance from the centre in half periods.
#[derive(Debug, Clone, Copy, PartialEq, Eq, Structural)]
pub struct Welch;

impl WindowGen for Welch {
    fn window_gen(&self, n: usize, range: WindowRange) -> (w: Window) {
        window_grid(n, range)
    }
}

} // verus!
