//! The forms in which a linear time-invariant system is held.

pub mod complex_real;
pub mod rpk;
pub mod tf;
pub mod zpk;
