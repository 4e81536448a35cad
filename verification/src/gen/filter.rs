//! What the filter generators have in common, and the generators themselves.

pub mod cheby2;
pub mod design;
pub mod sgolay;
