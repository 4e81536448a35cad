//! Generators of filters.

pub mod butter;
pub mod filter;
