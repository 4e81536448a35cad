//! Verified structure of linear time-invariant system transforms.
//!
//! Numbers are carried as IEEE 754 binary64 bit patterns. The library
//! compares, negates and moves them, and decides the shape of every result:
//! which pole joins which cluster, in which order the terms of a partial
//! fraction come out, which rule produces each root of a remapped filter.
//! Rounded arithmetic is left to the caller.

pub mod decompositions;
pub mod gen;
pub mod plot;
pub mod quantities;
pub mod systems;
pub mod transforms;
pub mod window;
