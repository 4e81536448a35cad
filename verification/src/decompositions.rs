//! Decompositions of systems into sums of simple terms.

pub mod cluster;
pub mod factors;
pub mod residue;
pub mod residuez;
