//! Transforms between systems.

pub mod sftrans;
