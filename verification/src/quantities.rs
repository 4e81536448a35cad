//! The values that systems are made of.

pub mod complex;
pub mod order;
pub mod roots;
pub mod scalar;
pub mod table;
