//! 2D combinatorial maps.

pub mod structure;
pub mod basic_ops;
pub mod links;
pub mod sews;
pub mod embed;
pub mod laws;
pub mod advanced_ops;
pub mod split_laws;
pub mod orbit_laws;
