//! 3D combinatorial maps.

pub mod structure;
pub mod basic_ops;
pub mod links;
pub mod sews;
pub mod three_sews;
pub mod embed;
pub mod laws;
pub mod consistency;
pub mod sew_laws;
pub mod vertex_laws;
pub mod orbit_laws;
