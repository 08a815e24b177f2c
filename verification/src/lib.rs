//! Combinatorial maps for meshing: dart storage, beta functions, orbits,
//! link / sew operations and cell identifiers, with their contracts.

pub mod ids;
pub mod error;
pub mod embed;
pub mod components;
pub mod orbits;
pub mod attributes;
pub mod cmap2;
pub mod dart;
pub mod twomap;
pub mod generation;
pub mod cmap3;
pub mod grid_data;
pub mod grid_export;
