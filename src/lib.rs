//! Pixel images made by resampling a colour grid through coordinate
//! transforms, masked by shape filters and recoloured by simple operations,
//! driven by a small command language with bounded loop blocks.
//!
//! All geometry is exact integer arithmetic: coordinates are counted in
//! half-pixel steps from the grid's centre, and transform coefficients are
//! fixed point with `geometry::ONE` standing for 1.

pub mod color;
pub mod command;
pub mod filter;
pub mod geometry;
pub mod matrix;
pub mod program;
pub mod state;
pub mod text;
