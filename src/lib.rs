//! An editable polygon in fixed-point coordinates, its affine transforms about a
//! pivot, regular re-layout on vertex insertion and removal, nearest-vertex hit
//! testing, and an integer line rasterizer that outlines it into an RGBA buffer.

use vstd::prelude::*;

pub mod algebra;
pub mod raster;
pub mod figure;
pub mod laws;
pub mod controls;

pub use algebra::{Matrix, Vertex};
pub use figure::Figure;
pub use raster::{clear, Color};

verus! {

/// Width of the frame buffer, in pixels.
pub const WIDTH: usize = 800;

/// Height of the frame buffer, in pixels.
pub const HEIGHT: usize = 600;

} // verus!
