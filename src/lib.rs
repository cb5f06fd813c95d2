//! Detector projection and accumulation engine for a simplified LIDAR model.
//!
//! Rays arrive as collision records, are projected onto a pixel grid, and
//! each accepted hit is accumulated per pixel: a hit counter, a running sum
//! of distances and the ordered list of hit records. A depth image is then
//! reduced from those buffers, and the hit lists are laid out row-major for
//! storage.
//!
//! Distances are integers in a fixed unit chosen by the caller; floating-point
//! geometry (normalising directions, the pinhole lens) stays with the caller,
//! which hands the engine the heading of each ray and the pixel a lens maps
//! it to.
use vstd::prelude::*;

pub mod detector;
pub mod grid;
pub mod ray;

verus! {

} // verus!
