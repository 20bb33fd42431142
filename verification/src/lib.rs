//! A chunked, sparse, logically infinite 2D height field with subpixel
//! (bilinear) sampling and modification, plus a particle-based hydraulic
//! erosion simulation, radius-weighted sculpting brushes, a mesh-data
//! builder and a dense export of the populated region.
//!
//! All heights and positions are fixed-point integers: a world position
//! carries `FRAC` subpixel units per cell, a height of one unit is `UNIT`.

use vstd::prelude::*;

pub mod chunk;
pub mod droplet;
pub mod erode;
pub mod export;
pub mod fixed;
pub mod generation;
pub mod mesh;
pub mod rng;
pub mod terrain;
pub mod tools;

verus! {

/// Subpixel resolution: world positions carry this many units per cell.
pub const FRAC: i64 = 256;

/// `FRAC * FRAC`, the total bilinear weight of the four corners of a cell.
pub const FRAC2: i64 = 256 * 256;

/// Fixed-point scale of heights: this value stands for a height of 1.0.
pub const UNIT: i64 = 65536;

} // verus!
