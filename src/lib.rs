//! Escape-time fractal rendering: raster geometry, a parallel grid driver,
//! discrete escape levels and the mapping from escape results to pixel bytes.
//!
//! The per-point iteration itself is floating-point work and is handed to
//! the grid driver as an evaluator closure.

pub mod colour;
pub mod escape;
pub mod grid;
pub mod raster;

pub use colour::{to_bytes, ColorMode, Shade};
pub use escape::{discrete_level, Output};
pub use grid::{generate, generate_sequential};
pub use raster::{Orientation, Raster, RegionError};
