//! Escape-time fractal engine: progressive refinement, region caching,
//! raster assembly, palette selection, image export and the per-tick
//! decisions of an interactive viewer.

pub mod cache;
pub mod color;
pub mod escape;
pub mod export;
pub mod history;
pub mod progressive;
pub mod raster;
pub mod viewer;
