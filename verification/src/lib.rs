//! Procedurally generated, chunked terrain: a deterministic fractal noise
//! field, chunk-indexed height maps with precomputed surface normals, a
//! sparse chunk store, a circular chunk-loading policy, triangle-mesh
//! synthesis from a height grid, and an RGBA raster pipeline with gradient
//! mapping and posterization.
//!
//! All scalar quantities (heights, normals, coordinates, thresholds) are
//! 16.16 fixed-point integers, so every value is an exact function of the
//! inputs and the configuration: terrain is reproducible bit for bit, and
//! adjacent chunks agree exactly along their shared border.

pub mod fixed;
pub mod heightmap;
pub mod loader;
pub mod mesh;
pub mod noise;
pub mod pixels;
pub mod store;
