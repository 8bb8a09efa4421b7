//! Procedural terrain generation: fractal noise sampling, height-curve
//! remapping, grid triangulation at a chosen level of detail, and
//! height-banded material blending.
//!
//! All real-valued quantities are carried as fixed-point integers in
//! micro-units: the value `v` stands for the real number `v / 1_000_000`.

pub mod fixed;
pub mod curve;
pub mod noise;
pub mod material;
pub mod mesh;
pub mod map;
