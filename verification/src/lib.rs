//! A verified core for procedural 2D imagery driven by noise fields.
//!
//! Coordinates, noise samples and palette positions are fixed-point
//! numbers: an `i64` counts units of `1 / FX_ONE`.  The noise generators
//! themselves are a supplied capability (the `NoiseSource` trait); every
//! algorithm that consumes them — field sampling, path integration,
//! palette resolution and triangle tessellation — is verified here.

pub mod fixed;
pub mod geom;
pub mod noise;
pub mod integrate;
pub mod tessellate;
pub mod palette;
pub mod hex;
pub mod render;
