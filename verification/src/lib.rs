//! Escape-time rendering of Julia sets into grayscale rasters.
//!
//! The crate holds the integer side of the renderer: how an orbit is counted
//! into a shade ([`escape`]), how shades are laid out in a raster
//! ([`raster`]), how a run of frames is numbered ([`sweep`]), and how a raster
//! is handed to the encoders of the `image` and `gif` crates ([`export`]).
//! The arithmetic on the complex plane is supplied by the caller as closures,
//! so the renderer is generic in the number type.

pub mod escape;
pub mod export;
pub mod raster;
pub mod sweep;
