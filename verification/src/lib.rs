//! Spatial scalar fields and density-driven growth.
//!
//! A fixed world rectangle is covered by 2D grids of scalar samples
//! (`domain::Field`), read through nearest or bilinear sampling and written
//! through radial falloff kernels. A palette (`color_map::ColorMap`) turns a
//! sample and a value range into a color, and the growth process
//! (`organism`) ages, removes and stochastically propagates organisms whose
//! footprints are integrated into a shared density field.
//!
//! Scalars are fixed-point numbers (`scalar::UNIT` mantissa steps per
//! unit), extended by the non-finite values — two infinities and an
//! invalid-data marker — so that sampling and reductions can state exactly
//! how invalid cells travel through them.

pub mod color_map;
pub mod domain;
pub mod organism;
pub mod rng_source;
pub mod scalar;
pub mod terrain;

pub use scalar::Value;
pub use scalar::UNIT;
