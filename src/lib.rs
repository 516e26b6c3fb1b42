//! A fixed-point particle-advection core: particles steered by a flow field
//! read from a scalar noise grid, wrapped toroidally at the domain's edges.
//!
//! All quantities are fixed-point integers with `geometry::ONE` units to the
//! unit (a pixel, a full gain, one time unit).

pub mod geometry;
pub mod field;
pub mod particle;
pub mod laws;
