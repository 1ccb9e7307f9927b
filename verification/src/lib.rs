//! A small ray tracer verified end to end over fixed-point arithmetic.
//!
//! The engine casts rays from a camera through an image plane, resolves the
//! nearest sphere intersection, follows diffuse bounces to a bounded depth,
//! averages per-pixel samples and maps the averaged linear intensity to
//! displayable integer color channels.
//!
//! Real-valued quantities are carried as `i128` values scaled by a fixed
//! factor, so every geometric and shading computation has an exact
//! mathematical mirror that contracts can state.

pub mod fixed;
pub mod position;
pub mod interval;
pub mod ray;
pub mod color;
pub mod util;
pub mod hittable;
pub mod sphere;
pub mod rng;
pub mod camera;
pub mod material;

use vstd::prelude::*;

verus! {

/// Failure kinds for validated construction. Every one is fatal to a
/// batch render; callers surface it and stop.
#[derive(Clone, Copy, PartialEq, Eq, Structural, Debug, Hash)]
pub enum RenderError {
    /// Camera options that derive a degenerate image geometry.
    InvalidConfiguration,
    /// A ray or primitive whose geometric invariant fails.
    InvalidGeometry,
    /// A linear color channel outside the displayable range.
    ColorOutOfRange,
}

} // verus!
