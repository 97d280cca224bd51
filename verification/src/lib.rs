//! An exact two-dimensional geometry and collision kernel.
//!
//! Coordinates live on an integer grid: every point, direction and shape
//! parameter is a machine integer, so vector algebra, containment tests,
//! overlap tests and the separating-axis collision test are computed exactly,
//! with no rounding error. Quantities that arithmetic cannot keep on the grid
//! (segment intersection parameters, reflected velocities, oriented-box areas)
//! are returned as exact rationals.
//!
//! The crate offers:
//! - [`vec2::Vec2`]: integer 2D vector algebra (dot, cross, squared lengths,
//!   reflection, pseudoangles);
//! - shape primitives [`aabb::AABB`], [`circle::Circle`], [`oobb::OOBB`] and
//!   [`line::Line`], each with containment, overlap and enclosing
//!   constructors;
//! - [`collider::Collider`], a tagged union running pairwise collision tests
//!   (separating-axis test for box pairs, exact distance tests for circles);
//! - a brute-force minimum-area oriented-box fitter over a caller-supplied
//!   family of candidate axes;
//! - [`particle::Particle`], a point mass advanced by velocity times a time
//!   step and reflected off the nearest intersected wall segment.

use vstd::prelude::*;

pub mod ratio;
pub mod vec2;
pub mod aabb;
pub mod circle;
pub mod line;
pub mod oobb;
pub mod collider;
pub mod particle;

verus! {

/// Error surfaced by the enclosing-shape constructors.
#[derive(Clone, Copy, PartialEq, Eq, Structural, Debug)]
pub enum GeomError {
    /// The operation was handed an input outside its domain,
    /// such as an empty point set.
    InvalidInput,
}

} // verus!
