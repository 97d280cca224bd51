//! Pairwise collision tests, unified over a tagged union of shapes:
//! exact distance tests for circle pairs, clamp tests for circle-box
//! pairs, the interval test for axis-aligned pairs and the
//! separating-axis test for box pairs.

use vstd::prelude::*;
use crate::aabb::AABB;
use crate::circle::Circle;
use crate::oobb::OOBB;
use crate::oobb::sat_collides_spec;
use crate::vec2::MAX_COORD;
use crate::vec2::Vec2;
use crate::vec2::dist_sq_of;

verus! {

/// A collidable shape.
#[derive(Clone, Copy, PartialEq, Eq, Structural, Debug)]
pub enum Collider {
    Circle(Circle),
    AABB(AABB),
    OOBB(OOBB),
}

/// An axis-aligned box seen as an oriented box whose axis is the
/// horizontal unit vector: the projection ranges are the box's own
/// coordinate ranges.
pub open spec fn aabb_frame(b: AABB) -> OOBB {
    OOBB { axis: Vec2 { x: 1, y: 0 }, lo_u: b.min.x, hi_u: b.max.x, lo_v: b.min.y, hi_v: b.max.y }
}

/// Which test decides each pair of shapes: circle pairs by center
/// distance, circle-box pairs by clamping the center to the box, two
/// axis-aligned boxes by interval overlap, and any pair involving an
/// oriented box by the separating-axis test.
pub open spec fn collides_spec(a: Collider, b: Collider) -> bool {
    match (a, b) {
        (Collider::Circle(c1), Collider::Circle(c2)) => c1.overlaps_circle_spec(c2),
        (Collider::Circle(c), Collider::AABB(bx)) => bx.overlaps_circle_spec(c),
        (Collider::AABB(bx), Collider::Circle(c)) => bx.overlaps_circle_spec(c),
        (Collider::Circle(c), Collider::OOBB(o)) => o.overlaps_circle_spec(c),
        (Collider::OOBB(o), Collider::Circle(c)) => o.overlaps_circle_spec(c),
        (Collider::AABB(b1), Collider::AABB(b2)) => b1.overlaps_aabb_spec(b2),
        (Collider::AABB(bx), Collider::OOBB(o)) => sat_collides_spec(aabb_frame(bx), o),
        (Collider::OOBB(o), Collider::AABB(bx)) => sat_collides_spec(o, aabb_frame(bx)),
        (Collider::OOBB(o1), Collider::OOBB(o2)) => sat_collides_spec(o1, o2),
    }
}

impl Collider {
    /// The wrapped shape is valid and within the kernel's coordinate
    /// bounds.
    pub open spec fn wf(self) -> bool {
        match self {
            Collider::Circle(c) => c.wf() && c.center.in_bounds() && c.radius <= MAX_COORD,
            Collider::AABB(b) => b.wf() && b.min.in_bounds() && b.max.in_bounds(),
            Collider::OOBB(o) => o.wf(),
        }
    }

    /// Whether this shape and another collide, dispatching to the exact
    /// pairwise test for the two shapes' kinds.
    pub fn collides_with(&self, other: Collider) -> (r: bool)
        requires
            self.wf(),
            other.wf(),
        ensures
            r == collides_spec(*self, other),
    {
        match (self, other) {
            (Collider::Circle(a), Collider::Circle(b)) => a.overlaps_circle(b),
            (Collider::Circle(a), Collider::AABB(b)) => a.overlaps_aabb(b),
            (Collider::Circle(a), Collider::OOBB(b)) => a.overlaps_oobb(&b),
            (Collider::AABB(a), Collider::Circle(b)) => a.overlaps_circle(b),
            (Collider::AABB(a), Collider::AABB(b)) => a.overlaps_aabb(b),
            (Collider::AABB(a), Collider::OOBB(b)) => box_frame(a).overlaps_oobb(&b),
            (Collider::OOBB(a), Collider::Circle(b)) => a.overlaps_circle(b),
            (Collider::OOBB(a), Collider::AABB(b)) => a.overlaps_oobb(&box_frame(&b)),
            (Collider::OOBB(a), Collider::OOBB(b)) => a.overlaps_oobb(&b),
        }
    }
}

/// Carries an axis-aligned box into the oriented-box representation, so
/// that it can be projected and tested like any other box.
pub fn box_frame(b: &AABB) -> (r: OOBB)
    requires
        b.wf(),
        b.min.in_bounds(),
        b.max.in_bounds(),
    ensures
        r == aabb_frame(*b),
        r.wf(),
{
    OOBB { axis: Vec2 { x: 1, y: 0 }, lo_u: b.min.x, hi_u: b.max.x, lo_v: b.min.y, hi_v: b.max.y }
}

/// The collision test does not depend on the order of its arguments.
pub proof fn lemma_collides_symmetric(a: Collider, b: Collider)
    ensures
        collides_spec(a, b) == collides_spec(b, a),
{
    match (a, b) {
        (Collider::Circle(c1), Collider::Circle(c2)) => {
            crate::vec2::lemma_dist_sq_symmetric(c1.center, c2.center);
        },
        _ => {},
    }
}

/// A circle pair collides exactly when its centers are strictly closer
/// than the sum of the radii (compared in squares, which is equivalent
/// for the non-negative quantities involved).
pub proof fn lemma_circle_pair_is_distance_test(c1: Circle, c2: Circle)
    ensures
        collides_spec(Collider::Circle(c1), Collider::Circle(c2)) == (dist_sq_of(
            c1.center, c2.center) < (c1.radius + c2.radius) * (c1.radius + c2.radius)),
{
}

} // verus!
