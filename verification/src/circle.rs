//! Circles: enclosing constructor, containment and overlap tests.

use vstd::prelude::*;
use crate::GeomError;
use crate::oobb::OOBB;
use crate::aabb::AABB;
use crate::ratio::lemma_mul_bound;
use crate::ratio::midpoint;
use crate::vec2::MAX_COORD;
use crate::vec2::Vec2;
use crate::vec2::dist_sq_of;
use crate::vec2::isqrt;

verus! {

/// A circle with integer center and radius.
#[derive(Clone, Copy, PartialEq, Eq, Structural, Debug)]
pub struct Circle {
    pub center: Vec2,
    pub radius: i64,
}

/// `b` is the componentwise bounding box of the points of `s`: it contains
/// them all inclusively and attains each of its four bounds on some point.
pub open spec fn is_bounding_box(b: AABB, s: Seq<Vec2>) -> bool {
    &&& b.wf()
    &&& forall|i: int| 0 <= i < s.len() ==> b.contains_inclusive(s[i])
    &&& exists|i: int| 0 <= i < s.len() && s[i].x == b.min.x
    &&& exists|i: int| 0 <= i < s.len() && s[i].y == b.min.y
    &&& exists|i: int| 0 <= i < s.len() && s[i].x == b.max.x
    &&& exists|i: int| 0 <= i < s.len() && s[i].y == b.max.y
}

impl Circle {
    /// The radius is non-negative.
    pub open spec fn wf(self) -> bool {
        self.radius >= 0
    }

    /// Strict containment: points on the rim are outside.
    pub open spec fn contains_spec(self, p: Vec2) -> bool {
        dist_sq_of(p, self.center) < self.radius * self.radius
    }

    /// Overlap: the centers are strictly closer than the sum of the radii.
    pub open spec fn overlaps_circle_spec(self, other: Circle) -> bool {
        dist_sq_of(self.center, other.center)
            < (self.radius + other.radius) * (self.radius + other.radius)
    }

    /// Builds a circle from its center and radius.
    pub fn new(center: Vec2, radius: i64) -> (r: Circle)
        ensures
            r.center == center,
            r.radius == radius,
    {
        Circle { center, radius }
    }

    /// The circle's first projection axis: the world horizontal unit
    /// vector (a circle has no orientation of its own).
    pub fn u(&self) -> (r: Vec2)
        ensures
            r == (Vec2 { x: 1i64, y: 0i64 }),
    {
        Vec2 { x: 1, y: 0 }
    }

    /// The circle's second projection axis: the world vertical unit
    /// vector.
    pub fn v(&self) -> (r: Vec2)
        ensures
            r == (Vec2 { x: 0i64, y: 1i64 }),
    {
        Vec2 { x: 0, y: 1 }
    }

    /// The circle's center.
    pub fn center(&self) -> (r: Vec2)
        ensures
            r == self.center,
    {
        self.center
    }

    /// The circle's half-extents along its projection axes: the radius on
    /// both.
    pub fn extents(&self) -> (r: Vec2)
        ensures
            r.x == self.radius,
            r.y == self.radius,
    {
        Vec2 { x: self.radius, y: self.radius }
    }

    /// Whether a point lies strictly inside the circle.
    pub fn contains_point(&self, point: Vec2) -> (r: bool)
        requires
            self.center.in_bounds(),
            point.in_bounds(),
            0 <= self.radius <= MAX_COORD,
        ensures
            r == self.contains_spec(point),
    {
        let d = point.distance_to_squared(self.center);
        proof {
            lemma_mul_bound(self.radius as int, self.radius as int, 100_000, 100_000);
        }
        (d as i128) < self.radius as i128 * self.radius as i128
    }

    /// Whether this circle and another overlap: their centers are strictly
    /// closer than the sum of their radii.
    pub fn overlaps_circle(&self, other: Circle) -> (r: bool)
        requires
            self.center.in_bounds(),
            other.center.in_bounds(),
            0 <= self.radius <= MAX_COORD,
            0 <= other.radius <= MAX_COORD,
        ensures
            r == self.overlaps_circle_spec(other),
    {
        let d = self.center.distance_to_squared(other.center);
        let rsum = self.radius as i128 + other.radius as i128;
        proof {
            lemma_mul_bound(rsum as int, rsum as int, 200_000, 200_000);
        }
        (d as i128) < rsum * rsum
    }

    /// Whether this circle and an axis-aligned box overlap.
    pub fn overlaps_aabb(self, other: AABB) -> (r: bool)
        requires
            other.wf(),
            other.min.in_bounds(),
            other.max.in_bounds(),
            self.center.in_bounds(),
            0 <= self.radius <= MAX_COORD,
        ensures
            r == other.overlaps_circle_spec(self),
    {
        other.overlaps_circle(self)
    }

    /// Moves the circle so its center is the given point.
    pub fn set_center(&mut self, c: Vec2)
        ensures
            final(self).center == c,
            final(self).radius == old(self).radius,
    {
        self.center = c;
    }

    /// Inflates (or, with a negative amount, deflates) the circle by
    /// adjusting its radius. The radius may not drop below zero.
    pub fn grow(&mut self, amount: i64)
        requires
            old(self).radius + amount >= 0,
            old(self).radius + amount <= i64::MAX,
        ensures
            final(self).center == old(self).center,
            final(self).radius == old(self).radius + amount,
    {
        self.radius = self.radius + amount;
    }

    /// Whether this circle and an oriented box overlap.
    pub fn overlaps_oobb(self, other: &OOBB) -> (r: bool)
        requires
            other.wf(),
            self.center.in_bounds(),
            0 <= self.radius <= MAX_COORD,
        ensures
            r == other.overlaps_circle_spec(self),
    {
        other.overlaps_circle(self)
    }

    /// Builds a circle guaranteed to contain every given point within its
    /// closed disc: its center is the rounded midpoint of the points'
    /// bounding box and its radius the least integer that covers the box's
    /// corners from there. The circle is a guaranteed cover, not a minimal
    /// enclosing circle. An empty point set is rejected.
    pub fn enclosing(points: &Vec<Vec2>) -> (r: Result<Circle, GeomError>)
        requires
            forall|i: int| 0 <= i < points@.len() ==> (#[trigger] points@[i]).in_bounds(),
        ensures
            points@.len() == 0 <==> r is Err,
            r is Err ==> r == Result::<Circle, GeomError>::Err(GeomError::InvalidInput),
            r matches Ok(c) ==> {
                &&& c.wf()
                &&& c.center.in_bounds()
                &&& forall|i: int| 0 <= i < points@.len()
                    ==> dist_sq_of(#[trigger] points@[i], c.center) <= c.radius * c.radius
                &&& forall|b: AABB| is_bounding_box(b, points@) ==> {
                    &&& c.center.x == (b.min.x + b.max.x) / 2
                    &&& c.center.y == (b.min.y + b.max.y) / 2
                    &&& c.radius * c.radius >= corner_dist_sq(b, c.center)
                    &&& c.radius > 0 ==> (c.radius - 1) * (c.radius - 1) < corner_dist_sq(
                        b, c.center)
                }
            },
    {
        let aabb = match AABB::enclosing(points) {
            Ok(b) => b,
            Err(e) => {
                return Err(e);
            },
        };
        let cx = midpoint(aabb.min.x, aabb.max.x);
        let cy = midpoint(aabb.min.y, aabb.max.y);
        let center = Vec2 { x: cx, y: cy };
        proof {
            assert(is_bounding_box(aabb, points@));
            let i1 = choose|i: int| 0 <= i < points@.len() && points@[i].x == aabb.min.x;
            assert(points@[i1].in_bounds());
            let i2 = choose|i: int| 0 <= i < points@.len() && points@[i].y == aabb.min.y;
            assert(points@[i2].in_bounds());
            let i3 = choose|i: int| 0 <= i < points@.len() && points@[i].x == aabb.max.x;
            assert(points@[i3].in_bounds());
            let i4 = choose|i: int| 0 <= i < points@.len() && points@[i].y == aabb.max.y;
            assert(points@[i4].in_bounds());
        }
        // The farthest point of the box from the center is one of its
        // corners; measure all four.
        let d1 = aabb.min.distance_to_squared(center);
        let d2 = Vec2 { x: aabb.min.x, y: aabb.max.y }.distance_to_squared(center);
        let d3 = Vec2 { x: aabb.max.x, y: aabb.min.y }.distance_to_squared(center);
        let d4 = aabb.max.distance_to_squared(center);
        let mut dmax = d1;
        if d2 > dmax {
            dmax = d2;
        }
        if d3 > dmax {
            dmax = d3;
        }
        if d4 > dmax {
            dmax = d4;
        }
        let radius = ceil_sqrt(dmax as u64) as i64;
        proof {
            lemma_box_uniqueness(points@);
            assert forall|i: int| 0 <= i < points@.len() implies dist_sq_of(
                #[trigger] points@[i], center) <= radius * radius by {
                lemma_point_in_box_corner_bound(aabb, center, points@[i]);
            }
        }
        Ok(Circle { center, radius })
    }
}

/// Ceiling of the square root: the least integer whose square is at least `n`.
pub fn ceil_sqrt(n: u64) -> (r: u64)
    ensures
        n <= r * r,
        r > 0 ==> (r - 1) * (r - 1) < n,
        r <= 0x1_0000_0000,
{
    let s = isqrt(n);
    if s * s == n {
        proof {
            assert(s > 0 ==> (s - 1) * (s - 1) < s * s) by (nonlinear_arith);
        }
        s
    } else {
        s + 1
    }
}

/// The largest squared distance from `c` to a corner of `b`.
pub open spec fn corner_dist_sq(b: AABB, c: Vec2) -> int {
    let d1 = dist_sq_of(b.min, c);
    let d2 = dist_sq_of(Vec2 { x: b.min.x, y: b.max.y }, c);
    let d3 = dist_sq_of(Vec2 { x: b.max.x, y: b.min.y }, c);
    let d4 = dist_sq_of(b.max, c);
    let m12 = if d1 >= d2 { d1 } else { d2 };
    let m34 = if d3 >= d4 { d3 } else { d4 };
    if m12 >= m34 { m12 } else { m34 }
}

/// A point inside a box is no farther from any center than the farthest
/// corner of the box.
proof fn lemma_point_in_box_corner_bound(b: AABB, c: Vec2, p: Vec2)
    requires
        b.wf(),
        b.contains_inclusive(p),
    ensures
        dist_sq_of(p, c) <= corner_dist_sq(b, c),
{
    let dx = p.x - c.x;
    let lx = b.min.x - c.x;
    let hx = b.max.x - c.x;
    let mx = if lx * lx >= hx * hx { lx } else { hx };
    assert(dx * dx <= mx * mx) by (nonlinear_arith)
        requires
            lx <= dx <= hx,
            mx == lx || mx == hx,
            lx * lx >= hx * hx ==> mx == lx,
            lx * lx < hx * hx ==> mx == hx;
    let dy = p.y - c.y;
    let ly = b.min.y - c.y;
    let hy = b.max.y - c.y;
    let my = if ly * ly >= hy * hy { ly } else { hy };
    assert(dy * dy <= my * my) by (nonlinear_arith)
        requires
            ly <= dy <= hy,
            my == ly || my == hy,
            ly * ly >= hy * hy ==> my == ly,
            ly * ly < hy * hy ==> my == hy;
}

/// Two bounding boxes of the same point set are equal.
proof fn lemma_box_uniqueness(s: Seq<Vec2>)
    ensures
        forall|b1: AABB, b2: AABB|
            is_bounding_box(b1, s) && is_bounding_box(b2, s) ==> b1 == b2,
{
    assert forall|b1: AABB, b2: AABB|
        is_bounding_box(b1, s) && is_bounding_box(b2, s) implies b1 == b2 by {
        assert(b1.min.x == b2.min.x);
        assert(b1.min.y == b2.min.y);
        assert(b1.max.x == b2.max.x);
        assert(b1.max.y == b2.max.y);
    }
}

} // verus!
