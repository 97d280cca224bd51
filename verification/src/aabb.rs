//! Axis-aligned bounding boxes: enclosing constructor, containment and
//! overlap tests.

use vstd::prelude::*;
use crate::GeomError;
use crate::circle::Circle;
use crate::ratio::clamp_int;
use crate::ratio::lemma_mul_bound;
use crate::ratio::midpoint;
use crate::vec2::MAX_COORD;
use crate::vec2::Vec2;

verus! {

/// An axis-aligned bounding box, given by its componentwise minimal and
/// maximal corners.
#[derive(Clone, Copy, PartialEq, Eq, Structural, Debug)]
pub struct AABB {
    pub min: Vec2,
    pub max: Vec2,
}

impl AABB {
    /// The corners are ordered componentwise.
    pub open spec fn wf(self) -> bool {
        self.min.x <= self.max.x && self.min.y <= self.max.y
    }

    /// Strict (open-interval) containment: boundary points are outside.
    pub open spec fn contains_spec(self, p: Vec2) -> bool {
        self.min.x < p.x < self.max.x && self.min.y < p.y < self.max.y
    }

    /// Inclusive containment: boundary points count as inside.
    pub open spec fn contains_inclusive(self, p: Vec2) -> bool {
        self.min.x <= p.x <= self.max.x && self.min.y <= p.y <= self.max.y
    }

    /// Interval overlap on both axes; boxes that merely touch still overlap.
    pub open spec fn overlaps_aabb_spec(self, other: AABB) -> bool {
        !(self.max.x < other.min.x || self.max.y < other.min.y
            || self.min.x > other.max.x || self.min.y > other.max.y)
    }

    /// Overlap with a circle: the squared distance from the circle's center
    /// to its closest point on the box is at most the squared radius.
    pub open spec fn overlaps_circle_spec(self, circle: Circle) -> bool {
        let cx = clamp_int(circle.center.x as int, self.min.x as int, self.max.x as int);
        let cy = clamp_int(circle.center.y as int, self.min.y as int, self.max.y as int);
        (circle.center.x - cx) * (circle.center.x - cx)
            + (circle.center.y - cy) * (circle.center.y - cy)
            <= circle.radius * circle.radius
    }

    /// Builds the box spanned by two points, whatever their order.
    pub fn new(p1: Vec2, p2: Vec2) -> (r: AABB)
        ensures
            r.wf(),
            r.min.x == if p1.x <= p2.x { p1.x } else { p2.x },
            r.min.y == if p1.y <= p2.y { p1.y } else { p2.y },
            r.max.x == if p1.x <= p2.x { p2.x } else { p1.x },
            r.max.y == if p1.y <= p2.y { p2.y } else { p1.y },
            r.contains_inclusive(p1),
            r.contains_inclusive(p2),
    {
        let min_x = if p1.x <= p2.x { p1.x } else { p2.x };
        let min_y = if p1.y <= p2.y { p1.y } else { p2.y };
        let max_x = if p1.x <= p2.x { p2.x } else { p1.x };
        let max_y = if p1.y <= p2.y { p2.y } else { p1.y };
        AABB { min: Vec2 { x: min_x, y: min_y }, max: Vec2 { x: max_x, y: max_y } }
    }

    /// Builds the tightest box containing every given point, inclusively on
    /// its boundary. An empty point set is rejected.
    pub fn enclosing(points: &Vec<Vec2>) -> (r: Result<AABB, GeomError>)
        ensures
            points@.len() == 0 <==> r is Err,
            r is Err ==> r == Result::<AABB, GeomError>::Err(GeomError::InvalidInput),
            r matches Ok(b) ==> {
                &&& b.wf()
                &&& forall|i: int| 0 <= i < points@.len() ==> b.contains_inclusive(points@[i])
                &&& exists|i: int| 0 <= i < points@.len() && points@[i].x == b.min.x
                &&& exists|i: int| 0 <= i < points@.len() && points@[i].y == b.min.y
                &&& exists|i: int| 0 <= i < points@.len() && points@[i].x == b.max.x
                &&& exists|i: int| 0 <= i < points@.len() && points@[i].y == b.max.y
            },
    {
        if points.len() == 0 {
            return Err(GeomError::InvalidInput);
        }
        let first = points[0];
        let mut min_x = first.x;
        let mut min_y = first.y;
        let mut max_x = first.x;
        let mut max_y = first.y;
        let mut k: usize = 1;
        while k < points.len()
            invariant
                1 <= k <= points@.len(),
                min_x <= max_x,
                min_y <= max_y,
                forall|i: int| 0 <= i < k ==> min_x <= (#[trigger] points@[i]).x <= max_x
                    && min_y <= points@[i].y <= max_y,
                exists|i: int| 0 <= i < k && points@[i].x == min_x,
                exists|i: int| 0 <= i < k && points@[i].y == min_y,
                exists|i: int| 0 <= i < k && points@[i].x == max_x,
                exists|i: int| 0 <= i < k && points@[i].y == max_y,
            decreases points@.len() - k,
        {
            let p = points[k];
            if p.x < min_x {
                min_x = p.x;
            }
            if p.y < min_y {
                min_y = p.y;
            }
            if p.x > max_x {
                max_x = p.x;
            }
            if p.y > max_y {
                max_y = p.y;
            }
            k = k + 1;
        }
        Ok(AABB { min: Vec2 { x: min_x, y: min_y }, max: Vec2 { x: max_x, y: max_y } })
    }

    /// Width of the box.
    pub fn width(&self) -> (r: i64)
        requires
            self.wf(),
            self.max.x - self.min.x <= i64::MAX,
        ensures
            r == self.max.x - self.min.x,
    {
        self.max.x - self.min.x
    }

    /// Height of the box.
    pub fn height(&self) -> (r: i64)
        requires
            self.wf(),
            self.max.y - self.min.y <= i64::MAX,
        ensures
            r == self.max.y - self.min.y,
    {
        self.max.y - self.min.y
    }

    /// Inflates (or, with a negative amount, deflates) the box by the
    /// given amount on every side. The box may not turn inside out.
    pub fn grow(&mut self, amount: i64)
        requires
            old(self).wf(),
            old(self).min.in_bounds(),
            old(self).max.in_bounds(),
            -MAX_COORD <= amount <= MAX_COORD,
            old(self).min.x - amount <= old(self).max.x + amount,
            old(self).min.y - amount <= old(self).max.y + amount,
        ensures
            final(self).min.x == old(self).min.x - amount,
            final(self).min.y == old(self).min.y - amount,
            final(self).max.x == old(self).max.x + amount,
            final(self).max.y == old(self).max.y + amount,
            final(self).wf(),
    {
        self.min = Vec2 { x: self.min.x - amount, y: self.min.y - amount };
        self.max = Vec2 { x: self.max.x + amount, y: self.max.y + amount };
    }

    /// Moves the box so its rounded midpoint is the given point: both
    /// corners are translated by the same offset, so width and height are
    /// unchanged.
    pub fn set_center(&mut self, c: Vec2)
        requires
            old(self).wf(),
            old(self).min.in_bounds(),
            old(self).max.in_bounds(),
            c.in_bounds(),
        ensures
            ({
                let tx = c.x - (old(self).min.x + old(self).max.x) / 2;
                let ty = c.y - (old(self).min.y + old(self).max.y) / 2;
                &&& final(self).min.x == old(self).min.x + tx
                &&& final(self).min.y == old(self).min.y + ty
                &&& final(self).max.x == old(self).max.x + tx
                &&& final(self).max.y == old(self).max.y + ty
            }),
            (final(self).min.x + final(self).max.x) / 2 == c.x,
            (final(self).min.y + final(self).max.y) / 2 == c.y,
            final(self).wf(),
    {
        let mx = midpoint(self.min.x, self.max.x);
        let my = midpoint(self.min.y, self.max.y);
        let tx = c.x - mx;
        let ty = c.y - my;
        proof {
            vstd::arithmetic::div_mod::lemma_hoist_over_denominator(
                old(self).min.x + old(self).max.x, tx as int, 2);
            vstd::arithmetic::div_mod::lemma_hoist_over_denominator(
                old(self).min.y + old(self).max.y, ty as int, 2);
        }
        self.min = Vec2 { x: self.min.x + tx, y: self.min.y + ty };
        self.max = Vec2 { x: self.max.x + tx, y: self.max.y + ty };
    }

    /// Whether a point lies strictly inside the box.
    pub fn contains_point(&self, point: Vec2) -> (r: bool)
        ensures
            r == self.contains_spec(point),
    {
        point.x > self.min.x && point.x < self.max.x && point.y > self.min.y
            && point.y < self.max.y
    }

    /// Whether this box and another overlap (touching counts).
    pub fn overlaps_aabb(&self, other: AABB) -> (r: bool)
        ensures
            r == self.overlaps_aabb_spec(other),
    {
        !(self.max.x < other.min.x || self.max.y < other.min.y || self.min.x > other.max.x
            || self.min.y > other.max.y)
    }

    /// Whether this box and a circle overlap: the circle's center is clamped
    /// to the box and the squared distance compared to the squared radius.
    pub fn overlaps_circle(&self, circle: Circle) -> (r: bool)
        requires
            self.wf(),
            self.min.in_bounds(),
            self.max.in_bounds(),
            circle.center.in_bounds(),
            0 <= circle.radius <= MAX_COORD,
        ensures
            r == self.overlaps_circle_spec(circle),
    {
        let closest_x = if circle.center.x < self.min.x {
            self.min.x
        } else if circle.center.x > self.max.x {
            self.max.x
        } else {
            circle.center.x
        };
        let closest_y = if circle.center.y < self.min.y {
            self.min.y
        } else if circle.center.y > self.max.y {
            self.max.y
        } else {
            circle.center.y
        };
        let dx = circle.center.x as i128 - closest_x as i128;
        let dy = circle.center.y as i128 - closest_y as i128;
        proof {
            lemma_mul_bound(dx as int, dx as int, 200_000, 200_000);
            lemma_mul_bound(dy as int, dy as int, 200_000, 200_000);
            lemma_mul_bound(circle.radius as int, circle.radius as int, 100_000, 100_000);
        }
        dx * dx + dy * dy <= circle.radius as i128 * circle.radius as i128
    }
}

} // verus!
