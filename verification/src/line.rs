//! Line segments: degeneracy and parallelism tests, exact segment
//! intersection with parametric coordinates, and the proper-crossing test.

use vstd::prelude::*;
use crate::ratio::Ratio;
use crate::ratio::lemma_mul_bound;
use crate::vec2::MAX_COORD;
use crate::vec2::Vec2;
use crate::vec2::dist_sq_of;
use crate::vec2::isqrt;

verus! {

/// A line segment between two points; it may be degenerate (`p1 == p2`).
#[derive(Clone, Copy, PartialEq, Eq, Structural, Debug)]
pub struct Line {
    pub p1: Vec2,
    pub p2: Vec2,
}

/// An exact segment-segment intersection: the parameters of the crossing
/// point along each segment, the point itself, and the direction of the
/// second segment's normal.
#[derive(Clone, Copy, PartialEq, Eq, Structural, Debug)]
pub struct Intersection {
    /// Parameter of the crossing point along the first segment
    /// (`0` at `p1`, `1` at `p2`).
    pub t: Ratio,
    /// Parameter of the crossing point along the second segment.
    pub u: Ratio,
    /// The crossing point's horizontal coordinate.
    pub px: Ratio,
    /// The crossing point's vertical coordinate.
    pub py: Ratio,
    /// Direction of the second segment's normal (not normalized).
    pub normal: Vec2,
}

/// Cross product of the two segments' direction vectors: the denominator of
/// both intersection parameters. Zero exactly for parallel (or degenerate)
/// segments.
pub open spec fn den_of(a: Line, b: Line) -> int {
    (a.p2.x - a.p1.x) * (b.p2.y - b.p1.y) - (a.p2.y - a.p1.y) * (b.p2.x - b.p1.x)
}

/// Numerator of the intersection parameter along `a`.
pub open spec fn t_num_of(a: Line, b: Line) -> int {
    (b.p1.x - a.p1.x) * (b.p2.y - b.p1.y) - (b.p1.y - a.p1.y) * (b.p2.x - b.p1.x)
}

/// Numerator of the intersection parameter along `b`.
pub open spec fn u_num_of(a: Line, b: Line) -> int {
    (b.p1.x - a.p1.x) * (a.p2.y - a.p1.y) - (b.p1.y - a.p1.y) * (a.p2.x - a.p1.x)
}

/// The fraction `num / den` lies strictly between 0 and 1.
pub open spec fn strictly_within_unit(num: int, den: int) -> bool {
    if den > 0 {
        0 < num < den
    } else {
        den < num < 0
    }
}

/// The fraction `num / den` lies in the closed interval from 0 to 1.
pub open spec fn within_unit(num: int, den: int) -> bool {
    if den > 0 {
        0 <= num <= den
    } else {
        den <= num <= 0
    }
}

/// Orientation-sign test for a proper crossing of two segments: the
/// endpoints of each segment lie strictly on opposite sides of the other's
/// supporting line.
pub open spec fn intersects_spec(a: Line, b: Line) -> bool {
    let s1 = (a.p2.x - a.p1.x) * (b.p1.y - a.p1.y) - (a.p2.y - a.p1.y) * (b.p1.x - a.p1.x);
    let s2 = (a.p2.x - a.p1.x) * (b.p2.y - a.p1.y) - (a.p2.y - a.p1.y) * (b.p2.x - a.p1.x);
    let s3 = (b.p2.x - b.p1.x) * (a.p1.y - b.p1.y) - (b.p2.y - b.p1.y) * (a.p1.x - b.p1.x);
    let s4 = (b.p2.x - b.p1.x) * (a.p2.y - b.p1.y) - (b.p2.y - b.p1.y) * (a.p2.x - b.p1.x);
    s1 * s2 < 0 && s3 * s4 < 0
}

/// Cross product of two vectors given by raw coordinates.
fn cross_raw(ax: i128, ay: i128, bx: i128, by: i128) -> (r: i128)
    requires
        -2 * MAX_COORD <= ax <= 2 * MAX_COORD,
        -2 * MAX_COORD <= ay <= 2 * MAX_COORD,
        -2 * MAX_COORD <= bx <= 2 * MAX_COORD,
        -2 * MAX_COORD <= by <= 2 * MAX_COORD,
    ensures
        r == ax * by - ay * bx,
        -80_000_000_000 <= r <= 80_000_000_000,
{
    proof {
        lemma_mul_bound(ax as int, by as int, 200_000, 200_000);
        lemma_mul_bound(ay as int, bx as int, 200_000, 200_000);
    }
    ax * by - ay * bx
}

impl Line {
    /// Both endpoints within the kernel's coordinate bound.
    pub open spec fn in_bounds(self) -> bool {
        self.p1.in_bounds() && self.p2.in_bounds()
    }

    /// Builds a segment from its endpoints.
    pub fn new(p1: Vec2, p2: Vec2) -> (r: Line)
        ensures
            r.p1 == p1,
            r.p2 == p2,
    {
        Line { p1, p2 }
    }

    /// A vector normal to the segment (its direction rotated by -90
    /// degrees). The result is not normalized: callers that need a unit
    /// normal divide by its length themselves.
    pub fn normal(&self) -> (r: Vec2)
        requires
            self.in_bounds(),
        ensures
            r.x == self.p2.y - self.p1.y,
            r.y == -(self.p2.x - self.p1.x),
    {
        Vec2 { x: self.p2.y - self.p1.y, y: -(self.p2.x - self.p1.x) }
    }

    /// The segment's direction vector `p2 - p1` (not normalized).
    pub fn direction(&self) -> (r: Vec2)
        requires
            self.in_bounds(),
        ensures
            r.x == self.p2.x - self.p1.x,
            r.y == self.p2.y - self.p1.y,
    {
        Vec2 { x: self.p2.x - self.p1.x, y: self.p2.y - self.p1.y }
    }

    /// Squared length of the segment.
    pub fn length_squared(&self) -> (r: i64)
        requires
            self.in_bounds(),
        ensures
            r == dist_sq_of(self.p1, self.p2),
            r >= 0,
    {
        self.p1.distance_to_squared(self.p2)
    }

    /// Floor of the segment's length.
    pub fn length(&self) -> (r: i64)
        requires
            self.in_bounds(),
        ensures
            r >= 0,
            r * r <= dist_sq_of(self.p1, self.p2) < (r + 1) * (r + 1),
    {
        let ls = self.length_squared();
        isqrt(ls as u64) as i64
    }

    /// Whether the segment is degenerate: its endpoints coincide.
    pub fn is_degenerate(&self) -> (r: bool)
        requires
            self.in_bounds(),
        ensures
            r == (dist_sq_of(self.p1, self.p2) == 0),
            r == (self.p1 == self.p2),
    {
        proof {
            let dx = self.p1.x - self.p2.x;
            let dy = self.p1.y - self.p2.y;
            assert(dx * dx + dy * dy == 0 <==> dx == 0 && dy == 0) by (nonlinear_arith);
        }
        self.length_squared() == 0
    }

    /// Whether the two segments are parallel: the cross product of their
    /// directions is zero. Degenerate segments are parallel to everything.
    pub fn is_parallel_with(&self, other: Line) -> (r: bool)
        requires
            self.in_bounds(),
            other.in_bounds(),
        ensures
            r == (den_of(*self, other) == 0),
    {
        let c = cross_raw(
            self.p2.x as i128 - self.p1.x as i128,
            self.p2.y as i128 - self.p1.y as i128,
            other.p2.x as i128 - other.p1.x as i128,
            other.p2.y as i128 - other.p1.y as i128,
        );
        c == 0
    }

    /// Whether the two segments properly cross: each one's endpoints lie
    /// strictly on opposite sides of the other. Touching at an endpoint or
    /// mere overlap of collinear segments does not count.
    pub fn intersects(&self, other: Line) -> (r: bool)
        requires
            self.in_bounds(),
            other.in_bounds(),
        ensures
            r == intersects_spec(*self, other),
    {
        let abx = self.p2.x as i128 - self.p1.x as i128;
        let aby = self.p2.y as i128 - self.p1.y as i128;
        let s1 = cross_raw(abx, aby, other.p1.x as i128 - self.p1.x as i128,
            other.p1.y as i128 - self.p1.y as i128);
        let s2 = cross_raw(abx, aby, other.p2.x as i128 - self.p1.x as i128,
            other.p2.y as i128 - self.p1.y as i128);
        proof {
            lemma_mul_bound(s1 as int, s2 as int, 80_000_000_000, 80_000_000_000);
        }
        // With both endpoints of `other` on one side of this segment (or on
        // its line), there is no proper crossing.
        if s1 * s2 >= 0 {
            return false;
        }
        let cdx = other.p2.x as i128 - other.p1.x as i128;
        let cdy = other.p2.y as i128 - other.p1.y as i128;
        let s3 = cross_raw(cdx, cdy, self.p1.x as i128 - other.p1.x as i128,
            self.p1.y as i128 - other.p1.y as i128);
        let s4 = cross_raw(cdx, cdy, self.p2.x as i128 - other.p1.x as i128,
            self.p2.y as i128 - other.p1.y as i128);
        proof {
            lemma_mul_bound(s3 as int, s4 as int, 80_000_000_000, 80_000_000_000);
        }
        s3 * s4 < 0
    }

    /// The exact intersection of the two segments' supporting lines, with
    /// the parameter of the crossing point along each segment. Parallel
    /// (including collinear and degenerate) segments have none. The
    /// parameters are not clamped: callers needing segment-bounded behaviour
    /// must check them against `[0, 1]` themselves.
    pub fn intersection(&self, other: Line) -> (r: Option<Intersection>)
        requires
            self.in_bounds(),
            other.in_bounds(),
        ensures
            r is None <==> den_of(*self, other) == 0,
            r matches Some(x) ==> {
                &&& x.t.wf()
                &&& x.u.wf()
                &&& x.px.wf()
                &&& x.py.wf()
                &&& x.t.is(t_num_of(*self, other), den_of(*self, other))
                &&& x.u.is(u_num_of(*self, other), den_of(*self, other))
                &&& x.px.is(
                    self.p1.x * den_of(*self, other)
                        + (self.p2.x - self.p1.x) * t_num_of(*self, other),
                    den_of(*self, other),
                )
                &&& x.py.is(
                    self.p1.y * den_of(*self, other)
                        + (self.p2.y - self.p1.y) * t_num_of(*self, other),
                    den_of(*self, other),
                )
                &&& x.normal.x == other.p2.y - other.p1.y
                &&& x.normal.y == -(other.p2.x - other.p1.x)
            },
    {
        let rx = self.p2.x as i128 - self.p1.x as i128;
        let ry = self.p2.y as i128 - self.p1.y as i128;
        let sx = other.p2.x as i128 - other.p1.x as i128;
        let sy = other.p2.y as i128 - other.p1.y as i128;
        let den = cross_raw(rx, ry, sx, sy);
        if den == 0 {
            return None;
        }
        let qpx = other.p1.x as i128 - self.p1.x as i128;
        let qpy = other.p1.y as i128 - self.p1.y as i128;
        let t_num = cross_raw(qpx, qpy, sx, sy);
        let u_num = cross_raw(qpx, qpy, rx, ry);
        let t = Ratio::new(t_num, den);
        let u = Ratio::new(u_num, den);
        proof {
            lemma_mul_bound(self.p1.x as int, den as int, 100_000, 80_000_000_000);
            lemma_mul_bound(self.p1.y as int, den as int, 100_000, 80_000_000_000);
            lemma_mul_bound(rx as int, t_num as int, 200_000, 80_000_000_000);
            lemma_mul_bound(ry as int, t_num as int, 200_000, 80_000_000_000);
        }
        let px = Ratio::new(self.p1.x as i128 * den + rx * t_num, den);
        let py = Ratio::new(self.p1.y as i128 * den + ry * t_num, den);
        let normal = other.normal();
        Some(Intersection { t, u, px, py, normal })
    }
}

/// Two segments properly cross exactly when their supporting lines are not
/// parallel and both intersection parameters lie strictly inside the unit
/// interval: a touch at an endpoint (a parameter of exactly 0 or 1) is
/// excluded by the sign test.
pub proof fn lemma_intersects_iff_interior(a: Line, b: Line)
    ensures
        intersects_spec(a, b) <==> {
            &&& den_of(a, b) != 0
            &&& strictly_within_unit(t_num_of(a, b), den_of(a, b))
            &&& strictly_within_unit(u_num_of(a, b), den_of(a, b))
        },
{
    let rx = a.p2.x - a.p1.x;
    let ry = a.p2.y - a.p1.y;
    let sx = b.p2.x - b.p1.x;
    let sy = b.p2.y - b.p1.y;
    let acx = b.p1.x - a.p1.x;
    let acy = b.p1.y - a.p1.y;
    let den = den_of(a, b);
    let tn = t_num_of(a, b);
    let un = u_num_of(a, b);
    let s1 = rx * acy - ry * acx;
    let s2 = rx * (b.p2.y - a.p1.y) - ry * (b.p2.x - a.p1.x);
    let s3 = sx * (a.p1.y - b.p1.y) - sy * (a.p1.x - b.p1.x);
    let s4 = sx * (a.p2.y - b.p1.y) - sy * (a.p2.x - b.p1.x);
    // Algebraic identities tying the four orientation signs to the
    // intersection numerators and denominator.
    assert(s1 == -un && s2 == den - un && s3 == tn && s4 == tn - den)
        by (nonlinear_arith)
        requires
            rx == a.p2.x - a.p1.x,
            ry == a.p2.y - a.p1.y,
            sx == b.p2.x - b.p1.x,
            sy == b.p2.y - b.p1.y,
            acx == b.p1.x - a.p1.x,
            acy == b.p1.y - a.p1.y,
            den == rx * sy - ry * sx,
            tn == acx * sy - acy * sx,
            un == acx * ry - acy * rx,
            s1 == rx * acy - ry * acx,
            s2 == rx * (acy + sy) - ry * (acx + sx),
            s3 == sx * (-acy) - sy * (-acx),
            s4 == sx * (ry - acy) - sy * (rx - acx);
    assert((s1 * s2 < 0 && s3 * s4 < 0) <==> (den != 0
        && strictly_within_unit(tn, den) && strictly_within_unit(un, den)))
        by (nonlinear_arith)
        requires
            s1 == -un,
            s2 == den - un,
            s3 == tn,
            s4 == tn - den,
            strictly_within_unit(tn, den) == (if den > 0 { 0 < tn < den } else { den < tn < 0 }),
            strictly_within_unit(un, den) == (if den > 0 { 0 < un < den } else { den < un < 0 });
}

} // verus!
