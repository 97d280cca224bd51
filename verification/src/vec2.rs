//! Integer 2D vector algebra: arithmetic, dot and cross products, squared
//! and floored lengths.

use vstd::prelude::*;
use vstd::math::abs;
use crate::ratio::Ratio;
use crate::ratio::lemma_mul_bound;
use crate::ratio::max2;

verus! {

/// Largest coordinate magnitude the kernel accepts. Keeping every
/// coordinate within this bound lets every product chain in the crate
/// (up to the particle reflection step) stay inside machine integers.
pub const MAX_COORD: i64 = 100_000;

/// A point or direction on the integer grid.
#[derive(Clone, Copy, PartialEq, Eq, Structural, Debug)]
pub struct Vec2 {
    pub x: i64,
    pub y: i64,
}

/// Scalar (dot) product of two vectors.
pub open spec fn dot_of(a: Vec2, b: Vec2) -> int {
    a.x * b.x + a.y * b.y
}

/// Scalar z-component of the cross product of two vectors.
pub open spec fn cross_of(a: Vec2, b: Vec2) -> int {
    a.x * b.y - a.y * b.x
}

/// Squared Euclidean distance between two points.
pub open spec fn dist_sq_of(a: Vec2, b: Vec2) -> int {
    (a.x - b.x) * (a.x - b.x) + (a.y - b.y) * (a.y - b.y)
}

impl Vec2 {
    /// Both coordinates within [`MAX_COORD`] in magnitude.
    pub open spec fn in_bounds(self) -> bool {
        -MAX_COORD <= self.x <= MAX_COORD && -MAX_COORD <= self.y <= MAX_COORD
    }

    /// Builds a vector from its coordinates.
    pub fn new(x: i64, y: i64) -> (r: Vec2)
        ensures
            r.x == x,
            r.y == y,
    {
        Vec2 { x, y }
    }

    /// Componentwise vector sum.
    pub fn add(self, rhs: Vec2) -> (r: Vec2)
        requires
            i64::MIN <= self.x + rhs.x <= i64::MAX,
            i64::MIN <= self.y + rhs.y <= i64::MAX,
        ensures
            r.x == self.x + rhs.x,
            r.y == self.y + rhs.y,
    {
        Vec2 { x: self.x + rhs.x, y: self.y + rhs.y }
    }

    /// Componentwise vector difference.
    pub fn sub(self, rhs: Vec2) -> (r: Vec2)
        requires
            i64::MIN <= self.x - rhs.x <= i64::MAX,
            i64::MIN <= self.y - rhs.y <= i64::MAX,
        ensures
            r.x == self.x - rhs.x,
            r.y == self.y - rhs.y,
    {
        Vec2 { x: self.x - rhs.x, y: self.y - rhs.y }
    }

    /// Negation of the vector.
    pub fn neg(self) -> (r: Vec2)
        requires
            self.x > i64::MIN,
            self.y > i64::MIN,
        ensures
            r.x == -self.x,
            r.y == -self.y,
    {
        Vec2 { x: -self.x, y: -self.y }
    }

    /// Multiplication by an integer scalar.
    pub fn scale(self, k: i64) -> (r: Vec2)
        requires
            i64::MIN <= self.x * k <= i64::MAX,
            i64::MIN <= self.y * k <= i64::MAX,
        ensures
            r.x == self.x * k,
            r.y == self.y * k,
    {
        Vec2 { x: self.x * k, y: self.y * k }
    }

    /// The vector rotated by +90 degrees: `(x, y)` becomes `(-y, x)`.
    pub fn perp(self) -> (r: Vec2)
        requires
            self.y > i64::MIN,
        ensures
            r.x == -self.y,
            r.y == self.x,
    {
        Vec2 { x: -self.y, y: self.x }
    }

    /// Scalar (dot) product.
    pub fn dot(self, rhs: Vec2) -> (r: i64)
        requires
            self.in_bounds(),
            rhs.in_bounds(),
        ensures
            r == dot_of(self, rhs),
            -20_000_000_000 <= r <= 20_000_000_000,
    {
        proof {
            lemma_mul_bound(self.x as int, rhs.x as int, 100_000, 100_000);
            lemma_mul_bound(self.y as int, rhs.y as int, 100_000, 100_000);
        }
        (self.x as i128 * rhs.x as i128 + self.y as i128 * rhs.y as i128) as i64
    }

    /// Scalar z-component of the cross product.
    pub fn cross(self, rhs: Vec2) -> (r: i64)
        requires
            self.in_bounds(),
            rhs.in_bounds(),
        ensures
            r == cross_of(self, rhs),
            -20_000_000_000 <= r <= 20_000_000_000,
    {
        proof {
            lemma_mul_bound(self.x as int, rhs.y as int, 100_000, 100_000);
            lemma_mul_bound(self.y as int, rhs.x as int, 100_000, 100_000);
        }
        (self.x as i128 * rhs.y as i128 - self.y as i128 * rhs.x as i128) as i64
    }

    /// Squared Euclidean length.
    pub fn length_squared(self) -> (r: i64)
        requires
            self.in_bounds(),
        ensures
            r == dot_of(self, self),
            0 <= r <= 20_000_000_000,
    {
        proof {
            lemma_mul_bound(self.x as int, self.x as int, 100_000, 100_000);
            lemma_mul_bound(self.y as int, self.y as int, 100_000, 100_000);
            assert(self.x * self.x >= 0) by (nonlinear_arith);
            assert(self.y * self.y >= 0) by (nonlinear_arith);
        }
        (self.x as i128 * self.x as i128 + self.y as i128 * self.y as i128) as i64
    }

    /// Squared Euclidean distance to another point.
    pub fn distance_to_squared(self, other: Vec2) -> (r: i64)
        requires
            self.in_bounds(),
            other.in_bounds(),
        ensures
            r == dist_sq_of(self, other),
            0 <= r <= 80_000_000_000,
    {
        let dx = self.x as i128 - other.x as i128;
        let dy = self.y as i128 - other.y as i128;
        proof {
            lemma_mul_bound(dx as int, dx as int, 200_000, 200_000);
            lemma_mul_bound(dy as int, dy as int, 200_000, 200_000);
            assert(dx * dx >= 0) by (nonlinear_arith);
            assert(dy * dy >= 0) by (nonlinear_arith);
        }
        (dx * dx + dy * dy) as i64
    }

    /// Floor of the Euclidean length: the largest integer whose square
    /// does not exceed the squared length.
    pub fn length(self) -> (r: i64)
        requires
            self.in_bounds(),
        ensures
            r >= 0,
            r * r <= dot_of(self, self) < (r + 1) * (r + 1),
    {
        let ls = self.length_squared();
        isqrt(ls as u64) as i64
    }

    /// Floor of the Euclidean distance to another point.
    pub fn distance_to(self, other: Vec2) -> (r: i64)
        requires
            self.in_bounds(),
            other.in_bounds(),
        ensures
            r >= 0,
            r * r <= dist_sq_of(self, other) < (r + 1) * (r + 1),
    {
        let ds = self.distance_to_squared(other);
        isqrt(ds as u64) as i64
    }

    /// The exact reflection of this vector off a surface with (unnormalized)
    /// normal direction `n`: the components of `v - 2 (v·n) n / (n·n)` as
    /// rationals over the denominator `n·n`.
    pub fn bounce(self, n: Vec2) -> (r: (Ratio, Ratio))
        requires
            self.in_bounds(),
            n.in_bounds(),
            !(n.x == 0 && n.y == 0),
        ensures
            r.0.wf(),
            r.1.wf(),
            r.0.is(self.x * dot_of(n, n) - 2 * dot_of(self, n) * n.x, dot_of(n, n)),
            r.1.is(self.y * dot_of(n, n) - 2 * dot_of(self, n) * n.y, dot_of(n, n)),
    {
        let nn = n.dot(n) as i128;
        let vdn = self.dot(n) as i128;
        proof {
            assert(nn > 0) by (nonlinear_arith)
                requires
                    nn == n.x * n.x + n.y * n.y,
                    !(n.x == 0 && n.y == 0);
            lemma_mul_bound(self.x as int, nn as int, 100_000, 20_000_000_000);
            lemma_mul_bound(self.y as int, nn as int, 100_000, 20_000_000_000);
            lemma_mul_bound(2 * vdn as int, n.x as int, 40_000_000_000, 100_000);
            lemma_mul_bound(2 * vdn as int, n.y as int, 40_000_000_000, 100_000);
        }
        let rx = self.x as i128 * nn - 2 * vdn * n.x as i128;
        let ry = self.y as i128 * nn - 2 * vdn * n.y as i128;
        proof {
            assert(2 * vdn * (n.x as i128) == 2 * (vdn * (n.x as i128))) by (nonlinear_arith);
            assert(2 * vdn * (n.y as i128) == 2 * (vdn * (n.y as i128))) by (nonlinear_arith);
        }
        (Ratio { num: rx, den: nn }, Ratio { num: ry, den: nn })
    }

    /// Whether the vector has length exactly one. On the integer grid this
    /// holds only for the four axis unit vectors.
    pub fn is_normalized(self) -> (r: bool)
        requires
            self.in_bounds(),
        ensures
            r == (dot_of(self, self) == 1),
    {
        self.length_squared() == 1
    }
}

/// Denominator of the square pseudoangle: the larger absolute coordinate.
pub open spec fn pseudoangle_den_of(v: Vec2) -> int {
    max2(abs(v.x as int) as int, abs(v.y as int) as int)
}

/// Numerator of the square pseudoangle over `pseudoangle_den_of`. The
/// value walks the perimeter of the unit square: 0 at the positive
/// horizontal axis, 2, 4 and 6 at the other three axes, one unit per
/// octant, with the fractional part the ratio of the smaller to the
/// larger absolute coordinate.
pub open spec fn pseudoangle_num_of(v: Vec2) -> int {
    let ax = abs(v.x as int) as int;
    let ay = abs(v.y as int) as int;
    if v.x >= 0 && v.y >= 0 {
        if ax >= ay {
            ay
        } else {
            2 * ay - ax
        }
    } else if v.x < 0 && v.y >= 0 {
        if ay >= ax {
            2 * ay + ax
        } else {
            4 * ax - ay
        }
    } else if v.x < 0 && v.y < 0 {
        if ax >= ay {
            4 * ax + ay
        } else {
            6 * ay - ax
        }
    } else {
        if ay >= ax {
            6 * ay + ax
        } else {
            8 * ax - ay
        }
    }
}

/// Numerator of the wrapped pseudoangle difference from `a` to `b`, over
/// the denominator `pseudoangle_den_of(a) * pseudoangle_den_of(b)`.
pub open spec fn pseudoangle_between_num_of(a: Vec2, b: Vec2) -> int {
    let d = pseudoangle_num_of(b) * pseudoangle_den_of(a) - pseudoangle_num_of(a)
        * pseudoangle_den_of(b);
    if d >= 0 {
        d
    } else {
        d + 8 * (pseudoangle_den_of(a) * pseudoangle_den_of(b))
    }
}

impl Vec2 {
    /// The square pseudoangle of a nonzero vector: a trigonometry-free,
    /// exact proxy for its direction angle that preserves angular
    /// ordering. The range is `[0, 8)`, with the exact values 0, 2, 4
    /// and 6 on the positive and negative axes.
    pub fn square_pseudoangle(self) -> (r: Ratio)
        requires
            self.in_bounds(),
            !(self.x == 0 && self.y == 0),
        ensures
            r.wf(),
            r.num == pseudoangle_num_of(self),
            r.den == pseudoangle_den_of(self),
            0 <= r.num < 8 * r.den,
    {
        let ax: i64 = if self.x >= 0 { self.x } else { -self.x };
        let ay: i64 = if self.y >= 0 { self.y } else { -self.y };
        let den: i64 = if ax >= ay { ax } else { ay };
        let num: i64 = if self.x >= 0 && self.y >= 0 {
            if ax >= ay { ay } else { 2 * ay - ax }
        } else if self.x < 0 && self.y >= 0 {
            if ay >= ax { 2 * ay + ax } else { 4 * ax - ay }
        } else if self.x < 0 && self.y < 0 {
            if ax >= ay { 4 * ax + ay } else { 6 * ay - ax }
        } else {
            if ay >= ax { 6 * ay + ax } else { 8 * ax - ay }
        };
        Ratio { num: num as i128, den: den as i128 }
    }

    /// The wrapped pseudoangle from `self` to `other`: the difference of
    /// their square pseudoangles, brought back into `[0, 8)`.
    pub fn square_pseudoangle_between(self, other: Vec2) -> (r: Ratio)
        requires
            self.in_bounds(),
            other.in_bounds(),
            !(self.x == 0 && self.y == 0),
            !(other.x == 0 && other.y == 0),
        ensures
            r.wf(),
            r.num == pseudoangle_between_num_of(self, other),
            r.den == pseudoangle_den_of(self) * pseudoangle_den_of(other),
            0 <= r.num < 8 * r.den,
    {
        let pa = self.square_pseudoangle();
        let pb = other.square_pseudoangle();
        proof {
            lemma_mul_bound(pb.num as int, pa.den as int, 800_000, 100_000);
            lemma_mul_bound(pa.num as int, pb.den as int, 800_000, 100_000);
            lemma_mul_bound(pa.den as int, pb.den as int, 100_000, 100_000);
        }
        let den = pa.den * pb.den;
        let d = pb.num * pa.den - pa.num * pb.den;
        proof {
            assert(0 <= (if d as int >= 0 { d as int } else { d + 8 * (pa.den * pb.den) })
                < 8 * (pa.den * pb.den)) by (nonlinear_arith)
                requires
                    d == pb.num * pa.den - pa.num * pb.den,
                    0 <= pa.num < 8 * pa.den,
                    0 <= pb.num < 8 * pb.den,
                    pa.den > 0,
                    pb.den > 0;
        }
        if d >= 0 {
            Ratio { num: d, den }
        } else {
            Ratio { num: d + 8 * den, den }
        }
    }
}

/// The square pseudoangle depends only on a vector's direction: scaling
/// a nonzero vector by any positive factor leaves its value unchanged
/// (compared as exact fractions), which is what lets it stand in for the
/// true angle wherever only angular ordering matters.
pub proof fn lemma_pseudoangle_scale_invariant(v: Vec2, w: Vec2, k: int)
    requires
        !(v.x == 0 && v.y == 0),
        k > 0,
        w.x == k * v.x,
        w.y == k * v.y,
    ensures
        pseudoangle_num_of(w) * pseudoangle_den_of(v) == pseudoangle_num_of(v)
            * pseudoangle_den_of(w),
{
    let axv = abs(v.x as int) as int;
    let ayv = abs(v.y as int) as int;
    let axw = abs(w.x as int) as int;
    let ayw = abs(w.y as int) as int;
    assert(axw == k * axv && (w.x >= 0 <==> v.x >= 0)) by (nonlinear_arith)
        requires
            k > 0,
            w.x == k * v.x,
            axv == (if v.x as int >= 0 { v.x as int } else { -(v.x as int) }),
            axw == (if w.x as int >= 0 { w.x as int } else { -(w.x as int) });
    assert(ayw == k * ayv && (w.y >= 0 <==> v.y >= 0)) by (nonlinear_arith)
        requires
            k > 0,
            w.y == k * v.y,
            ayv == (if v.y as int >= 0 { v.y as int } else { -(v.y as int) }),
            ayw == (if w.y as int >= 0 { w.y as int } else { -(w.y as int) });
    assert((axw >= ayw <==> axv >= ayv) && (ayw >= axw <==> ayv >= axv)) by (nonlinear_arith)
        requires
            k > 0,
            axw == k * axv,
            ayw == k * ayv;
    assert(pseudoangle_num_of(w) == k * pseudoangle_num_of(v)) by (nonlinear_arith)
        requires
            axw == k * axv,
            ayw == k * ayv,
            pseudoangle_num_of(w) == (if w.x >= 0 && w.y >= 0 {
                if axw >= ayw { ayw } else { 2 * ayw - axw }
            } else if w.x < 0 && w.y >= 0 {
                if ayw >= axw { 2 * ayw + axw } else { 4 * axw - ayw }
            } else if w.x < 0 && w.y < 0 {
                if axw >= ayw { 4 * axw + ayw } else { 6 * ayw - axw }
            } else {
                if ayw >= axw { 6 * ayw + axw } else { 8 * axw - ayw }
            }),
            pseudoangle_num_of(v) == (if v.x >= 0 && v.y >= 0 {
                if axv >= ayv { ayv } else { 2 * ayv - axv }
            } else if v.x < 0 && v.y >= 0 {
                if ayv >= axv { 2 * ayv + axv } else { 4 * axv - ayv }
            } else if v.x < 0 && v.y < 0 {
                if axv >= ayv { 4 * axv + ayv } else { 6 * ayv - axv }
            } else {
                if ayv >= axv { 6 * ayv + axv } else { 8 * axv - ayv }
            }),
            (w.x >= 0 <==> v.x >= 0),
            (w.y >= 0 <==> v.y >= 0),
            (axw >= ayw <==> axv >= ayv),
            (ayw >= axw <==> ayv >= axv);
    assert(pseudoangle_den_of(w) == k * pseudoangle_den_of(v));
    assert((k * pseudoangle_num_of(v)) * pseudoangle_den_of(v) == pseudoangle_num_of(v) * (k
        * pseudoangle_den_of(v))) by (nonlinear_arith);
}

/// Squared distance is symmetric in its arguments.
pub proof fn lemma_dist_sq_symmetric(a: Vec2, b: Vec2)
    ensures
        dist_sq_of(a, b) == dist_sq_of(b, a),
{
    assert((a.x - b.x) * (a.x - b.x) == (b.x - a.x) * (b.x - a.x)) by (nonlinear_arith);
    assert((a.y - b.y) * (a.y - b.y) == (b.y - a.y) * (b.y - a.y)) by (nonlinear_arith);
}

/// Integer square root: the floor of the square root of `n`.
pub fn isqrt(n: u64) -> (r: u64)
    ensures
        r * r <= n < (r + 1) * (r + 1),
        r <= 0xffff_ffff,
{
    let mut lo: u64 = 0;
    let mut hi: u64 = 0xffff_ffff;
    proof {
        assert((0xffff_ffffu64 + 1) * (0xffff_ffffu64 + 1) > u64::MAX as int) by (nonlinear_arith);
    }
    while lo < hi
        invariant
            lo <= hi <= 0xffff_ffff,
            lo * lo <= n,
            n < (hi + 1) * (hi + 1),
        decreases hi - lo,
    {
        let mid = lo + (hi - lo + 1) / 2;
        proof {
            assert(lo < mid <= hi);
            assert(mid * mid <= 0xffff_ffffu64 * 0xffff_ffffu64) by (nonlinear_arith)
                requires mid <= 0xffff_ffffu64;
        }
        if mid * mid <= n {
            lo = mid;
        } else {
            hi = mid - 1;
        }
    }
    lo
}

} // verus!
