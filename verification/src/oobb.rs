//! Oriented bounding boxes: a box given by a direction vector and its
//! projection ranges along that direction and its perpendicular, the
//! separating-axis overlap test for box pairs, and a brute-force
//! minimum-area fitter over a family of candidate directions.

use vstd::prelude::*;
use crate::GeomError;
use crate::aabb::AABB;
use crate::circle::Circle;
use crate::circle::is_bounding_box;
use crate::ratio::Ratio;
use crate::ratio::clamp_int;
use crate::ratio::lemma_mul_bound;
use crate::ratio::max2;
use crate::ratio::min2;
use crate::vec2::MAX_COORD;
use crate::vec2::Vec2;
use crate::vec2::dot_of;

verus! {

/// Largest magnitude of a stored projection value: the projection of an
/// in-bounds point onto an in-bounds direction never exceeds it.
pub const PROJ_LIMIT: i64 = 20_000_000_000;

/// An oriented bounding box. `axis` is the direction of the box's own
/// u-axis (an integer vector, not normalized); the box is the set of
/// points whose projection onto `axis` lies in `[lo_u, hi_u]` and whose
/// projection onto the perpendicular of `axis` lies in `[lo_v, hi_v]`
/// (both ranges measured in axis-scaled units, that is multiplied by the
/// length of `axis`).
#[derive(Clone, Copy, PartialEq, Eq, Structural, Debug)]
pub struct OOBB {
    pub axis: Vec2,
    pub lo_u: i64,
    pub hi_u: i64,
    pub lo_v: i64,
    pub hi_v: i64,
}

/// The perpendicular of a direction: `(x, y)` rotated by +90 degrees.
pub open spec fn perp_of(v: Vec2) -> Vec2 {
    Vec2 { x: (-(v.y as int)) as i64, y: v.x }
}

/// Squared length of the box's axis.
pub open spec fn norm_sq_of(o: OOBB) -> int {
    o.axis.x * o.axis.x + o.axis.y * o.axis.y
}

/// Numerator of the box's area over the denominator `norm_sq_of`.
pub open spec fn area_num_of(o: OOBB) -> int {
    (o.hi_u - o.lo_u) * (o.hi_v - o.lo_v)
}

/// `a` has strictly smaller area than `b` (cross-multiplied form).
pub open spec fn area_lt_of(a: OOBB, b: OOBB) -> bool {
    area_num_of(a) * norm_sq_of(b) < area_num_of(b) * norm_sq_of(a)
}

/// `a` has area at most that of `b` (cross-multiplied form).
pub open spec fn area_le_of(a: OOBB, b: OOBB) -> bool {
    area_num_of(a) * norm_sq_of(b) <= area_num_of(b) * norm_sq_of(a)
}

/// Smallest projection of the points of `s` onto direction `a`.
pub open spec fn proj_min(s: Seq<Vec2>, a: Vec2) -> int
    decreases s.len(),
{
    if s.len() <= 1 {
        dot_of(s[0], a)
    } else {
        min2(proj_min(s.drop_last(), a), dot_of(s[s.len() - 1], a))
    }
}

/// Largest projection of the points of `s` onto direction `a`.
pub open spec fn proj_max(s: Seq<Vec2>, a: Vec2) -> int
    decreases s.len(),
{
    if s.len() <= 1 {
        dot_of(s[0], a)
    } else {
        max2(proj_max(s.drop_last(), a), dot_of(s[s.len() - 1], a))
    }
}

/// The candidate box for direction `axis`: the projection ranges of the
/// point set along `axis` and its perpendicular.
pub open spec fn candidate_of(s: Seq<Vec2>, axis: Vec2) -> OOBB {
    OOBB {
        axis,
        lo_u: proj_min(s, axis) as i64,
        hi_u: proj_max(s, axis) as i64,
        lo_v: proj_min(s, perp_of(axis)) as i64,
        hi_v: proj_max(s, perp_of(axis)) as i64,
    }
}

/// `o` is the outcome of the minimum-area sweep of `s` over the direction
/// family `axes`: it is the candidate of some direction, no candidate has
/// smaller area, and every earlier direction's candidate is strictly worse
/// (the lowest index wins exact area ties).
pub open spec fn fitter_result(o: OOBB, s: Seq<Vec2>, axes: Seq<Vec2>) -> bool {
    &&& exists|j: int|
        0 <= j < axes.len() && o == candidate_of(s, axes[j]) && (forall|k: int|
            0 <= k < j ==> area_lt_of(o, #[trigger] candidate_of(s, axes[k])))
    &&& forall|k: int|
        0 <= k < axes.len() ==> area_le_of(o, #[trigger] candidate_of(s, axes[k]))
}

/// Numerator of the smallest projection of box `o` onto direction `a`,
/// over the denominator `norm_sq_of(o)`.
pub open spec fn box_proj_lo_num(o: OOBB, a: Vec2) -> int {
    let al = dot_of(a, o.axis);
    let be = dot_of(a, perp_of(o.axis));
    min2(al * o.lo_u, al * o.hi_u) + min2(be * o.lo_v, be * o.hi_v)
}

/// Numerator of the largest projection of box `o` onto direction `a`.
pub open spec fn box_proj_hi_num(o: OOBB, a: Vec2) -> int {
    let al = dot_of(a, o.axis);
    let be = dot_of(a, perp_of(o.axis));
    max2(al * o.lo_u, al * o.hi_u) + max2(be * o.lo_v, be * o.hi_v)
}

/// The projections of the two boxes onto `axis` are disjoint intervals:
/// `axis` separates them.
pub open spec fn separated_on(a: OOBB, b: OOBB, axis: Vec2) -> bool {
    ||| box_proj_hi_num(a, axis) * norm_sq_of(b) < box_proj_lo_num(b, axis) * norm_sq_of(a)
    ||| box_proj_hi_num(b, axis) * norm_sq_of(a) < box_proj_lo_num(a, axis) * norm_sq_of(b)
}

/// Separating-axis collision for two boxes: none of the four candidate
/// axes (each box's own axis and its perpendicular) separates them.
pub open spec fn sat_collides_spec(a: OOBB, b: OOBB) -> bool {
    &&& !separated_on(a, b, a.axis)
    &&& !separated_on(a, b, perp_of(a.axis))
    &&& !separated_on(a, b, b.axis)
    &&& !separated_on(a, b, perp_of(b.axis))
}

impl OOBB {
    /// A valid box: a nonzero in-bounds axis and ordered projection ranges
    /// within the projection limit.
    pub open spec fn wf(self) -> bool {
        &&& self.axis.in_bounds()
        &&& !(self.axis.x == 0 && self.axis.y == 0)
        &&& self.lo_u <= self.hi_u
        &&& self.lo_v <= self.hi_v
        &&& -PROJ_LIMIT <= self.lo_u && self.hi_u <= PROJ_LIMIT
        &&& -PROJ_LIMIT <= self.lo_v && self.hi_v <= PROJ_LIMIT
    }

    /// Whether a point lies strictly inside the box: its projections onto
    /// the box's axis and perpendicular lie strictly within both ranges.
    pub open spec fn contains_spec(self, p: Vec2) -> bool {
        &&& self.lo_u < dot_of(p, self.axis) < self.hi_u
        &&& self.lo_v < dot_of(p, perp_of(self.axis)) < self.hi_v
    }

    /// Overlap with a circle: the circle's center, carried to the box's
    /// axis-scaled frame, is clamped to the box, and the scaled squared
    /// distance compared against the scaled squared radius.
    pub open spec fn overlaps_circle_spec(self, circle: Circle) -> bool {
        let du = dot_of(circle.center, self.axis);
        let dv = dot_of(circle.center, perp_of(self.axis));
        let cu = clamp_int(du, self.lo_u as int, self.hi_u as int);
        let cv = clamp_int(dv, self.lo_v as int, self.hi_v as int);
        (du - cu) * (du - cu) + (dv - cv) * (dv - cv)
            <= circle.radius * circle.radius * norm_sq_of(self)
    }

    /// Builds a box directly from its direction and projection ranges.
    pub fn new(axis: Vec2, lo_u: i64, hi_u: i64, lo_v: i64, hi_v: i64) -> (r: OOBB)
        requires
            axis.in_bounds(),
            !(axis.x == 0 && axis.y == 0),
            lo_u <= hi_u,
            lo_v <= hi_v,
            -PROJ_LIMIT <= lo_u && hi_u <= PROJ_LIMIT,
            -PROJ_LIMIT <= lo_v && hi_v <= PROJ_LIMIT,
        ensures
            r == (OOBB { axis, lo_u, hi_u, lo_v, hi_v }),
            r.wf(),
    {
        OOBB { axis, lo_u, hi_u, lo_v, hi_v }
    }

    /// The box's area as an exact rational (projection range product over
    /// the squared axis length).
    pub fn area(&self) -> (r: Ratio)
        requires
            self.wf(),
        ensures
            r.wf(),
            r.is(area_num_of(*self), norm_sq_of(*self)),
    {
        proof {
            lemma_mul_bound(
                self.hi_u - self.lo_u as int,
                self.hi_v - self.lo_v as int,
                40_000_000_000,
                40_000_000_000,
            );
        }
        let num = (self.hi_u as i128 - self.lo_u as i128) * (self.hi_v as i128
            - self.lo_v as i128);
        let den = self.axis.dot(self.axis);
        proof {
            assert(den > 0) by (nonlinear_arith)
                requires
                    den == self.axis.x * self.axis.x + self.axis.y * self.axis.y,
                    !(self.axis.x == 0 && self.axis.y == 0);
        }
        Ratio::new(num, den as i128)
    }

    /// Moves the box so its center projects onto the given point's
    /// projections (rounded down where a range has odd width), keeping
    /// its direction and both range widths.
    pub fn set_center(&mut self, c: Vec2)
        requires
            old(self).wf(),
            c.in_bounds(),
            -PROJ_LIMIT <= dot_of(c, old(self).axis) - (old(self).hi_u - old(self).lo_u) / 2,
            dot_of(c, old(self).axis) - (old(self).hi_u - old(self).lo_u) / 2 + (old(
            self).hi_u - old(self).lo_u) <= PROJ_LIMIT,
            -PROJ_LIMIT <= dot_of(c, perp_of(old(self).axis)) - (old(self).hi_v - old(
            self).lo_v) / 2,
            dot_of(c, perp_of(old(self).axis)) - (old(self).hi_v - old(self).lo_v) / 2 + (old(
            self).hi_v - old(self).lo_v) <= PROJ_LIMIT,
        ensures
            final(self).axis == old(self).axis,
            final(self).lo_u == dot_of(c, old(self).axis) - (old(self).hi_u - old(
            self).lo_u) / 2,
            final(self).hi_u - final(self).lo_u == old(self).hi_u - old(self).lo_u,
            final(self).lo_v == dot_of(c, perp_of(old(self).axis)) - (old(self).hi_v - old(
            self).lo_v) / 2,
            final(self).hi_v - final(self).lo_v == old(self).hi_v - old(self).lo_v,
            final(self).wf(),
    {
        let cu = c.dot(self.axis);
        let cv = c.dot(self.axis.perp());
        let wu = self.hi_u - self.lo_u;
        let wv = self.hi_v - self.lo_v;
        let lo_u = cu - wu / 2;
        let lo_v = cv - wv / 2;
        self.lo_u = lo_u;
        self.hi_u = lo_u + wu;
        self.lo_v = lo_v;
        self.hi_v = lo_v + wv;
    }

    /// The box's projection interval onto a direction, as exact rationals:
    /// the scalar projections of its points onto `axis` fill exactly this
    /// interval (in units of the length of `axis`).
    pub fn project(&self, axis: Vec2) -> (r: (Ratio, Ratio))
        requires
            self.wf(),
            axis.in_bounds(),
        ensures
            r.0.wf(),
            r.1.wf(),
            r.0.is(box_proj_lo_num(*self, axis), norm_sq_of(*self)),
            r.1.is(box_proj_hi_num(*self, axis), norm_sq_of(*self)),
    {
        let (lo, hi) = proj_interval(self, axis);
        let nsq = self.axis.dot(self.axis) as i128;
        proof {
            assert(nsq > 0) by (nonlinear_arith)
                requires
                    nsq == self.axis.x * self.axis.x + self.axis.y * self.axis.y,
                    !(self.axis.x == 0 && self.axis.y == 0);
        }
        (Ratio { num: lo, den: nsq }, Ratio { num: hi, den: nsq })
    }

    /// Whether a point lies strictly inside the box.
    pub fn contains_point(&self, point: Vec2) -> (r: bool)
        requires
            self.wf(),
            point.in_bounds(),
        ensures
            r == self.contains_spec(point),
    {
        let pu = point.dot(self.axis);
        let pv = point.dot(self.axis.perp());
        self.lo_u < pu && pu < self.hi_u && self.lo_v < pv && pv < self.hi_v
    }

    /// Whether the box and a circle overlap: the circle's center is clamped
    /// to the box in the box's own frame and the squared distance compared
    /// to the squared radius, both scaled by the squared axis length.
    pub fn overlaps_circle(&self, circle: Circle) -> (r: bool)
        requires
            self.wf(),
            circle.center.in_bounds(),
            0 <= circle.radius <= MAX_COORD,
        ensures
            r == self.overlaps_circle_spec(circle),
    {
        let du = circle.center.dot(self.axis) as i128;
        let dv = circle.center.dot(self.axis.perp()) as i128;
        let cu = if du < self.lo_u as i128 {
            self.lo_u as i128
        } else if du > self.hi_u as i128 {
            self.hi_u as i128
        } else {
            du
        };
        let cv = if dv < self.lo_v as i128 {
            self.lo_v as i128
        } else if dv > self.hi_v as i128 {
            self.hi_v as i128
        } else {
            dv
        };
        let ex = du - cu;
        let ey = dv - cv;
        let nsq = self.axis.dot(self.axis) as i128;
        proof {
            lemma_mul_bound(ex as int, ex as int, 40_000_000_000, 40_000_000_000);
            lemma_mul_bound(ey as int, ey as int, 40_000_000_000, 40_000_000_000);
            lemma_mul_bound(circle.radius as int, circle.radius as int, 100_000, 100_000);
            lemma_mul_bound(
                circle.radius * circle.radius,
                nsq as int,
                10_000_000_000,
                20_000_000_000,
            );
        }
        ex * ex + ey * ey <= circle.radius as i128 * circle.radius as i128 * nsq
    }

    /// Separating-axis overlap test between two boxes: the boxes collide
    /// exactly when none of the four candidate axes separates their
    /// projections. Testing an axis that happens to be parallel to another
    /// repeats a test and cannot change the outcome, so no axes are
    /// filtered.
    pub fn overlaps_oobb(&self, other: &OOBB) -> (r: bool)
        requires
            self.wf(),
            other.wf(),
        ensures
            r == sat_collides_spec(*self, *other),
    {
        let a1 = self.axis;
        let a2 = self.axis.perp();
        let a3 = other.axis;
        let a4 = other.axis.perp();
        if separated_exec(self, other, a1) {
            return false;
        }
        if separated_exec(self, other, a2) {
            return false;
        }
        if separated_exec(self, other, a3) {
            return false;
        }
        if separated_exec(self, other, a4) {
            return false;
        }
        true
    }
}

/// Projection interval of box `o` onto direction `a`, as numerators over
/// the denominator `norm_sq_of(o)`.
fn proj_interval(o: &OOBB, a: Vec2) -> (r: (i128, i128))
    requires
        o.wf(),
        a.in_bounds(),
    ensures
        r.0 == box_proj_lo_num(*o, a),
        r.1 == box_proj_hi_num(*o, a),
        -800_000_000_000_000_000_000 <= r.0 <= 800_000_000_000_000_000_000,
        -800_000_000_000_000_000_000 <= r.1 <= 800_000_000_000_000_000_000,
{
    let al = a.dot(o.axis) as i128;
    let be = a.dot(o.axis.perp()) as i128;
    proof {
        lemma_mul_bound(al as int, o.lo_u as int, 20_000_000_000, 20_000_000_000);
        lemma_mul_bound(al as int, o.hi_u as int, 20_000_000_000, 20_000_000_000);
        lemma_mul_bound(be as int, o.lo_v as int, 20_000_000_000, 20_000_000_000);
        lemma_mul_bound(be as int, o.hi_v as int, 20_000_000_000, 20_000_000_000);
    }
    let ulo = al * o.lo_u as i128;
    let uhi = al * o.hi_u as i128;
    let vlo = be * o.lo_v as i128;
    let vhi = be * o.hi_v as i128;
    let lo = (if ulo <= uhi { ulo } else { uhi }) + (if vlo <= vhi { vlo } else { vhi });
    let hi = (if ulo >= uhi { ulo } else { uhi }) + (if vlo >= vhi { vlo } else { vhi });
    (lo, hi)
}

/// Whether `axis` separates the projections of the two boxes.
fn separated_exec(a: &OOBB, b: &OOBB, axis: Vec2) -> (r: bool)
    requires
        a.wf(),
        b.wf(),
        axis.in_bounds(),
    ensures
        r == separated_on(*a, *b, axis),
{
    let (lo_a, hi_a) = proj_interval(a, axis);
    let (lo_b, hi_b) = proj_interval(b, axis);
    let nsq_a = a.axis.dot(a.axis) as i128;
    let nsq_b = b.axis.dot(b.axis) as i128;
    proof {
        lemma_mul_bound(hi_a as int, nsq_b as int, 800_000_000_000_000_000_000,
            20_000_000_000);
        lemma_mul_bound(lo_b as int, nsq_a as int, 800_000_000_000_000_000_000,
            20_000_000_000);
        lemma_mul_bound(hi_b as int, nsq_a as int, 800_000_000_000_000_000_000,
            20_000_000_000);
        lemma_mul_bound(lo_a as int, nsq_b as int, 800_000_000_000_000_000_000,
            20_000_000_000);
    }
    hi_a * nsq_b < lo_b * nsq_a || hi_b * nsq_a < lo_a * nsq_b
}

/// Smallest and largest projection of a nonempty point set onto a
/// direction.
pub fn minmax_projection(points: &Vec<Vec2>, axis: Vec2) -> (r: (i64, i64))
    requires
        points@.len() > 0,
        forall|i: int| 0 <= i < points@.len() ==> (#[trigger] points@[i]).in_bounds(),
        axis.in_bounds(),
    ensures
        r.0 == proj_min(points@, axis),
        r.1 == proj_max(points@, axis),
        -PROJ_LIMIT <= r.0 <= r.1 <= PROJ_LIMIT,
{
    let mut mn = points[0].dot(axis);
    let mut mx = mn;
    proof {
        assert(points@.take(1).len() == 1);
        assert(points@.take(1)[0] == points@[0]);
        lemma_mul_bound(points@[0].x as int, axis.x as int, 100_000, 100_000);
        lemma_mul_bound(points@[0].y as int, axis.y as int, 100_000, 100_000);
        
    }
    let mut k: usize = 1;
    while k < points.len()
        invariant
            1 <= k <= points@.len(),
            forall|i: int| 0 <= i < points@.len() ==> (#[trigger] points@[i]).in_bounds(),
            axis.in_bounds(),
            mn == proj_min(points@.take(k as int), axis),
            mx == proj_max(points@.take(k as int), axis),
            -PROJ_LIMIT <= mn <= mx <= PROJ_LIMIT,
        decreases points@.len() - k,
    {
        let d = points[k].dot(axis);
        proof {
            lemma_mul_bound(points@[k as int].x as int, axis.x as int, 100_000, 100_000);
            lemma_mul_bound(points@[k as int].y as int, axis.y as int, 100_000, 100_000);
            
            assert(points@.take(k as int + 1).drop_last() =~= points@.take(k as int));
            assert(points@.take(k as int + 1).last() == points@[k as int]);
        }
        if d < mn {
            mn = d;
        }
        if d > mx {
            mx = d;
        }
        k = k + 1;
    }
    proof {
        assert(points@.take(points@.len() as int) =~= points@);
    }
    (mn, mx)
}

/// Every point of a nonempty set projects within `[proj_min, proj_max]`,
/// and both bounds are attained.
pub proof fn lemma_proj_bounds(s: Seq<Vec2>, a: Vec2)
    requires
        s.len() > 0,
    ensures
        forall|i: int|
            0 <= i < s.len() ==> proj_min(s, a) <= #[trigger] dot_of(s[i], a) <= proj_max(s, a),
        exists|i: int| 0 <= i < s.len() && proj_min(s, a) == dot_of(s[i], a),
        exists|i: int| 0 <= i < s.len() && proj_max(s, a) == dot_of(s[i], a),
    decreases s.len(),
{
    if s.len() == 1 {
        assert(proj_min(s, a) == dot_of(s[0], a));
        assert(proj_max(s, a) == dot_of(s[0], a));
    } else {
        let t = s.drop_last();
        lemma_proj_bounds(t, a);
        assert forall|i: int|
            0 <= i < s.len() implies proj_min(s, a) <= #[trigger] dot_of(s[i], a) <= proj_max(
            s, a) by {
            if i < s.len() - 1 {
                assert(t[i] == s[i]);
                assert(proj_min(t, a) <= dot_of(t[i], a) <= proj_max(t, a));
            }
        }
        let jn = choose|i: int| 0 <= i < t.len() && proj_min(t, a) == dot_of(t[i], a);
        let jx = choose|i: int| 0 <= i < t.len() && proj_max(t, a) == dot_of(t[i], a);
        if proj_min(s, a) == dot_of(s[s.len() - 1], a) {
        } else {
            assert(proj_min(s, a) == dot_of(s[jn], a));
        }
        if proj_max(s, a) == dot_of(s[s.len() - 1], a) {
        } else {
            assert(proj_max(s, a) == dot_of(s[jx], a));
        }
    }
}

impl OOBB {
    /// The candidate box of a point set for one direction: the exact
    /// projection ranges of the points along the direction and its
    /// perpendicular. Every point lies inclusively within the box.
    pub fn from_axis(points: &Vec<Vec2>, axis: Vec2) -> (r: OOBB)
        requires
            points@.len() > 0,
            forall|i: int| 0 <= i < points@.len() ==> (#[trigger] points@[i]).in_bounds(),
            axis.in_bounds(),
            !(axis.x == 0 && axis.y == 0),
        ensures
            r == candidate_of(points@, axis),
            r.wf(),
            forall|i: int|
                0 <= i < points@.len() ==> {
                    &&& r.lo_u <= #[trigger] dot_of(points@[i], r.axis) <= r.hi_u
                    &&& r.lo_v <= dot_of(points@[i], perp_of(r.axis)) <= r.hi_v
                },
    {
        let (lo_u, hi_u) = minmax_projection(points, axis);
        let p = axis.perp();
        proof {
            assert(p == perp_of(axis));
        }
        let (lo_v, hi_v) = minmax_projection(points, p);
        proof {
            lemma_proj_bounds(points@, axis);
            lemma_proj_bounds(points@, perp_of(axis));
        }
        OOBB { axis, lo_u, hi_u, lo_v, hi_v }
    }

    /// Brute-force minimum-area oriented box: builds the candidate box for
    /// every direction of `axes` and keeps the one with the smallest area.
    /// Exact area ties are broken deterministically in favour of the lowest
    /// index. An empty point set or an empty direction family is rejected.
    ///
    /// The direction family is supplied by the caller: the classic sweep of
    /// one candidate per degree has irrational axis coordinates, so callers
    /// pick their own rational rendering of it (and can then also sample it
    /// in parallel, feeding every candidate through this same exact
    /// comparison).
    pub fn enclosing(points: &Vec<Vec2>, axes: &Vec<Vec2>) -> (r: Result<OOBB, GeomError>)
        requires
            forall|i: int| 0 <= i < points@.len() ==> (#[trigger] points@[i]).in_bounds(),
            forall|k: int|
                0 <= k < axes@.len() ==> (#[trigger] axes@[k]).in_bounds() && !(axes@[k].x == 0
                    && axes@[k].y == 0),
        ensures
            points@.len() == 0 || axes@.len() == 0 <==> r is Err,
            r is Err ==> r == Result::<OOBB, GeomError>::Err(GeomError::InvalidInput),
            r matches Ok(o) ==> o.wf() && fitter_result(o, points@, axes@),
    {
        if points.len() == 0 || axes.len() == 0 {
            return Err(GeomError::InvalidInput);
        }
        let mut best = OOBB::from_axis(points, axes[0]);
        let ghost mut best_j: int = 0;
        let mut k: usize = 1;
        while k < axes.len()
            invariant
                1 <= k <= axes@.len(),
                points@.len() > 0,
                forall|i: int| 0 <= i < points@.len() ==> (#[trigger] points@[i]).in_bounds(),
                forall|m: int|
                    0 <= m < axes@.len() ==> (#[trigger] axes@[m]).in_bounds() && !(axes@[m].x
                        == 0 && axes@[m].y == 0),
                0 <= best_j < k,
                best == candidate_of(points@, axes@[best_j]),
                best.wf(),
                forall|m: int|
                    0 <= m < k ==> area_le_of(best, #[trigger] candidate_of(points@, axes@[m])),
                forall|m: int|
                    0 <= m < best_j ==> area_lt_of(best, #[trigger] candidate_of(
                        points@, axes@[m])),
            decreases axes@.len() - k,
        {
            let cand = OOBB::from_axis(points, axes[k]);
            if area_less(&cand, &best) {
                proof {
                    assert forall|m: int|
                        0 <= m < k implies area_le_of(cand, #[trigger] candidate_of(
                        points@, axes@[m])) by {
                        lemma_area_lt_le_trans(cand, best, candidate_of(points@, axes@[m]));
                    }
                    assert forall|m: int|
                        0 <= m < k implies area_lt_of(cand, #[trigger] candidate_of(
                        points@, axes@[m])) by {
                        lemma_area_lt_le_trans(cand, best, candidate_of(points@, axes@[m]));
                    }
                }
                best = cand;
                proof {
                    best_j = k as int;
                }
            } else {
                proof {
                    lemma_area_total(best, cand);
                }
            }
            k = k + 1;
        }
        Ok(best)
    }
}

/// When the direction family contains the horizontal unit axis, the box
/// the sweep returns covers no more area than the points' axis-aligned
/// bounding box: the axis-aligned candidate is itself in the running.
/// Stated in cross-multiplied form: the result's area numerator over
/// `norm_sq_of` is at most the bounding box's width times height.
pub proof fn lemma_fitter_beats_aabb(s: Seq<Vec2>, axes: Seq<Vec2>, o: OOBB, b: AABB, k: int)
    requires
        s.len() > 0,
        fitter_result(o, s, axes),
        is_bounding_box(b, s),
        0 <= k < axes.len(),
        axes[k] == (Vec2 { x: 1, y: 0 }),
    ensures
        area_num_of(o) <= (b.max.x - b.min.x) * (b.max.y - b.min.y) * norm_sq_of(o),
{
    let xa = Vec2 { x: 1, y: 0 };
    let ya = perp_of(xa);
    assert(ya == Vec2 { x: 0i64, y: 1i64 });
    let c = candidate_of(s, xa);
    assert(area_le_of(o, candidate_of(s, axes[k])));
    lemma_proj_bounds(s, xa);
    lemma_proj_bounds(s, ya);
    // The projections onto the two unit axes are the raw coordinates, so
    // the candidate's ranges are exactly the bounding box's extents.
    let i1 = choose|i: int| 0 <= i < s.len() && s[i].x == b.min.x;
    let i2 = choose|i: int| 0 <= i < s.len() && s[i].y == b.min.y;
    let i3 = choose|i: int| 0 <= i < s.len() && s[i].x == b.max.x;
    let i4 = choose|i: int| 0 <= i < s.len() && s[i].y == b.max.y;
    assert(dot_of(s[i1], xa) == s[i1].x);
    assert(dot_of(s[i3], xa) == s[i3].x);
    assert(dot_of(s[i2], ya) == s[i2].y);
    assert(dot_of(s[i4], ya) == s[i4].y);
    let j1 = choose|i: int| 0 <= i < s.len() && proj_min(s, xa) == dot_of(s[i], xa);
    let j2 = choose|i: int| 0 <= i < s.len() && proj_min(s, ya) == dot_of(s[i], ya);
    let j3 = choose|i: int| 0 <= i < s.len() && proj_max(s, xa) == dot_of(s[i], xa);
    let j4 = choose|i: int| 0 <= i < s.len() && proj_max(s, ya) == dot_of(s[i], ya);
    assert(b.contains_inclusive(s[j1]) && b.contains_inclusive(s[j2])
        && b.contains_inclusive(s[j3]) && b.contains_inclusive(s[j4]));
    assert(proj_min(s, xa) == b.min.x);
    assert(proj_max(s, xa) == b.max.x);
    assert(proj_min(s, ya) == b.min.y);
    assert(proj_max(s, ya) == b.max.y);
    assert(norm_sq_of(c) == 1);
    assert(area_num_of(c) == (b.max.x - b.min.x) * (b.max.y - b.min.y));
}

/// Whether box `a` has strictly smaller area than box `b`.
fn area_less(a: &OOBB, b: &OOBB) -> (r: bool)
    requires
        a.wf(),
        b.wf(),
    ensures
        r == area_lt_of(*a, *b),
{
    proof {
        lemma_mul_bound(a.hi_u - a.lo_u as int, a.hi_v - a.lo_v as int, 40_000_000_000,
            40_000_000_000);
        lemma_mul_bound(b.hi_u - b.lo_u as int, b.hi_v - b.lo_v as int, 40_000_000_000,
            40_000_000_000);
    }
    let num_a = (a.hi_u as i128 - a.lo_u as i128) * (a.hi_v as i128 - a.lo_v as i128);
    let num_b = (b.hi_u as i128 - b.lo_u as i128) * (b.hi_v as i128 - b.lo_v as i128);
    let nsq_a = a.axis.dot(a.axis) as i128;
    let nsq_b = b.axis.dot(b.axis) as i128;
    proof {
        lemma_mul_bound(num_a as int, nsq_b as int, 1_600_000_000_000_000_000_000,
            20_000_000_000);
        lemma_mul_bound(num_b as int, nsq_a as int, 1_600_000_000_000_000_000_000,
            20_000_000_000);
    }
    num_a * nsq_b < num_b * nsq_a
}

/// Strict-then-weak transitivity of the area ordering.
proof fn lemma_area_lt_le_trans(a: OOBB, b: OOBB, c: OOBB)
    requires
        !(a.axis.x == 0 && a.axis.y == 0),
        !(b.axis.x == 0 && b.axis.y == 0),
        !(c.axis.x == 0 && c.axis.y == 0),
        area_lt_of(a, b),
        area_le_of(b, c),
    ensures
        area_lt_of(a, c),
        area_le_of(a, c),
{
    let na = area_num_of(a);
    let nb = area_num_of(b);
    let nc = area_num_of(c);
    let da = norm_sq_of(a);
    let db = norm_sq_of(b);
    let dc = norm_sq_of(c);
    assert(da > 0) by (nonlinear_arith)
        requires
            da == a.axis.x * a.axis.x + a.axis.y * a.axis.y,
            !(a.axis.x == 0 && a.axis.y == 0);
    assert(db > 0) by (nonlinear_arith)
        requires
            db == b.axis.x * b.axis.x + b.axis.y * b.axis.y,
            !(b.axis.x == 0 && b.axis.y == 0);
    assert(dc > 0) by (nonlinear_arith)
        requires
            dc == c.axis.x * c.axis.x + c.axis.y * c.axis.y,
            !(c.axis.x == 0 && c.axis.y == 0);
    assert(na * dc < nc * da) by (nonlinear_arith)
        requires
            na * db < nb * da,
            nb * dc <= nc * db,
            da > 0,
            db > 0,
            dc > 0;
}

/// The area ordering is total: failing the strict test one way yields the
/// weak bound the other way.
proof fn lemma_area_total(b: OOBB, c: OOBB)
    requires
        !area_lt_of(c, b),
    ensures
        area_le_of(b, c),
{
}

} // verus!
