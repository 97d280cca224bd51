use jufi::GeomError;
use jufi::aabb::AABB;
use jufi::circle::Circle;
use jufi::collider::Collider;
use jufi::line::Line;
use jufi::oobb::OOBB;
use jufi::vec2::Vec2;

fn v(x: i64, y: i64) -> Vec2 {
    Vec2::new(x, y)
}

#[test]
fn aabb_enclosing_triangle() {
    let points = vec![v(0, 0), v(10, 0), v(0, 10)];
    let b = AABB::enclosing(&points).unwrap();
    assert_eq!(b.min, v(0, 0));
    assert_eq!(b.max, v(10, 10));
}

#[test]
fn aabb_enclosing_empty_is_rejected() {
    let points: Vec<Vec2> = vec![];
    assert_eq!(AABB::enclosing(&points), Err(GeomError::InvalidInput));
    assert_eq!(Circle::enclosing(&points), Err(GeomError::InvalidInput));
}

#[test]
fn aabb_new_ignores_corner_order() {
    let b = AABB::new(v(10, 2), v(3, 7));
    assert_eq!(b.min, v(3, 2));
    assert_eq!(b.max, v(10, 7));
    assert_eq!(b, AABB::new(v(3, 7), v(10, 2)));
}

#[test]
fn aabb_dimensions() {
    let b = AABB::new(v(1, 2), v(5, 9));
    assert_eq!(b.width(), 4);
    assert_eq!(b.height(), 7);
}

#[test]
fn aabb_contains_point_is_open() {
    let b = AABB::new(v(0, 0), v(10, 10));
    assert!(b.contains_point(v(5, 5)));
    assert!(!b.contains_point(v(0, 5)));
    assert!(!b.contains_point(v(5, 10)));
    assert!(!b.contains_point(v(11, 5)));
}

#[test]
fn aabb_overlap_touching_counts() {
    let a = AABB::new(v(0, 0), v(10, 10));
    let b = AABB::new(v(10, 0), v(20, 10));
    let c = AABB::new(v(11, 0), v(20, 10));
    assert!(a.overlaps_aabb(b));
    assert!(b.overlaps_aabb(a));
    assert!(!a.overlaps_aabb(c));
}

#[test]
fn aabb_circle_overlap_by_clamping() {
    // Closest point of the box to the center is (3, 3), at distance
    // just over 4.24, which is within the radius 5.
    let b = AABB::new(v(3, 3), v(10, 10));
    let c = Circle::new(v(0, 0), 5);
    assert!(b.overlaps_circle(c));
    assert!(c.overlaps_aabb(b));
    let far = Circle::new(v(0, 0), 4);
    assert!(!b.overlaps_circle(far));
}

#[test]
fn circle_contains_point_is_strict() {
    let c = Circle::new(v(0, 0), 5);
    assert!(c.contains_point(v(3, 3)));
    assert!(!c.contains_point(v(5, 0)));
    assert!(!c.contains_point(v(4, 4)));
}

#[test]
fn circle_overlap_is_strict() {
    let a = Circle::new(v(0, 0), 3);
    assert!(a.overlaps_circle(Circle::new(v(5, 0), 3)));
    // Touching circles (distance equal to the radius sum) do not overlap.
    assert!(!a.overlaps_circle(Circle::new(v(5, 0), 2)));
}

#[test]
fn circle_enclosing_covers_the_box_corner() {
    let points = vec![v(0, 0), v(10, 0), v(0, 10)];
    let c = Circle::enclosing(&points).unwrap();
    assert_eq!(c.center, v(5, 5));
    // The farthest corner is at squared distance 50; the least covering
    // integer radius is 8.
    assert_eq!(c.radius, 8);
    for p in points {
        assert!(p.distance_to_squared(c.center) <= c.radius * c.radius);
    }
}

#[test]
fn line_normal_and_direction() {
    let l = Line::new(v(1, 1), v(4, 5));
    assert_eq!(l.direction(), v(3, 4));
    assert_eq!(l.normal(), v(4, -3));
    assert_eq!(l.length_squared(), 25);
    assert_eq!(l.length(), 5);
}

#[test]
fn line_degeneracy_and_parallelism() {
    let l = Line::new(v(2, 2), v(2, 2));
    assert!(l.is_degenerate());
    assert!(!Line::new(v(0, 0), v(1, 0)).is_degenerate());
    let a = Line::new(v(0, 0), v(4, 2));
    let b = Line::new(v(1, 5), v(9, 9));
    let c = Line::new(v(0, 0), v(1, 2));
    assert!(a.is_parallel_with(b));
    assert!(!a.is_parallel_with(c));
}

#[test]
fn segments_properly_crossing() {
    let a = Line::new(v(0, 0), v(10, 10));
    let b = Line::new(v(0, 10), v(10, 0));
    assert!(a.intersects(b));
    assert!(b.intersects(a));
}

#[test]
fn segments_touching_do_not_cross() {
    // One segment ends exactly on the other: excluded by the sign test.
    let a = Line::new(v(0, 0), v(10, 0));
    let b = Line::new(v(5, 0), v(5, 5));
    assert!(!a.intersects(b));
    // Parallel segments never cross.
    let c = Line::new(v(0, 1), v(10, 1));
    assert!(!a.intersects(c));
}

#[test]
fn intersection_parameters_are_exact() {
    let a = Line::new(v(0, 0), v(10, 0));
    let b = Line::new(v(5, -5), v(5, 5));
    let x = a.intersection(b).unwrap();
    // t and u are both exactly one half.
    assert_eq!(2 * x.t.num, x.t.den);
    assert_eq!(2 * x.u.num, x.u.den);
    // The crossing point is (5, 0).
    assert_eq!(x.px.num, 5 * x.px.den);
    assert_eq!(x.py.num, 0);
    // The normal is the second segment's direction rotated by -90 degrees.
    assert_eq!(x.normal, v(10, 0));
}

#[test]
fn intersection_of_parallels_is_none() {
    let a = Line::new(v(0, 0), v(10, 0));
    assert!(a.intersection(Line::new(v(0, 3), v(10, 3))).is_none());
    // A degenerate other segment is parallel to everything.
    assert!(a.intersection(Line::new(v(4, 4), v(4, 4))).is_none());
}

#[test]
fn intersection_beyond_the_segments_is_unclamped() {
    // The supporting lines cross at (20, 0), past the end of `a`.
    let a = Line::new(v(0, 0), v(10, 0));
    let b = Line::new(v(20, -5), v(20, 5));
    assert!(!a.intersects(b));
    let x = a.intersection(b).unwrap();
    // t is exactly 2: the crossing lies beyond the first segment.
    assert_eq!(x.t.num, 2 * x.t.den);
}

#[test]
fn oobb_from_axis_matches_projections() {
    let points = vec![v(0, 0), v(4, 0), v(0, 3), v(4, 3)];
    let o = OOBB::from_axis(&points, v(1, 0));
    assert_eq!(o.axis, v(1, 0));
    assert_eq!((o.lo_u, o.hi_u), (0, 4));
    assert_eq!((o.lo_v, o.hi_v), (0, 3));
    let area = o.area();
    assert_eq!(area.num, 12 * area.den);
}

#[test]
fn oobb_fitter_picks_the_smaller_candidate() {
    // Collinear diagonal points: the diagonal axis gives a degenerate
    // box of area zero, which beats the axis-aligned candidate.
    let points = vec![v(0, 0), v(5, 5), v(1, 1)];
    let axes = vec![v(1, 0), v(1, 1)];
    let o = OOBB::enclosing(&points, &axes).unwrap();
    assert_eq!(o.axis, v(1, 1));
    assert_eq!(o.lo_v, o.hi_v);
}

#[test]
fn oobb_fitter_breaks_ties_by_lowest_index() {
    let points = vec![v(0, 0), v(2, 0), v(0, 2), v(2, 2)];
    // Both unit axes describe the same square with equal area.
    let axes = vec![v(0, 1), v(1, 0)];
    let o = OOBB::enclosing(&points, &axes).unwrap();
    assert_eq!(o.axis, v(0, 1));
}

#[test]
fn oobb_fitter_result_no_larger_than_aabb() {
    let points = vec![v(0, 0), v(7, 2), v(3, 9), v(-4, 5)];
    let axes = vec![v(1, 0), v(2, 1), v(1, 1), v(1, 2), v(-1, 3)];
    let o = OOBB::enclosing(&points, &axes).unwrap();
    let b = AABB::enclosing(&points).unwrap();
    let aabb_area = (b.max.x - b.min.x) as i128 * (b.max.y - b.min.y) as i128;
    let norm = (o.axis.x * o.axis.x + o.axis.y * o.axis.y) as i128;
    let area_num = (o.hi_u - o.lo_u) as i128 * (o.hi_v - o.lo_v) as i128;
    assert!(area_num <= aabb_area * norm);
}

#[test]
fn oobb_fitter_rejects_empty_inputs() {
    let no_points: Vec<Vec2> = vec![];
    let axes = vec![v(1, 0)];
    assert_eq!(OOBB::enclosing(&no_points, &axes), Err(GeomError::InvalidInput));
    let points = vec![v(1, 1)];
    let no_axes: Vec<Vec2> = vec![];
    assert_eq!(OOBB::enclosing(&points, &no_axes), Err(GeomError::InvalidInput));
}

#[test]
fn oobb_contains_point_is_open() {
    let o = OOBB::new(v(1, 0), 0, 4, 0, 3);
    assert!(o.contains_point(v(1, 1)));
    assert!(!o.contains_point(v(0, 1)));
    assert!(!o.contains_point(v(2, 3)));
}

#[test]
fn oobb_circle_overlap_in_rotated_frame() {
    // A diamond with vertices (2,0), (0,2), (-2,0), (0,-2).
    let o = OOBB::new(v(1, 1), -2, 2, -2, 2);
    assert!(o.overlaps_circle(Circle::new(v(3, 0), 1)));
    assert!(!o.overlaps_circle(Circle::new(v(4, 0), 1)));
}

#[test]
fn collider_circle_pair_uses_distance() {
    let a = Collider::Circle(Circle::new(v(0, 0), 3));
    let b = Collider::Circle(Circle::new(v(5, 0), 3));
    let c = Collider::Circle(Circle::new(v(5, 0), 2));
    assert!(a.collides_with(b));
    assert!(!a.collides_with(c));
}

#[test]
fn collider_box_pairs_use_separating_axes() {
    let diamond = Collider::OOBB(OOBB::new(v(1, 1), -2, 2, -2, 2));
    let near = Collider::AABB(AABB::new(v(1, -1), v(3, 1)));
    let far = Collider::AABB(AABB::new(v(3, -1), v(5, 1)));
    assert!(diamond.collides_with(near));
    assert!(!diamond.collides_with(far));
}

#[test]
fn collider_is_symmetric() {
    let shapes = vec![
        Collider::Circle(Circle::new(v(0, 0), 3)),
        Collider::Circle(Circle::new(v(4, 1), 2)),
        Collider::AABB(AABB::new(v(-1, -1), v(2, 2))),
        Collider::AABB(AABB::new(v(3, 3), v(6, 6))),
        Collider::OOBB(OOBB::new(v(1, 1), -2, 2, -2, 2)),
        Collider::OOBB(OOBB::new(v(2, -1), 4, 9, 0, 5)),
    ];
    for a in &shapes {
        for b in &shapes {
            assert_eq!(a.collides_with(*b), b.collides_with(*a));
        }
    }
}

#[test]
fn collider_mixed_pairs() {
    let circle = Collider::Circle(Circle::new(v(0, 0), 5));
    let boxed = Collider::AABB(AABB::new(v(3, 3), v(10, 10)));
    assert!(circle.collides_with(boxed));
    assert!(boxed.collides_with(circle));
    let diamond = Collider::OOBB(OOBB::new(v(1, 1), -2, 2, -2, 2));
    assert!(circle.collides_with(diamond));
}

#[test]
fn circle_collider_capability() {
    let c = Circle::new(v(3, 4), 7);
    assert_eq!(c.u(), v(1, 0));
    assert_eq!(c.v(), v(0, 1));
    assert_eq!(c.center(), v(3, 4));
    assert_eq!(c.extents(), v(7, 7));
}

#[test]
fn oobb_projection_interval() {
    // The diamond spans exactly [-2, 2] on the horizontal axis.
    let o = OOBB::new(v(1, 1), -2, 2, -2, 2);
    let (lo, hi) = o.project(v(1, 0));
    assert_eq!(lo.num, -2 * lo.den);
    assert_eq!(hi.num, 2 * hi.den);
}

#[test]
fn aabb_projects_through_its_frame() {
    let b = AABB::new(v(1, 2), v(5, 9));
    let f = jufi::collider::box_frame(&b);
    let (lo, hi) = f.project(v(0, 1));
    assert_eq!(lo.num, 2 * lo.den);
    assert_eq!(hi.num, 9 * hi.den);
}

#[test]
fn circle_mutators() {
    let mut c = Circle::new(v(1, 2), 5);
    c.set_center(v(7, 8));
    assert_eq!(c.center, v(7, 8));
    assert_eq!(c.radius, 5);
    c.grow(3);
    assert_eq!(c.radius, 8);
    c.grow(-8);
    assert_eq!(c.radius, 0);
}

#[test]
fn aabb_mutators() {
    let mut b = AABB::new(v(0, 0), v(10, 6));
    b.grow(2);
    assert_eq!(b.min, v(-2, -2));
    assert_eq!(b.max, v(12, 8));
    b.set_center(v(100, 50));
    assert_eq!(b.width(), 14);
    assert_eq!(b.height(), 10);
    assert_eq!((b.min.x + b.max.x) / 2, 100);
    assert_eq!((b.min.y + b.max.y) / 2, 50);
}

#[test]
fn oobb_set_center_keeps_widths() {
    let mut o = OOBB::new(v(1, 0), 0, 4, 0, 3);
    o.set_center(v(10, 20));
    assert_eq!(o.axis, v(1, 0));
    assert_eq!(o.hi_u - o.lo_u, 4);
    assert_eq!(o.hi_v - o.lo_v, 3);
    // The new ranges are centered on the point's projections (10, 20).
    assert_eq!(o.lo_u, 8);
    assert_eq!(o.lo_v, 19);
}
