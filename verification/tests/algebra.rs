use jufi::ratio::Ratio;
use jufi::vec2::Vec2;
use jufi::vec2::isqrt;

#[test]
fn vector_products() {
    let a = Vec2::new(3, 4);
    let b = Vec2::new(-2, 5);
    assert_eq!(a.dot(b), 3 * -2 + 4 * 5);
    assert_eq!(a.cross(b), 3 * 5 - 4 * -2);
    assert_eq!(a.length_squared(), 25);
    assert_eq!(a.distance_to_squared(b), 25 + 1);
}

#[test]
fn vector_arithmetic() {
    let a = Vec2::new(3, 4);
    let b = Vec2::new(-2, 5);
    assert_eq!(a.add(b), Vec2::new(1, 9));
    assert_eq!(a.sub(b), Vec2::new(5, -1));
    assert_eq!(a.neg(), Vec2::new(-3, -4));
    assert_eq!(a.scale(3), Vec2::new(9, 12));
    assert_eq!(a.perp(), Vec2::new(-4, 3));
}

#[test]
fn floored_lengths() {
    assert_eq!(Vec2::new(3, 4).length(), 5);
    assert_eq!(Vec2::new(1, 1).length(), 1);
    assert_eq!(Vec2::new(0, 0).length(), 0);
    assert_eq!(Vec2::new(0, 0).distance_to(Vec2::new(10, 0)), 10);
    assert_eq!(Vec2::new(0, 0).distance_to(Vec2::new(7, 1)), 7);
}

#[test]
fn integer_square_root() {
    assert_eq!(isqrt(0), 0);
    assert_eq!(isqrt(1), 1);
    assert_eq!(isqrt(2), 1);
    assert_eq!(isqrt(49), 7);
    assert_eq!(isqrt(50), 7);
    assert_eq!(isqrt(u64::MAX), 0xffff_ffff);
}

#[test]
fn unit_length_check() {
    assert!(Vec2::new(1, 0).is_normalized());
    assert!(Vec2::new(0, -1).is_normalized());
    assert!(!Vec2::new(1, 1).is_normalized());
    assert!(!Vec2::new(0, 0).is_normalized());
}

#[test]
fn pseudoangle_axis_values() {
    // The four axes land exactly on 0, 2, 4 and 6.
    let p = Vec2::new(1, 0).square_pseudoangle();
    assert_eq!(p.num, 0);
    let p = Vec2::new(0, 1).square_pseudoangle();
    assert_eq!(p.num, 2 * p.den);
    let p = Vec2::new(-1, 0).square_pseudoangle();
    assert_eq!(p.num, 4 * p.den);
    let p = Vec2::new(0, -1).square_pseudoangle();
    assert_eq!(p.num, 6 * p.den);
}

#[test]
fn pseudoangle_octants() {
    // 45 degrees is exactly 1; a slope of one half is exactly 0.5.
    let p = Vec2::new(5, 5).square_pseudoangle();
    assert_eq!(p.num, p.den);
    let p = Vec2::new(2, 1).square_pseudoangle();
    assert_eq!(2 * p.num, p.den);
    let p = Vec2::new(-3, -3).square_pseudoangle();
    assert_eq!(p.num, 5 * p.den);
}

#[test]
fn pseudoangle_between_wraps() {
    let a = Vec2::new(1, 0);
    let b = Vec2::new(0, 1);
    let d = a.square_pseudoangle_between(b);
    assert_eq!(d.num, 2 * d.den);
    // The reverse direction wraps into [0, 8).
    let d = b.square_pseudoangle_between(a);
    assert_eq!(d.num, 6 * d.den);
    let d = a.square_pseudoangle_between(a);
    assert_eq!(d.num, 0);
}

#[test]
fn ratio_ordering() {
    let half = Ratio::new(1, 2);
    let third = Ratio::new(-1, -3);
    assert!(third.lt(half));
    assert!(!half.lt(third));
    assert!(third.le(third));
    // Sign normalization keeps the denominator positive.
    let neg = Ratio::new(1, -2);
    assert_eq!(neg.num, -1);
    assert_eq!(neg.den, 2);
}

#[test]
fn bounce_reflects_exactly() {
    // Reflecting (4, 0) off a 45-degree surface turns it vertical.
    let (bx, by) = Vec2::new(4, 0).bounce(Vec2::new(-2, 2));
    assert_eq!(bx.num, 0);
    assert_eq!(by.num, 4 * by.den);
    // Reflecting head-on off a horizontal normal negates the vector.
    let (bx, by) = Vec2::new(10, 0).bounce(Vec2::new(5, 0));
    assert_eq!(bx.num, -10 * bx.den);
    assert_eq!(by.num, 0);
}

#[test]
fn pseudoangle_ignores_scale() {
    let a = Vec2::new(2, 1).square_pseudoangle();
    let b = Vec2::new(40, 20).square_pseudoangle();
    assert_eq!(a.num * b.den, b.num * a.den);
    let a = Vec2::new(-3, 7).square_pseudoangle();
    let b = Vec2::new(-9, 21).square_pseudoangle();
    assert_eq!(a.num * b.den, b.num * a.den);
}
