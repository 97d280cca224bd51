use jufi::line::Line;
use jufi::particle::Particle;
use jufi::vec2::Vec2;

fn v(x: i64, y: i64) -> Vec2 {
    Vec2::new(x, y)
}

#[test]
fn resting_particle_stays_put() {
    let walls = vec![Line::new(v(5, -5), v(5, 5))];
    let mut p = Particle::new(v(5, 5), v(0, 0));
    p.update(10, &walls);
    assert_eq!(p.position, v(5, 5));
    assert_eq!(p.speed, v(0, 0));
}

#[test]
fn free_flight_moves_by_velocity_times_delta() {
    let walls: Vec<Line> = vec![];
    let mut p = Particle::new(v(0, 0), v(3, 4));
    p.update(2, &walls);
    assert_eq!(p.position, v(6, 8));
    assert_eq!(p.speed, v(3, 4));
}

#[test]
fn missed_walls_do_not_deflect() {
    // The motion's supporting line meets the wall's line, but outside
    // the wall segment itself.
    let walls = vec![Line::new(v(5, 1), v(5, 10))];
    let mut p = Particle::new(v(0, 0), v(10, 0));
    p.update(1, &walls);
    assert_eq!(p.position, v(10, 0));
    assert_eq!(p.speed, v(10, 0));
}

#[test]
fn perpendicular_bounce_negates_velocity() {
    // Head-on into a vertical wall at x = 5: the contact is at (5, 0),
    // and the leftover half step is retraced backwards.
    let walls = vec![Line::new(v(5, -5), v(5, 5))];
    let mut p = Particle::new(v(0, 0), v(10, 0));
    p.update(1, &walls);
    assert_eq!(p.speed, v(-10, 0));
    assert_eq!(p.position, v(0, 0));
}

#[test]
fn slanted_wall_reflects_the_velocity() {
    // A 45-degree wall turns horizontal motion into vertical motion.
    let walls = vec![Line::new(v(3, 1), v(1, -1))];
    let mut p = Particle::new(v(0, 0), v(4, 0));
    p.update(1, &walls);
    assert_eq!(p.speed, v(0, 4));
    assert_eq!(p.position, v(2, 2));
}

#[test]
fn nearest_wall_wins() {
    let walls = vec![
        Line::new(v(7, -5), v(7, 5)),
        Line::new(v(3, -5), v(3, 5)),
    ];
    let mut p = Particle::new(v(0, 0), v(10, 0));
    p.update(1, &walls);
    assert_eq!(p.speed, v(-10, 0));
    // Contact at (3, 0), then 0.7 of the step back along (-10, 0).
    assert_eq!(p.position, v(-4, 0));
}

#[test]
fn equal_distance_ties_go_to_the_first_wall() {
    // Both walls pass through (5, 0); the diagonal one is listed first,
    // so its normal decides the reflection.
    let walls = vec![
        Line::new(v(0, -5), v(10, 5)),
        Line::new(v(5, -5), v(5, 5)),
    ];
    let mut p = Particle::new(v(0, 0), v(10, 0));
    p.update(1, &walls);
    assert_eq!(p.speed, v(0, 10));
    assert_eq!(p.position, v(5, 5));
}

#[test]
fn one_bounce_per_step() {
    // After the first reflection the leftover motion crosses the second
    // wall at x = -2, but only one bounce is applied per step.
    let walls = vec![
        Line::new(v(5, -5), v(5, 5)),
        Line::new(v(-2, -5), v(-2, 5)),
    ];
    let mut p = Particle::new(v(0, 0), v(20, 0));
    p.update(1, &walls);
    assert_eq!(p.speed, v(-20, 0));
    assert_eq!(p.position, v(-10, 0));
}
