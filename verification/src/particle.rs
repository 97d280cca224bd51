//! A point-mass particle advanced by velocity times a time step and
//! reflected off the nearest intersected wall segment — at most one
//! reflection per step.

use vstd::prelude::*;
use crate::line::Line;
use crate::line::den_of;
use crate::line::t_num_of;
use crate::line::u_num_of;
use crate::line::within_unit;
use crate::ratio::floor_div;
use crate::ratio::lemma_div_range;
use crate::ratio::lemma_mul_bound;
use crate::vec2::Vec2;

verus! {

/// Largest time step the particle simulation accepts.
pub const MAX_DELTA: i64 = 1000;

/// A point mass with a position and a velocity, both on the integer grid.
#[derive(Clone, Copy, PartialEq, Eq, Structural, Debug)]
pub struct Particle {
    pub position: Vec2,
    pub speed: Vec2,
}

/// The straight segment from the particle's position to where this step's
/// displacement `(rx, ry)` would carry it.
pub open spec fn motion_line(pos: Vec2, rx: int, ry: int) -> Line {
    Line { p1: pos, p2: Vec2 { x: (pos.x + rx) as i64, y: (pos.y + ry) as i64 } }
}

/// The motion segment crosses the wall: their supporting lines are not
/// parallel and both intersection parameters lie in the closed unit
/// interval.
pub open spec fn hits_wall(m: Line, w: Line) -> bool {
    &&& den_of(m, w) != 0
    &&& within_unit(t_num_of(m, w), den_of(m, w))
    &&& within_unit(u_num_of(m, w), den_of(m, w))
}

/// Numerator of the crossing's motion parameter, normalized so the
/// denominator is positive.
pub open spec fn tnorm_num(m: Line, w: Line) -> int {
    if den_of(m, w) >= 0 {
        t_num_of(m, w)
    } else {
        -t_num_of(m, w)
    }
}

/// Positive denominator of the crossing's motion parameter.
pub open spec fn tnorm_den(m: Line, w: Line) -> int {
    if den_of(m, w) >= 0 {
        den_of(m, w)
    } else {
        -den_of(m, w)
    }
}

/// The crossing with `w1` comes no later along the motion than the one
/// with `w2`. Since all crossings are measured from the particle's own
/// position, nearest in distance means least in parameter.
pub open spec fn t_le(m: Line, w1: Line, w2: Line) -> bool {
    tnorm_num(m, w1) * tnorm_den(m, w2) <= tnorm_num(m, w2) * tnorm_den(m, w1)
}

/// The crossing with `w1` comes strictly earlier than the one with `w2`.
pub open spec fn t_lt(m: Line, w1: Line, w2: Line) -> bool {
    tnorm_num(m, w1) * tnorm_den(m, w2) < tnorm_num(m, w2) * tnorm_den(m, w1)
}

/// `i` is the wall the particle bounces off: it is crossed, no wall's
/// crossing comes earlier, and among equally near crossings it is the
/// first in the list.
pub open spec fn chooses(m: Line, walls: Seq<Line>, i: int) -> bool {
    &&& 0 <= i < walls.len()
    &&& hits_wall(m, walls[i])
    &&& forall|j: int|
        0 <= j < walls.len() && hits_wall(m, #[trigger] walls[j]) ==> t_le(m, walls[i], walls[j])
    &&& forall|j: int|
        0 <= j < i && hits_wall(m, #[trigger] walls[j]) ==> t_lt(m, walls[i], walls[j])
}

/// Direction of the wall's normal (not normalized): the wall's direction
/// rotated by -90 degrees.
pub open spec fn normal_x_of(w: Line) -> int {
    w.p2.y - w.p1.y
}

/// Vertical component of the wall's normal direction.
pub open spec fn normal_y_of(w: Line) -> int {
    -(w.p2.x - w.p1.x)
}

/// Squared length of the wall, which is also the squared length of its
/// normal direction.
pub open spec fn wall_norm_sq_of(w: Line) -> int {
    (w.p2.x - w.p1.x) * (w.p2.x - w.p1.x) + (w.p2.y - w.p1.y) * (w.p2.y - w.p1.y)
}

/// The velocity's component along the wall's normal direction.
pub open spec fn vdotn_of(v: Vec2, w: Line) -> int {
    v.x * normal_x_of(w) + v.y * normal_y_of(w)
}

/// Horizontal numerator of the exact reflected velocity
/// `v - 2 (v·n) n / (n·n)`, over the denominator `wall_norm_sq_of`.
pub open spec fn bounce_num_x_of(v: Vec2, w: Line) -> int {
    v.x * wall_norm_sq_of(w) - 2 * vdotn_of(v, w) * normal_x_of(w)
}

/// Vertical numerator of the exact reflected velocity.
pub open spec fn bounce_num_y_of(v: Vec2, w: Line) -> int {
    v.y * wall_norm_sq_of(w) - 2 * vdotn_of(v, w) * normal_y_of(w)
}

/// The velocity after bouncing off `w`, rounded down to the grid.
pub open spec fn post_speed_x(v: Vec2, w: Line) -> int {
    bounce_num_x_of(v, w) / wall_norm_sq_of(w)
}

/// Vertical component of the velocity after bouncing off `w`.
pub open spec fn post_speed_y(v: Vec2, w: Line) -> int {
    bounce_num_y_of(v, w) / wall_norm_sq_of(w)
}

/// The position after bouncing off `w`: the exact contact point plus the
/// exact reflected velocity carried for the remaining fraction of the
/// step, rounded down to the grid.
pub open spec fn post_pos_x(pos: Vec2, v: Vec2, delta: int, w: Line) -> int {
    let m = motion_line(pos, v.x * delta, v.y * delta);
    let tn = tnorm_num(m, w);
    let td = tnorm_den(m, w);
    let dn = wall_norm_sq_of(w);
    ((pos.x * td + (v.x * delta) * tn) * dn + bounce_num_x_of(v, w) * delta * (td - tn)) / (
    td * dn)
}

/// Vertical component of the position after bouncing off `w`.
pub open spec fn post_pos_y(pos: Vec2, v: Vec2, delta: int, w: Line) -> int {
    let m = motion_line(pos, v.x * delta, v.y * delta);
    let tn = tnorm_num(m, w);
    let td = tnorm_den(m, w);
    let dn = wall_norm_sq_of(w);
    ((pos.y * td + (v.y * delta) * tn) * dn + bounce_num_y_of(v, w) * delta * (td - tn)) / (
    td * dn)
}

impl Particle {
    /// Builds a particle from its position and velocity.
    pub fn new(position: Vec2, speed: Vec2) -> (r: Particle)
        ensures
            r.position == position,
            r.speed == speed,
    {
        Particle { position, speed }
    }

    /// Advances the particle by one step: it moves along its velocity
    /// times `delta`; if that motion crosses a wall, the velocity is
    /// reflected off the first nearest crossed wall and the particle is
    /// carried from the contact point by the remaining fraction of the
    /// step along the reflected velocity, with the exact rational outcome
    /// rounded down to the grid. At most one reflection happens per step:
    /// a particle that would bounce twice within one step is not
    /// corrected a second time.
    pub fn update(&mut self, delta: i64, walls: &Vec<Line>)
        requires
            old(self).position.in_bounds(),
            old(self).speed.in_bounds(),
            1 <= delta <= MAX_DELTA,
            forall|j: int| 0 <= j < walls@.len() ==> (#[trigger] walls@[j]).in_bounds(),
        ensures
            ({
                let m = motion_line(
                    old(self).position,
                    old(self).speed.x * delta,
                    old(self).speed.y * delta,
                );
                &&& (forall|j: int| 0 <= j < walls@.len() ==> !hits_wall(m, #[trigger] walls@[j]))
                    ==> final(self).position == m.p2 && final(self).speed == old(self).speed
                &&& (exists|j: int| 0 <= j < walls@.len() && hits_wall(m, #[trigger] walls@[j]))
                    ==> exists|i: int| chooses(m, walls@, i)
                &&& forall|i: int| #[trigger] chooses(m, walls@, i) ==> {
                    &&& final(self).position.x == post_pos_x(
                        old(self).position, old(self).speed, delta as int, walls@[i])
                    &&& final(self).position.y == post_pos_y(
                        old(self).position, old(self).speed, delta as int, walls@[i])
                    &&& final(self).speed.x == post_speed_x(old(self).speed, walls@[i])
                    &&& final(self).speed.y == post_speed_y(old(self).speed, walls@[i])
                }
            }),
    {
        let pos = self.position;
        let v = self.speed;
        proof {
            lemma_mul_bound(v.x as int, delta as int, 100_000, 1000);
            lemma_mul_bound(v.y as int, delta as int, 100_000, 1000);
        }
        let rx: i64 = v.x * delta;
        let ry: i64 = v.y * delta;
        let ghost m = motion_line(pos, rx as int, ry as int);
        proof {
            assert(m.p2.x == pos.x + rx && m.p2.y == pos.y + ry);
        }
        let hit = closest_hit(pos, rx, ry, walls);
        match hit {
            None => {
                self.position = Vec2 { x: pos.x + rx, y: pos.y + ry };
                proof {
                    assert forall|i: int| #[trigger] chooses(m, walls@, i) implies false by {
                        assert(hits_wall(m, walls@[i]));
                    }
                }
            },
            Some((bi, btn, btd)) => {
                let w = *vstd::slice::slice_index_get(walls.as_slice(), bi);
                proof {
                    assert(w == walls@[bi as int]);
                }
                let sx = w.p2.x as i128 - w.p1.x as i128;
                let sy = w.p2.y as i128 - w.p1.y as i128;
                let nx = sy;
                let ny = -sx;
                proof {
                    lemma_mul_bound(sx as int, sx as int, 200_000, 200_000);
                    lemma_mul_bound(sy as int, sy as int, 200_000, 200_000);
                }
                let dn = sx * sx + sy * sy;
                proof {
                    assert(dn == wall_norm_sq_of(w));
                    if sx == 0 && sy == 0 {
                        assert(den_of(m, w) == 0) by (nonlinear_arith)
                            requires
                                den_of(m, w) == (m.p2.x - m.p1.x) * (w.p2.y - w.p1.y) - (
                                m.p2.y - m.p1.y) * (w.p2.x - w.p1.x),
                                w.p2.x == w.p1.x,
                                w.p2.y == w.p1.y;
                        assert(false);
                    }
                    assert(dn > 0) by (nonlinear_arith)
                        requires
                            dn == sx * sx + sy * sy,
                            !(sx == 0 && sy == 0);
                }
                proof {
                    lemma_mul_bound(v.x as int, nx as int, 100_000, 200_000);
                    lemma_mul_bound(v.y as int, ny as int, 100_000, 200_000);
                }
                let vdotn = v.x as i128 * nx + v.y as i128 * ny;
                proof {
                    lemma_mul_bound(v.x as int, dn as int, 100_000, 80_000_000_000);
                    lemma_mul_bound(v.y as int, dn as int, 100_000, 80_000_000_000);
                    lemma_mul_bound(2 * vdotn as int, nx as int, 80_000_000_000, 200_000);
                    lemma_mul_bound(2 * vdotn as int, ny as int, 80_000_000_000, 200_000);
                }
                let vpx = v.x as i128 * dn - 2 * vdotn * nx;
                let vpy = v.y as i128 * dn - 2 * vdotn * ny;
                proof {
                    assert(vpx == bounce_num_x_of(v, w));
                    assert(vpy == bounce_num_y_of(v, w));
                    lemma_div_range(vpx as int, dn as int, 24_000_000_000_000_000);
                    lemma_div_range(vpy as int, dn as int, 24_000_000_000_000_000);
                    assert(24_000_000_000_000_000 * dn >= 24_000_000_000_000_000)
                        by (nonlinear_arith)
                        requires dn >= 1;
                }
                let new_vx = floor_div(vpx, dn) as i64;
                let new_vy = floor_div(vpy, dn) as i64;
                // Bound the reflected velocity against the wall's squared
                // length, so the final division stays on the grid range.
                proof {
                    let nn = nx as int * ny as int;
                    assert(ny * ny == sx * sx) by (nonlinear_arith)
                        requires ny == -sx;
                    assert(dn == nx * nx + ny * ny);
                    assert((nx - ny) * (nx - ny) == nx * nx - 2 * (nx * ny) + ny * ny
                        && (nx + ny) * (nx + ny) == nx * nx + 2 * (nx * ny) + ny * ny
                        && (nx - ny) * (nx - ny) >= 0 && (nx + ny) * (nx + ny) >= 0
                        && nx * nx >= 0 && ny * ny >= 0) by (nonlinear_arith);
                    assert(-dn <= 2 * nn <= dn);
                    assert(vdotn * nx == v.x * (nx * nx) + v.y * nn
                        && vdotn * ny == v.y * (ny * ny) + v.x * nn) by (nonlinear_arith)
                        requires
                            vdotn == v.x * nx + v.y * ny,
                            nn == nx * ny;
                    assert(-100_000 * (nx * nx) <= v.x * (nx * nx) <= 100_000 * (nx * nx))
                        by (nonlinear_arith)
                        requires
                            -100_000 <= v.x <= 100_000,
                            nx * nx >= 0;
                    assert(-100_000 * (ny * ny) <= v.y * (ny * ny) <= 100_000 * (ny * ny))
                        by (nonlinear_arith)
                        requires
                            -100_000 <= v.y <= 100_000,
                            ny * ny >= 0;
                    assert(-100_000 * dn <= 2 * (v.y * nn) <= 100_000 * dn)
                        by (nonlinear_arith)
                        requires
                            -dn <= 2 * nn <= dn,
                            -100_000 <= v.y <= 100_000,
                            dn >= 0;
                    assert(-100_000 * dn <= 2 * (v.x * nn) <= 100_000 * dn)
                        by (nonlinear_arith)
                        requires
                            -dn <= 2 * nn <= dn,
                            -100_000 <= v.x <= 100_000,
                            dn >= 0;
                    assert(-100_000 * dn <= v.x * dn <= 100_000 * dn) by (nonlinear_arith)
                        requires
                            -100_000 <= v.x <= 100_000,
                            dn >= 0;
                    assert(-100_000 * dn <= v.y * dn <= 100_000 * dn) by (nonlinear_arith)
                        requires
                            -100_000 <= v.y <= 100_000,
                            dn >= 0;
                    assert(2 * vdotn * nx == 2 * (vdotn * nx)
                        && 2 * vdotn * ny == 2 * (vdotn * ny)) by (nonlinear_arith);
                    // nx*nx and ny*ny are each at most dn, so every piece of
                    // the reflection numerator is a small multiple of dn.
                    assert(-500_000 * dn <= vpx <= 500_000 * dn);
                    assert(-500_000 * dn <= vpy <= 500_000 * dn);
                }
                proof {
                    lemma_mul_bound(pos.x as int, btd as int, 100_000, 40_000_000_000_000);
                    lemma_mul_bound(pos.y as int, btd as int, 100_000, 40_000_000_000_000);
                    lemma_mul_bound(rx as int, btn as int, 100_000_000, 40_000_000_000_000);
                    lemma_mul_bound(ry as int, btn as int, 100_000_000, 40_000_000_000_000);
                }
                let qx = pos.x as i128 * btd + rx as i128 * btn;
                let qy = pos.y as i128 * btd + ry as i128 * btn;
                proof {
                    lemma_mul_bound(qx as int, dn as int, 8_010_000_000_000_000_000_000,
                        80_000_000_000);
                    lemma_mul_bound(qy as int, dn as int, 8_010_000_000_000_000_000_000,
                        80_000_000_000);
                    lemma_mul_bound(vpx as int, delta as int, 24_000_000_000_000_000, 1000);
                    lemma_mul_bound(vpy as int, delta as int, 24_000_000_000_000_000, 1000);
                    lemma_mul_bound(vpx * delta, (btd - btn) as int,
                        24_000_000_000_000_000_000, 40_000_000_000_000);
                    lemma_mul_bound(vpy * delta, (btd - btn) as int,
                        24_000_000_000_000_000_000, 40_000_000_000_000);
                }
                let num_x = qx * dn + vpx * delta as i128 * (btd - btn);
                let num_y = qy * dn + vpy * delta as i128 * (btd - btn);
                proof {
                    lemma_mul_bound(btd as int, dn as int, 40_000_000_000_000, 80_000_000_000);
                    assert(btd * dn >= 1) by (nonlinear_arith)
                        requires btd >= 1 && dn >= 1;
                }
                let dent = btd * dn;
                // The travelled part stays within the motion segment and
                // the leftover part within one reflected step, so the
                // quotient is a small coordinate.
                proof {
                    assert(-100_100_000 * (btd * dn) <= qx * dn <= 100_100_000 * (btd * dn)
                        && -100_100_000 * (btd * dn) <= qy * dn <= 100_100_000 * (btd * dn))
                        by (nonlinear_arith)
                        requires
                            qx == pos.x * btd + rx * btn,
                            qy == pos.y * btd + ry * btn,
                            -100_000 <= pos.x <= 100_000,
                            -100_000 <= pos.y <= 100_000,
                            -100_000_000 <= rx <= 100_000_000,
                            -100_000_000 <= ry <= 100_000_000,
                            0 <= btn <= btd,
                            btd >= 1,
                            dn >= 1;
                    assert(-500_000_000 * (btd * dn) <= vpx * delta * (btd - btn)
                        <= 500_000_000 * (btd * dn) && -500_000_000 * (btd * dn)
                        <= vpy * delta * (btd - btn) <= 500_000_000 * (btd * dn))
                        by (nonlinear_arith)
                        requires
                            -500_000 * dn <= vpx <= 500_000 * dn,
                            -500_000 * dn <= vpy <= 500_000 * dn,
                            1 <= delta <= 1000,
                            0 <= btn <= btd,
                            btd >= 1,
                            dn >= 1;
                    lemma_div_range(num_x as int, dent as int, 600_100_000);
                    lemma_div_range(num_y as int, dent as int, 600_100_000);
                }
                let new_px = floor_div(num_x, dent) as i64;
                let new_py = floor_div(num_y, dent) as i64;
                self.position = Vec2 { x: new_px, y: new_py };
                self.speed = Vec2 { x: new_vx, y: new_vy };
                proof {
                    assert(chooses(m, walls@, bi as int));
                    assert forall|i: int| #[trigger] chooses(m, walls@, i) implies i == bi
                        as int by {
                        if i < bi as int {
                            assert(t_lt(m, walls@[bi as int], walls@[i]));
                            assert(t_le(m, walls@[i], walls@[bi as int]));
                        } else if i > bi as int {
                            assert(t_lt(m, walls@[i], walls@[bi as int]));
                            assert(t_le(m, walls@[bi as int], walls@[i]));
                        }
                    }
                }
            },
        }
    }
}

/// Scans the walls for the crossing nearest along the motion segment from
/// `pos` to `pos + (rx, ry)`, returning its index and the normalized
/// numerator and denominator of its motion parameter.
fn closest_hit(pos: Vec2, rx: i64, ry: i64, walls: &Vec<Line>) -> (r: Option<(usize, i128, i128)>)
    requires
        pos.in_bounds(),
        -100_000_000 <= rx <= 100_000_000,
        -100_000_000 <= ry <= 100_000_000,
        forall|j: int| 0 <= j < walls@.len() ==> (#[trigger] walls@[j]).in_bounds(),
    ensures
        r is None ==> forall|j: int|
            0 <= j < walls@.len() ==> !hits_wall(motion_line(pos, rx as int, ry as int),
                #[trigger] walls@[j]),
        r matches Some((bi, btn, btd)) ==> {
            let m = motion_line(pos, rx as int, ry as int);
            &&& (bi as int) < walls@.len()
            &&& chooses(m, walls@, bi as int)
            &&& btn == tnorm_num(m, walls@[bi as int])
            &&& btd == tnorm_den(m, walls@[bi as int])
            &&& 0 <= btn <= btd
            &&& 1 <= btd <= 40_000_000_000_000
        },
{
    let ghost m = motion_line(pos, rx as int, ry as int);
    proof {
        assert(m.p2.x == pos.x + rx && m.p2.y == pos.y + ry);
    }
    let mut found = false;
    let mut best_i: usize = 0;
    let mut btn: i128 = 0;
    let mut btd: i128 = 1;
    let mut j: usize = 0;
    while j < walls.len()
        invariant
            pos.in_bounds(),
            -100_000_000 <= rx <= 100_000_000,
            -100_000_000 <= ry <= 100_000_000,
            forall|k: int| 0 <= k < walls@.len() ==> (#[trigger] walls@[k]).in_bounds(),
            m == motion_line(pos, rx as int, ry as int),
            m.p2.x == pos.x + rx && m.p2.y == pos.y + ry,
            0 <= j <= walls@.len(),
            !found ==> forall|k: int|
                0 <= k < j ==> !hits_wall(m, #[trigger] walls@[k]),
            found ==> {
                &&& (best_i as int) < j
                &&& hits_wall(m, walls@[best_i as int])
                &&& btn == tnorm_num(m, walls@[best_i as int])
                &&& btd == tnorm_den(m, walls@[best_i as int])
                &&& 0 <= btn <= btd
                &&& 1 <= btd <= 40_000_000_000_000
                &&& forall|k: int|
                    0 <= k < j && hits_wall(m, #[trigger] walls@[k]) ==> t_le(
                        m, walls@[best_i as int], walls@[k])
                &&& forall|k: int|
                    0 <= k < best_i as int && hits_wall(m, #[trigger] walls@[k]) ==> t_lt(
                        m, walls@[best_i as int], walls@[k])
            },
        decreases walls@.len() - j,
    {
        let w = *vstd::slice::slice_index_get(walls.as_slice(), j);
        proof {
            assert(w == walls@[j as int]);
        }
        let sx = w.p2.x as i128 - w.p1.x as i128;
        let sy = w.p2.y as i128 - w.p1.y as i128;
        proof {
            lemma_mul_bound(rx as int, sy as int, 100_000_000, 200_000);
            lemma_mul_bound(ry as int, sx as int, 100_000_000, 200_000);
        }
        let den = rx as i128 * sy - ry as i128 * sx;
        proof {
            assert(den == den_of(m, w));
        }
        if den != 0 {
            let qpx = w.p1.x as i128 - pos.x as i128;
            let qpy = w.p1.y as i128 - pos.y as i128;
            proof {
                lemma_mul_bound(qpx as int, sy as int, 200_000, 200_000);
                lemma_mul_bound(qpy as int, sx as int, 200_000, 200_000);
                lemma_mul_bound(qpx as int, ry as int, 200_000, 100_000_000);
                lemma_mul_bound(qpy as int, rx as int, 200_000, 100_000_000);
            }
            let t_num = qpx * sy - qpy * sx;
            let u_num = qpx * ry as i128 - qpy * rx as i128;
            proof {
                assert(t_num == t_num_of(m, w));
                assert(u_num == u_num_of(m, w));
            }
            let (tn, td) = if den > 0 {
                (t_num, den)
            } else {
                (-t_num, -den)
            };
            let un = if den > 0 {
                u_num
            } else {
                -u_num
            };
            proof {
                assert(tn == tnorm_num(m, w) && td == tnorm_den(m, w));
                assert(td <= 40_000_000_000_000);
            }
            if 0 <= tn && tn <= td && 0 <= un && un <= td {
                proof {
                    assert(hits_wall(m, w));
                }
                if !found {
                    found = true;
                    best_i = j;
                    btn = tn;
                    btd = td;
                } else {
                    proof {
                        lemma_mul_bound(tn as int, btd as int, 40_000_000_000_000,
                            40_000_000_000_000);
                        lemma_mul_bound(btn as int, td as int, 40_000_000_000_000,
                            40_000_000_000_000);
                    }
                    if tn * btd < btn * td {
                        proof {
                            assert forall|k: int|
                                0 <= k < j && hits_wall(m, #[trigger] walls@[k]) implies t_lt(
                                m, walls@[j as int], walls@[k]) by {
                                lemma_t_lt_le_trans(m, walls@[j as int],
                                    walls@[best_i as int], walls@[k]);
                            }
                        }
                        found = true;
                        best_i = j;
                        btn = tn;
                        btd = td;
                    }
                }
            } else {
                proof {
                    assert(!hits_wall(m, w));
                }
            }
        } else {
            proof {
                assert(!hits_wall(m, w));
            }
        }
        j = j + 1;
    }
    if found {
        Some((best_i, btn, btd))
    } else {
        None
    }
}

/// Strict-then-weak transitivity of the crossing order along the motion.
proof fn lemma_t_lt_le_trans(m: Line, a: Line, b: Line, c: Line)
    requires
        tnorm_den(m, a) > 0,
        tnorm_den(m, b) > 0,
        tnorm_den(m, c) > 0,
        t_lt(m, a, b),
        t_le(m, b, c),
    ensures
        t_lt(m, a, c),
        t_le(m, a, c),
{
    let na = tnorm_num(m, a);
    let nb = tnorm_num(m, b);
    let nc = tnorm_num(m, c);
    let da = tnorm_den(m, a);
    let db = tnorm_den(m, b);
    let dc = tnorm_den(m, c);
    assert(na * dc < nc * da) by (nonlinear_arith)
        requires
            na * db < nb * da,
            nb * dc <= nc * db,
            da > 0,
            db > 0,
            dc > 0;
}

/// A particle at rest stays at rest: a zero velocity makes the motion
/// segment degenerate, which crosses no wall, so the step leaves the
/// position unchanged.
pub proof fn lemma_zero_speed_no_bounce(pos: Vec2, v: Vec2, delta: int, walls: Seq<Line>)
    requires
        v.x == 0,
        v.y == 0,
        pos.in_bounds(),
    ensures
        motion_line(pos, v.x * delta, v.y * delta).p2 == pos,
        forall|j: int|
            0 <= j < walls.len() ==> !hits_wall(motion_line(pos, v.x * delta, v.y * delta),
                #[trigger] walls[j]),
{
    let m = motion_line(pos, v.x * delta, v.y * delta);
    assert(v.x * delta == 0) by (nonlinear_arith)
        requires v.x == 0;
    assert(v.y * delta == 0) by (nonlinear_arith)
        requires v.y == 0;
    assert(m.p2.x == pos.x && m.p2.y == pos.y);
    assert forall|j: int|
        0 <= j < walls.len() implies !hits_wall(m, #[trigger] walls[j]) by {
        let w = walls[j];
        assert(den_of(m, w) == 0) by (nonlinear_arith)
            requires
                den_of(m, w) == (m.p2.x - m.p1.x) * (w.p2.y - w.p1.y) - (m.p2.y - m.p1.y) * (
                w.p2.x - w.p1.x),
                m.p2.x == m.p1.x,
                m.p2.y == m.p1.y;
    }
}

/// A velocity aimed straight along a wall's normal is exactly negated by
/// the bounce: the grid rounding is exact in this case.
pub proof fn lemma_perpendicular_bounce(v: Vec2, w: Line, k: int)
    requires
        wall_norm_sq_of(w) > 0,
        v.x == k * normal_x_of(w),
        v.y == k * normal_y_of(w),
    ensures
        post_speed_x(v, w) == -v.x,
        post_speed_y(v, w) == -v.y,
{
    let nx = normal_x_of(w);
    let ny = normal_y_of(w);
    let dn = wall_norm_sq_of(w);
    assert(dn == nx * nx + ny * ny) by (nonlinear_arith)
        requires
            dn == (w.p2.x - w.p1.x) * (w.p2.x - w.p1.x) + (w.p2.y - w.p1.y) * (w.p2.y
                - w.p1.y),
            nx == w.p2.y - w.p1.y,
            ny == -(w.p2.x - w.p1.x);
    assert(vdotn_of(v, w) == k * dn) by (nonlinear_arith)
        requires
            vdotn_of(v, w) == v.x * nx + v.y * ny,
            v.x == k * nx,
            v.y == k * ny,
            dn == nx * nx + ny * ny;
    assert(bounce_num_x_of(v, w) == dn * (-v.x)) by (nonlinear_arith)
        requires
            bounce_num_x_of(v, w) == v.x * dn - 2 * (k * dn) * nx,
            v.x == k * nx;
    assert(bounce_num_y_of(v, w) == dn * (-v.y)) by (nonlinear_arith)
        requires
            bounce_num_y_of(v, w) == v.y * dn - 2 * (k * dn) * ny,
            v.y == k * ny;
    vstd::arithmetic::div_mod::lemma_div_multiples_vanish(-v.x as int, dn);
    vstd::arithmetic::div_mod::lemma_div_multiples_vanish(-v.y as int, dn);
}

} // verus!
