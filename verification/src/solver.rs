//! The solver: gravity and ad hoc forces, the per-particle phases of a
//! sub-step, and the boundary constraint.  Each phase has an exact
//! per-particle functional model stated in its contract.

use vstd::prelude::*;
use vstd::arithmetic::div_mod::lemma_div_basics;
use crate::fixed::{
    div_trunc, isqrt_u128, lemma_mul_le_bounds, lemma_sqrt_ge_component, lemma_square_le,
    sqrt_floor, trunc_div_i128, trunc_div_i64, SCALE,
};
use crate::collision::{find_collisions, no_overlapping_pair, pos_envelope, same_but_position};
use crate::particle::{integrate_model, valid_radius, Vec2, VerletObject, MAX_ACCEL, MAX_POS};

verus! {

/// Restitution on boundary contact: the reflected velocity component keeps
/// three tenths of its magnitude.
pub const RESTITUTION_NUM: i64 = 3;

/// Denominator of the restitution ratio.
pub const RESTITUTION_DEN: i64 = 10;

/// Friction applied to the tangential velocity component on boundary
/// contact: currently one (no loss), kept as an extension point.
pub const FRICTION_NUM: i64 = 1;

/// Denominator of the friction ratio.
pub const FRICTION_DEN: i64 = 1;

/// Largest admissible sub-step count: an overflow envelope, not a physical
/// rule.
pub const MAX_SUBSTEPS: i64 = 2048;

/// The solver's own state: gravity, the rectangular domain (mutable between
/// frames as the host window resizes), the sub-step count, and the optional
/// cohesion and repulsion multipliers kept as extension points.
pub struct Solver {
    pub gravity: Vec2,
    pub width: i64,
    pub height: i64,
    pub substeps: i64,
    pub cohesion: i64,
    pub repulsion: i64,
}

/// The state `apply_gravity` leaves a particle in: the solver's gravity
/// added to the acceleration accumulator.
pub open spec fn accel_model(p: VerletObject, g: Vec2) -> VerletObject {
    VerletObject {
        position_current: p.position_current,
        position_old: p.position_old,
        acceleration: Vec2 {
            x: (p.acceleration.x + g.x) as i64,
            y: (p.acceleration.y + g.y) as i64,
        },
        radius: p.radius,
        col: p.col,
    }
}

/// The state `apply_arbituary_force` leaves a particle in: the force vector
/// added to the current position as an instantaneous displacement, the old
/// position untouched, so the shift is absorbed as an implicit velocity
/// change at the next integration step.
pub open spec fn displace_model(p: VerletObject, f: Vec2) -> VerletObject {
    VerletObject {
        position_current: Vec2 {
            x: (p.position_current.x + f.x) as i64,
            y: (p.position_current.y + f.y) as i64,
        },
        position_old: p.position_old,
        acceleration: p.acceleration,
        radius: p.radius,
        col: p.col,
    }
}

/// The state `apply_point_arbituary_force` leaves a particle in.  Within the
/// falloff radius of `center`, the particle is displaced one world unit
/// along the normalized vector from `center` to it: outward for a positive
/// falloff, inward for a negative one.  A particle exactly at `center` is
/// left in place (the normal is undefined there), as is one at or beyond
/// the falloff distance.
pub open spec fn radial_model(p: VerletObject, center: Vec2, fall_off: int) -> VerletObject {
    let dx = p.position_current.x - center.x;
    let dy = p.position_current.y - center.y;
    let d2 = dx * dx + dy * dy;
    let fa = if fall_off >= 0 { fall_off } else { -fall_off };
    if d2 == 0 || d2 >= fa * fa {
        p
    } else {
        let mag = sqrt_floor(d2);
        let ux = div_trunc(dx * SCALE, mag);
        let uy = div_trunc(dy * SCALE, mag);
        let sx = if fall_off > 0 { ux } else { -ux };
        let sy = if fall_off > 0 { uy } else { -uy };
        VerletObject {
            position_current: Vec2 {
                x: (p.position_current.x + sx) as i64,
                y: (p.position_current.y + sy) as i64,
            },
            position_old: p.position_old,
            acceleration: p.acceleration,
            radius: p.radius,
            col: p.col,
        }
    }
}

/// A velocity component reflected off a wall: negated and scaled by the
/// restitution ratio, rounded toward zero.
pub open spec fn reflect(v: int) -> int {
    -div_trunc(v * RESTITUTION_NUM, RESTITUTION_DEN as int)
}

/// A velocity component rubbed by wall friction on the other axis: scaled by
/// the friction ratio, rounded toward zero.
pub open spec fn rub(v: int) -> int {
    div_trunc(v * FRICTION_NUM, FRICTION_DEN as int)
}

/// The state `apply_constraint` leaves a particle in.  Per axis, in order:
/// a position beyond the upper wall `extent - radius` is clamped to it and
/// the derived velocity component reflected; then the same against the lower
/// wall at `radius`; a hit on an axis rubs the other axis's component.  The
/// old position is finally recomputed as `position - velocity` so the
/// adjusted velocity is carried implicitly into the next integration step.
pub open spec fn constrain_model(p: VerletObject, width: int, height: int) -> VerletObject {
    let vx0 = p.position_current.x - p.position_old.x;
    let vy0 = p.position_current.y - p.position_old.y;
    let cx1 = p.position_current.x > width - p.radius;
    let px1 = if cx1 { width - p.radius } else { p.position_current.x as int };
    let vx1 = if cx1 { reflect(vx0) } else { vx0 };
    let cx2 = px1 < p.radius;
    let px2 = if cx2 { p.radius as int } else { px1 };
    let vx2 = if cx2 { reflect(vx1) } else { vx1 };
    let vy1 = if cx1 || cx2 { rub(vy0) } else { vy0 };
    let cy1 = p.position_current.y > height - p.radius;
    let py1 = if cy1 { height - p.radius } else { p.position_current.y as int };
    let vy2 = if cy1 { reflect(vy1) } else { vy1 };
    let cy2 = py1 < p.radius;
    let py2 = if cy2 { p.radius as int } else { py1 };
    let vy3 = if cy2 { reflect(vy2) } else { vy2 };
    let vx3 = if cy1 || cy2 { rub(vx2) } else { vx2 };
    VerletObject {
        position_current: Vec2 { x: px2 as i64, y: py2 as i64 },
        position_old: Vec2 { x: (px2 - vx3) as i64, y: (py2 - vy3) as i64 },
        acceleration: p.acceleration,
        radius: p.radius,
        col: p.col,
    }
}

/// A reflected component is no larger in magnitude than the original.
pub proof fn lemma_reflect_bound(v: int, m: int)
    requires
        -m <= v <= m,
        0 <= m,
    ensures
        -m <= reflect(v) <= m,
{
    if v >= 0 {
        crate::fixed::lemma_div_bound(v * 3, 10, m + 1);
        vstd::arithmetic::div_mod::lemma_div_pos_is_pos(v * 3, 10);
    } else {
        crate::fixed::lemma_div_bound((-v) * 3, 10, m + 1);
        vstd::arithmetic::div_mod::lemma_div_pos_is_pos((-v) * 3, 10);
    }
}

/// Friction at ratio one returns the component unchanged.
pub proof fn lemma_rub_identity(v: int)
    ensures
        rub(v) == v,
{
    if v >= 0 {
        lemma_div_basics(v);
    } else {
        lemma_div_basics(-v);
    }
}

impl Solver {
    /// Builds a solver.  A non-positive sub-step count would divide the
    /// frame timestep by zero and is a programmer error, rejected here.
    pub fn new(
        gravity: Vec2,
        width: i64,
        height: i64,
        substeps: i64,
        cohesion: i64,
        repulsion: i64,
    ) -> (s: Solver)
        requires
            1 <= substeps <= MAX_SUBSTEPS,
            0 <= width <= MAX_POS,
            0 <= height <= MAX_POS,
            -MAX_ACCEL <= gravity.x <= MAX_ACCEL,
            -MAX_ACCEL <= gravity.y <= MAX_ACCEL,
        ensures
            s.gravity == gravity,
            s.width == width,
            s.height == height,
            s.substeps == substeps,
            s.cohesion == cohesion,
            s.repulsion == repulsion,
    {
        Solver { gravity, width, height, substeps, cohesion, repulsion }
    }

    /// Adds `force_vector` to every particle's current position, leaving
    /// every old position (and everything else) unchanged in this call.
    #[verifier::loop_isolation(false)]
    pub fn apply_arbituary_force(
        &mut self,
        particles: &mut Vec<VerletObject>,
        force_vector: Vec2,
    )
        requires
            forall|j: int| #![trigger old(particles)@[j]]
                0 <= j < old(particles)@.len() ==> {
                    &&& i64::MIN <= old(particles)@[j].position_current.x + force_vector.x
                        <= i64::MAX
                    &&& i64::MIN <= old(particles)@[j].position_current.y + force_vector.y
                        <= i64::MAX
                },
        ensures
            *final(self) == *old(self),
            final(particles)@.len() == old(particles)@.len(),
            forall|j: int| #![trigger final(particles)@[j]]
                0 <= j < old(particles)@.len() ==> final(particles)@[j] == displace_model(
                    old(particles)@[j],
                    force_vector,
                ),
    {
        let n = particles.len();
        let mut i: usize = 0;
        while i < n
            invariant
                i <= n,
                particles@.len() == n,
                forall|j: int| #![trigger particles@[j]]
                    0 <= j < i ==> particles@[j] == displace_model(
                        old(particles)@[j],
                        force_vector,
                    ),
                forall|j: int| #![trigger particles@[j]]
                    i <= j < n ==> particles@[j] == old(particles)@[j],
            decreases n - i,
        {
            let mut p = particles[i];
            p.position_current.x = p.position_current.x + force_vector.x;
            p.position_current.y = p.position_current.y + force_vector.y;
            particles[i] = p;
            i = i + 1;
        }
    }

    /// Displaces every particle within the falloff distance of `position` by
    /// one world unit along the normal from `position`, outward when
    /// `fall_off` is positive and inward when it is negative.
    #[verifier::loop_isolation(false)]
    pub fn apply_point_arbituary_force(
        &mut self,
        particles: &mut Vec<VerletObject>,
        position: Vec2,
        fall_off: i64,
    )
        requires
            fall_off > i64::MIN,
            -0x1000_0000_0000_0000 <= position.x <= 0x1000_0000_0000_0000,
            -0x1000_0000_0000_0000 <= position.y <= 0x1000_0000_0000_0000,
            forall|j: int| #![trigger old(particles)@[j]]
                0 <= j < old(particles)@.len() ==> {
                    &&& -0x1000_0000_0000_0000 <= old(particles)@[j].position_current.x
                        <= 0x1000_0000_0000_0000
                    &&& -0x1000_0000_0000_0000 <= old(particles)@[j].position_current.y
                        <= 0x1000_0000_0000_0000
                },
        ensures
            *final(self) == *old(self),
            final(particles)@.len() == old(particles)@.len(),
            forall|j: int| #![trigger final(particles)@[j]]
                0 <= j < old(particles)@.len() ==> final(particles)@[j] == radial_model(
                    old(particles)@[j],
                    position,
                    fall_off as int,
                ),
    {
        let n = particles.len();
        let mut i: usize = 0;
        while i < n
            invariant
                i <= n,
                particles@.len() == n,
                forall|j: int| #![trigger particles@[j]]
                    0 <= j < i ==> particles@[j] == radial_model(
                        old(particles)@[j],
                        position,
                        fall_off as int,
                    ),
                forall|j: int| #![trigger particles@[j]]
                    i <= j < n ==> particles@[j] == old(particles)@[j],
            decreases n - i,
        {
            let mut p = particles[i];
            let dx = p.position_current.x - position.x;
            let dy = p.position_current.y - position.y;
            proof {
                lemma_square_le(dx as int, 0x2000_0000_0000_0000);
                lemma_square_le(dy as int, 0x2000_0000_0000_0000);
            }
            let d2: i128 = (dx as i128) * (dx as i128) + (dy as i128) * (dy as i128);
            let fa: i64 = if fall_off >= 0 {
                fall_off
            } else {
                -fall_off
            };
            proof {
                lemma_square_le(fa as int, 0x7fff_ffff_ffff_ffff);
            }
            let fa2: i128 = (fa as i128) * (fa as i128);
            if d2 != 0 && d2 < fa2 {
                let mag: u128 = isqrt_u128(d2 as u128);
                proof {
                    lemma_mul_le_bounds(dx as int, SCALE as int, 0x2000_0000_0000_0000, SCALE as int);
                    lemma_mul_le_bounds(dy as int, SCALE as int, 0x2000_0000_0000_0000, SCALE as int);
                    lemma_sqrt_ge_component(dx as int, dy as int);
                    lemma_unit_component_bound(dx as int, dy as int);
                    lemma_unit_component_bound(dy as int, dx as int);
                }
                let ux: i64 = trunc_div_i128((dx as i128) * (SCALE as i128), mag as i128) as i64;
                let uy: i64 = trunc_div_i128((dy as i128) * (SCALE as i128), mag as i128) as i64;
                if fall_off > 0 {
                    p.position_current.x = p.position_current.x + ux;
                    p.position_current.y = p.position_current.y + uy;
                } else {
                    p.position_current.x = p.position_current.x - ux;
                    p.position_current.y = p.position_current.y - uy;
                }
            }
            particles[i] = p;
            i = i + 1;
        }
    }
}

/// The adjusted derived velocity of `q` is componentwise no larger in
/// magnitude than the derived velocity of `p`.
pub open spec fn vel_within(q: VerletObject, p: VerletObject) -> bool {
    &&& vstd::math::abs(q.position_current.x - q.position_old.x) <= vstd::math::abs(
        p.position_current.x - p.position_old.x,
    )
    &&& vstd::math::abs(q.position_current.y - q.position_old.y) <= vstd::math::abs(
        p.position_current.y - p.position_old.y,
    )
}

/// A velocity component reflected off a wall.
fn reflect_component(v: i64) -> (r: i64)
    requires
        -0x2000_0000_0000_0000 <= v <= 0x2000_0000_0000_0000,
    ensures
        r == reflect(v as int),
        -vstd::math::abs(v as int) <= r <= vstd::math::abs(v as int),
{
    proof {
        if v >= 0 {
            lemma_reflect_bound(v as int, v as int);
        } else {
            lemma_reflect_bound(v as int, -(v as int));
        }
    }
    -trunc_div_i64(v * RESTITUTION_NUM, RESTITUTION_DEN)
}

/// A velocity component rubbed by wall friction; at the current ratio of
/// one this returns the component unchanged.
fn rub_component(v: i64) -> (r: i64)
    requires
        v > i64::MIN,
    ensures
        r == rub(v as int),
        r == v,
{
    proof {
        lemma_rub_identity(v as int);
    }
    trunc_div_i64(v * FRICTION_NUM, FRICTION_DEN)
}

/// Clamps one particle to the rectangular domain
/// `[radius, width - radius] x [radius, height - radius]`, reflecting and
/// dampening the derived velocity on contact.
pub fn constrain_one(p: VerletObject, width: i64, height: i64) -> (q: VerletObject)
    requires
        valid_radius(p),
        0 <= width <= MAX_POS,
        0 <= height <= MAX_POS,
        -0x1000_0000_0000_0000 <= p.position_current.x <= 0x1000_0000_0000_0000,
        -0x1000_0000_0000_0000 <= p.position_current.y <= 0x1000_0000_0000_0000,
        -0x1000_0000_0000_0000 <= p.position_old.x <= 0x1000_0000_0000_0000,
        -0x1000_0000_0000_0000 <= p.position_old.y <= 0x1000_0000_0000_0000,
    ensures
        q == constrain_model(p, width as int, height as int),
        0 < q.position_current.x <= MAX_POS,
        0 < q.position_current.y <= MAX_POS,
        2 * p.radius <= width ==> p.radius <= q.position_current.x <= width - p.radius,
        2 * p.radius <= height ==> p.radius <= q.position_current.y <= height - p.radius,
        vel_within(q, p),
{
    let vx0 = p.position_current.x - p.position_old.x;
    let vy0 = p.position_current.y - p.position_old.y;
    let mut px = p.position_current.x;
    let mut vx = vx0;
    let mut hit_x = false;
    if px > width - p.radius {
        px = width - p.radius;
        vx = reflect_component(vx);
        hit_x = true;
    }
    if px < p.radius {
        px = p.radius;
        vx = reflect_component(vx);
        hit_x = true;
    }
    let mut vy = vy0;
    if hit_x {
        vy = rub_component(vy);
    }
    let mut py = p.position_current.y;
    let mut hit_y = false;
    if py > height - p.radius {
        py = height - p.radius;
        vy = reflect_component(vy);
        hit_y = true;
    }
    if py < p.radius {
        py = p.radius;
        vy = reflect_component(vy);
        hit_y = true;
    }
    if hit_y {
        vx = rub_component(vx);
    }
    VerletObject {
        position_current: Vec2 { x: px, y: py },
        position_old: Vec2 { x: px - vx, y: py - vy },
        acceleration: p.acceleration,
        radius: p.radius,
        col: p.col,
    }
}

impl Solver {
    /// Adds the solver's gravity vector to every particle's acceleration
    /// accumulator.
    #[verifier::loop_isolation(false)]
    pub fn apply_gravity(&self, particles: &mut Vec<VerletObject>)
        requires
            forall|j: int| #![trigger old(particles)@[j]]
                0 <= j < old(particles)@.len() ==> {
                    &&& i64::MIN <= old(particles)@[j].acceleration.x + self.gravity.x <= i64::MAX
                    &&& i64::MIN <= old(particles)@[j].acceleration.y + self.gravity.y <= i64::MAX
                },
        ensures
            final(particles)@.len() == old(particles)@.len(),
            forall|j: int| #![trigger final(particles)@[j]]
                0 <= j < old(particles)@.len() ==> final(particles)@[j] == accel_model(
                    old(particles)@[j],
                    self.gravity,
                ),
    {
        let n = particles.len();
        let mut i: usize = 0;
        while i < n
            invariant
                i <= n,
                particles@.len() == n,
                forall|j: int| #![trigger particles@[j]]
                    0 <= j < i ==> particles@[j] == accel_model(old(particles)@[j], self.gravity),
                forall|j: int| #![trigger particles@[j]]
                    i <= j < n ==> particles@[j] == old(particles)@[j],
            decreases n - i,
        {
            let mut p = particles[i];
            p.accelerate(self.gravity);
            particles[i] = p;
            i = i + 1;
        }
    }

    /// Advances every particle by one Verlet integration step.
    #[verifier::loop_isolation(false)]
    pub fn update_positions(&self, particles: &mut Vec<VerletObject>, dt: i64)
        requires
            0 <= dt <= SCALE,
            forall|j: int| #![trigger old(particles)@[j]]
                0 <= j < old(particles)@.len() ==> {
                    &&& -0x1000_0000_0000_0000 <= old(particles)@[j].position_current.x
                        <= 0x1000_0000_0000_0000
                    &&& -0x1000_0000_0000_0000 <= old(particles)@[j].position_current.y
                        <= 0x1000_0000_0000_0000
                    &&& -0x1000_0000_0000_0000 <= old(particles)@[j].position_old.x
                        <= 0x1000_0000_0000_0000
                    &&& -0x1000_0000_0000_0000 <= old(particles)@[j].position_old.y
                        <= 0x1000_0000_0000_0000
                    &&& -0x1000_0000_0000 <= old(particles)@[j].acceleration.x <= 0x1000_0000_0000
                    &&& -0x1000_0000_0000 <= old(particles)@[j].acceleration.y <= 0x1000_0000_0000
                },
        ensures
            final(particles)@.len() == old(particles)@.len(),
            forall|j: int| #![trigger final(particles)@[j]]
                0 <= j < old(particles)@.len() ==> final(particles)@[j] == integrate_model(
                    old(particles)@[j],
                    dt as int,
                ),
    {
        let n = particles.len();
        let mut i: usize = 0;
        while i < n
            invariant
                i <= n,
                particles@.len() == n,
                forall|j: int| #![trigger particles@[j]]
                    0 <= j < i ==> particles@[j] == integrate_model(old(particles)@[j], dt as int),
                forall|j: int| #![trigger particles@[j]]
                    i <= j < n ==> particles@[j] == old(particles)@[j],
            decreases n - i,
        {
            let mut p = particles[i];
            p.update_position(dt);
            particles[i] = p;
            i = i + 1;
        }
    }

    /// Clamps every particle to the rectangular domain, reflecting and
    /// dampening its derived velocity on boundary contact.
    #[verifier::loop_isolation(false)]
    pub fn apply_constraint(&self, particles: &mut Vec<VerletObject>)
        requires
            0 <= self.width <= MAX_POS,
            0 <= self.height <= MAX_POS,
            forall|j: int| #![trigger old(particles)@[j]]
                0 <= j < old(particles)@.len() ==> {
                    &&& valid_radius(old(particles)@[j])
                    &&& -0x1000_0000_0000_0000 <= old(particles)@[j].position_current.x
                        <= 0x1000_0000_0000_0000
                    &&& -0x1000_0000_0000_0000 <= old(particles)@[j].position_current.y
                        <= 0x1000_0000_0000_0000
                    &&& -0x1000_0000_0000_0000 <= old(particles)@[j].position_old.x
                        <= 0x1000_0000_0000_0000
                    &&& -0x1000_0000_0000_0000 <= old(particles)@[j].position_old.y
                        <= 0x1000_0000_0000_0000
                },
        ensures
            final(particles)@.len() == old(particles)@.len(),
            forall|j: int| #![trigger final(particles)@[j]]
                0 <= j < old(particles)@.len() ==> {
                    &&& final(particles)@[j] == constrain_model(
                        old(particles)@[j],
                        self.width as int,
                        self.height as int,
                    )
                    &&& 0 < final(particles)@[j].position_current.x <= MAX_POS
                    &&& 0 < final(particles)@[j].position_current.y <= MAX_POS
                    &&& (2 * old(particles)@[j].radius <= self.width ==> old(particles)@[j].radius
                        <= final(particles)@[j].position_current.x <= self.width - old(
                        particles,
                    )@[j].radius)
                    &&& (2 * old(particles)@[j].radius <= self.height ==> old(particles)@[j].radius
                        <= final(particles)@[j].position_current.y <= self.height - old(
                        particles,
                    )@[j].radius)
                    &&& vel_within(final(particles)@[j], old(particles)@[j])
                },
    {
        let n = particles.len();
        let mut i: usize = 0;
        while i < n
            invariant
                i <= n,
                particles@.len() == n,
                forall|j: int| #![trigger particles@[j]]
                    0 <= j < i ==> {
                        &&& particles@[j] == constrain_model(
                            old(particles)@[j],
                            self.width as int,
                            self.height as int,
                        )
                        &&& 0 < particles@[j].position_current.x <= MAX_POS
                        &&& 0 < particles@[j].position_current.y <= MAX_POS
                        &&& (2 * old(particles)@[j].radius <= self.width ==> old(
                            particles,
                        )@[j].radius <= particles@[j].position_current.x <= self.width - old(
                            particles,
                        )@[j].radius)
                        &&& (2 * old(particles)@[j].radius <= self.height ==> old(
                            particles,
                        )@[j].radius <= particles@[j].position_current.y <= self.height - old(
                            particles,
                        )@[j].radius)
                        &&& vel_within(particles@[j], old(particles)@[j])
                    },
                forall|j: int| #![trigger particles@[j]]
                    i <= j < n ==> particles@[j] == old(particles)@[j],
            decreases n - i,
        {
            let p = particles[i];
            let q = constrain_one(p, self.width, self.height);
            particles[i] = q;
            i = i + 1;
        }
    }
}

/// One sub-step of the solver for a particle with no neighbor to collide
/// with: gravity, integration, and the boundary constraint (the collision
/// phase cannot move a lone particle).
pub open spec fn substep_single(p: VerletObject, g: Vec2, dt: int, w: int, h: int) -> VerletObject {
    constrain_model(integrate_model(accel_model(p, g), dt), w, h)
}

/// `k` sub-steps of the solver for a lone particle.
pub open spec fn substeps_single(
    p: VerletObject,
    g: Vec2,
    dt: int,
    w: int,
    h: int,
    k: int,
) -> VerletObject
    decreases k,
{
    if k <= 0 {
        p
    } else {
        substeps_single(substep_single(p, g, dt, w, h), g, dt, w, h, k - 1)
    }
}

/// Iterating one more sub-step is the same as applying one sub-step to the
/// result of the iteration.
pub proof fn lemma_substeps_single_snoc(
    p: VerletObject,
    g: Vec2,
    dt: int,
    w: int,
    h: int,
    k: int,
)
    requires
        k >= 0,
    ensures
        substeps_single(p, g, dt, w, h, k + 1) == substep_single(
            substeps_single(p, g, dt, w, h, k),
            g,
            dt,
            w,
            h,
        ),
    decreases k,
{
    let p1 = substep_single(p, g, dt, w, h);
    assert(substeps_single(p, g, dt, w, h, k + 1) == substeps_single(p1, g, dt, w, h, k));
    if k == 0 {
        assert(substeps_single(p1, g, dt, w, h, 0) == p1);
        assert(substeps_single(p, g, dt, w, h, 0) == p);
    } else {
        lemma_substeps_single_snoc(p1, g, dt, w, h, k - 1);
        assert(substeps_single(p, g, dt, w, h, k) == substeps_single(p1, g, dt, w, h, k - 1));
    }
}

/// Every particle is at rest (current and old position equal), lies inside
/// the walls of the `w` by `h` domain, and no distinct pair collides: a
/// configuration that a sub-step with a zero timestep must not disturb.
pub open spec fn resting_state(ps: Seq<VerletObject>, w: int, h: int) -> bool {
    &&& forall|j: int| #![trigger ps[j]]
        0 <= j < ps.len() ==> {
            &&& ps[j].position_current == ps[j].position_old
            &&& ps[j].radius <= ps[j].position_current.x <= w - ps[j].radius
            &&& ps[j].radius <= ps[j].position_current.y <= h - ps[j].radius
        }
    &&& no_overlapping_pair(ps)
}

impl Solver {
    /// One frame: `substeps` sub-steps, each applying gravity, integrating
    /// with the frame timestep divided by the sub-step count, rebuilding the
    /// spatial grid at cell size `density` and resolving collisions, and
    /// enforcing the boundary constraint.
    ///
    /// The envelope on the old positions admits derived velocities of about
    /// a thousand world units per sub-step; the envelope on the result is
    /// wider, since gravity and collisions may grow the velocity.
    #[verifier::loop_isolation(false)]
    #[verifier::rlimit(100)]
    pub fn update(&mut self, particles: &mut Vec<VerletObject>, dt: i64, density: i64)
        requires
            1 <= old(self).substeps <= MAX_SUBSTEPS,
            0 <= old(self).width <= MAX_POS,
            0 <= old(self).height <= MAX_POS,
            -MAX_ACCEL <= old(self).gravity.x <= MAX_ACCEL,
            -MAX_ACCEL <= old(self).gravity.y <= MAX_ACCEL,
            0 <= dt <= SCALE,
            density >= 1,
            forall|j: int| #![trigger old(particles)@[j]]
                0 <= j < old(particles)@.len() ==> {
                    &&& valid_radius(old(particles)@[j])
                    &&& -MAX_POS <= old(particles)@[j].position_current.x <= MAX_POS
                    &&& -MAX_POS <= old(particles)@[j].position_current.y <= MAX_POS
                    &&& -0x40_0000_0000_0000 <= old(particles)@[j].position_old.x
                        <= 0x40_0000_0000_0000
                    &&& -0x40_0000_0000_0000 <= old(particles)@[j].position_old.y
                        <= 0x40_0000_0000_0000
                    &&& -MAX_ACCEL <= old(particles)@[j].acceleration.x <= MAX_ACCEL
                    &&& -MAX_ACCEL <= old(particles)@[j].acceleration.y <= MAX_ACCEL
                },
        ensures
            *final(self) == *old(self),
            final(particles)@.len() == old(particles)@.len(),
            forall|j: int| #![trigger final(particles)@[j]]
                0 <= j < old(particles)@.len() ==> {
                    &&& final(particles)@[j].radius == old(particles)@[j].radius
                    &&& valid_radius(final(particles)@[j])
                    &&& final(particles)@[j].acceleration.x == 0
                    &&& final(particles)@[j].acceleration.y == 0
                    &&& 0 < final(particles)@[j].position_current.x <= MAX_POS
                    &&& 0 < final(particles)@[j].position_current.y <= MAX_POS
                    &&& (2 * old(particles)@[j].radius <= old(self).width ==> old(
                        particles,
                    )@[j].radius <= final(particles)@[j].position_current.x <= old(self).width
                        - old(particles)@[j].radius)
                    &&& (2 * old(particles)@[j].radius <= old(self).height ==> old(
                        particles,
                    )@[j].radius <= final(particles)@[j].position_current.y <= old(self).height
                        - old(particles)@[j].radius)
                    &&& -0x440_0000_0000_0000 <= final(particles)@[j].position_old.x
                        <= 0x440_0000_0000_0000
                    &&& -0x440_0000_0000_0000 <= final(particles)@[j].position_old.y
                        <= 0x440_0000_0000_0000
                },
            ((dt as int) / (old(self).substeps as int) == 0 && resting_state(
                old(particles)@,
                old(self).width as int,
                old(self).height as int,
            )) ==> forall|j: int| #![trigger final(particles)@[j]]
                0 <= j < old(particles)@.len() ==> {
                    &&& final(particles)@[j].position_current == old(
                        particles,
                    )@[j].position_current
                    &&& final(particles)@[j].position_old == old(particles)@[j].position_old
                },
            old(particles)@.len() == 1 ==> final(particles)@[0] == substeps_single(
                old(particles)@[0],
                old(self).gravity,
                (dt as int) / (old(self).substeps as int),
                old(self).width as int,
                old(self).height as int,
                old(self).substeps as int,
            ),
    {
        let sub_dt = trunc_div_i64(dt, self.substeps);
        proof {
            vstd::arithmetic::div_mod::lemma_div_pos_is_pos(dt as int, self.substeps as int);
        }
        let ghost orig = old(particles)@;
        let mut s: i64 = 0;
        while s < self.substeps
            invariant
                0 <= s <= self.substeps,
                *self == *old(self),
                particles@.len() == orig.len(),
                forall|j: int| #![trigger particles@[j]]
                    0 <= j < orig.len() ==> {
                        &&& particles@[j].radius == orig[j].radius
                        &&& -MAX_ACCEL <= particles@[j].acceleration.x <= MAX_ACCEL
                        &&& -MAX_ACCEL <= particles@[j].acceleration.y <= MAX_ACCEL
                        &&& -MAX_POS <= particles@[j].position_current.x <= MAX_POS
                        &&& -MAX_POS <= particles@[j].position_current.y <= MAX_POS
                        &&& -(0x40_0000_0000_0000 + (s as int) * 0x8000_0000_0000) <= particles@[
                            j
                        ].position_old.x <= 0x40_0000_0000_0000 + (s as int) * 0x8000_0000_0000
                        &&& -(0x40_0000_0000_0000 + (s as int) * 0x8000_0000_0000) <= particles@[
                            j
                        ].position_old.y <= 0x40_0000_0000_0000 + (s as int) * 0x8000_0000_0000
                        &&& (s > 0 ==> particles@[j].acceleration.x == 0
                            && particles@[j].acceleration.y == 0 && 0 < particles@[
                            j
                        ].position_current.x && 0 < particles@[j].position_current.y)
                        &&& (s > 0 && 2 * orig[j].radius <= self.width ==> orig[j].radius
                            <= particles@[j].position_current.x <= self.width - orig[j].radius)
                        &&& (s > 0 && 2 * orig[j].radius <= self.height ==> orig[j].radius
                            <= particles@[j].position_current.y <= self.height - orig[j].radius)
                    },
                (sub_dt == 0 && resting_state(orig, self.width as int, self.height as int))
                    ==> forall|j: int| #![trigger particles@[j]]
                    0 <= j < orig.len() ==> {
                        &&& particles@[j].position_current == orig[j].position_current
                        &&& particles@[j].position_old == orig[j].position_old
                    },
                orig.len() == 1 ==> particles@[0] == substeps_single(
                    orig[0],
                    self.gravity,
                    sub_dt as int,
                    self.width as int,
                    self.height as int,
                    s as int,
                ),
            decreases self.substeps - s,
        {
            let ghost ps0 = particles@;
            self.apply_gravity(particles);
            let ghost ps1 = particles@;
            proof {
                assert forall|j: int| #![trigger particles@[j]]
                    0 <= j < orig.len() implies {
                    &&& particles@[j].position_current == ps0[j].position_current
                    &&& particles@[j].position_old == ps0[j].position_old
                    &&& particles@[j].radius == ps0[j].radius
                    &&& particles@[j].col == ps0[j].col
                    &&& -0x200_0000_0000 <= particles@[j].acceleration.x <= 0x200_0000_0000
                    &&& -0x200_0000_0000 <= particles@[j].acceleration.y <= 0x200_0000_0000
                } by {
                    assert(particles@[j] == accel_model(ps0[j], self.gravity));
                }
            }
            self.update_positions(particles, sub_dt);
            let ghost ps2 = particles@;
            proof {
                assert forall|j: int| #![trigger particles@[j]]
                    0 <= j < orig.len() implies {
                    &&& particles@[j] == integrate_model(ps1[j], sub_dt as int)
                    &&& particles@[j].radius == orig[j].radius
                    &&& particles@[j].acceleration.x == 0
                    &&& particles@[j].acceleration.y == 0
                    &&& -(0x40_2200_0000_0000 + (s as int) * 0x8000_0000_0000) <= particles@[
                        j
                    ].position_current.x <= 0x40_2200_0000_0000 + (s as int) * 0x8000_0000_0000
                    &&& -(0x40_2200_0000_0000 + (s as int) * 0x8000_0000_0000) <= particles@[
                        j
                    ].position_current.y <= 0x40_2200_0000_0000 + (s as int) * 0x8000_0000_0000
                    &&& -MAX_POS <= particles@[j].position_old.x <= MAX_POS
                    &&& -MAX_POS <= particles@[j].position_old.y <= MAX_POS
                } by {
                    assert(particles@[j] == integrate_model(ps1[j], sub_dt as int));
                    crate::fixed::lemma_mul_fix_le(
                        ps1[j].acceleration.x as int,
                        sub_dt as int,
                        0x200_0000_0000,
                    );
                    crate::fixed::lemma_mul_fix_le(
                        crate::fixed::mul_fix_spec(ps1[j].acceleration.x as int, sub_dt as int),
                        sub_dt as int,
                        0x200_0000_0000,
                    );
                    crate::fixed::lemma_mul_fix_le(
                        ps1[j].acceleration.y as int,
                        sub_dt as int,
                        0x200_0000_0000,
                    );
                    crate::fixed::lemma_mul_fix_le(
                        crate::fixed::mul_fix_spec(ps1[j].acceleration.y as int, sub_dt as int),
                        sub_dt as int,
                        0x200_0000_0000,
                    );
                }
            }
            find_collisions(particles, density);
            let ghost ps3 = particles@;
            proof {
                assert forall|j: int| #![trigger particles@[j]]
                    0 <= j < orig.len() implies {
                    &&& same_but_position(particles@[j], ps2[j])
                    &&& valid_radius(particles@[j])
                    &&& -(0x40_2200_0000_0000 + (s as int) * 0x8000_0000_0000) <= particles@[
                        j
                    ].position_current.x <= 0x40_2200_0000_0000 + (s as int) * 0x8000_0000_0000
                    &&& -(0x40_2200_0000_0000 + (s as int) * 0x8000_0000_0000) <= particles@[
                        j
                    ].position_current.y <= 0x40_2200_0000_0000 + (s as int) * 0x8000_0000_0000
                    &&& -MAX_POS <= particles@[j].position_old.x <= MAX_POS
                    &&& -MAX_POS <= particles@[j].position_old.y <= MAX_POS
                } by {
                    assert(same_but_position(particles@[j], ps2[j]));
                    assert(pos_envelope(particles@[j], ps2[j]));
                }
            }
            self.apply_constraint(particles);
            proof {
                assert forall|j: int| #![trigger particles@[j]]
                    0 <= j < orig.len() implies {
                    &&& particles@[j].radius == orig[j].radius
                    &&& particles@[j].acceleration.x == 0
                    &&& particles@[j].acceleration.y == 0
                    &&& 0 < particles@[j].position_current.x <= MAX_POS
                    &&& 0 < particles@[j].position_current.y <= MAX_POS
                    &&& (2 * orig[j].radius <= self.width ==> orig[j].radius <= particles@[
                        j
                    ].position_current.x <= self.width - orig[j].radius)
                    &&& (2 * orig[j].radius <= self.height ==> orig[j].radius <= particles@[
                        j
                    ].position_current.y <= self.height - orig[j].radius)
                    &&& -(0x40_0000_0000_0000 + ((s + 1) as int) * 0x8000_0000_0000)
                        <= particles@[j].position_old.x <= 0x40_0000_0000_0000 + ((s + 1) as int)
                        * 0x8000_0000_0000
                    &&& -(0x40_0000_0000_0000 + ((s + 1) as int) * 0x8000_0000_0000)
                        <= particles@[j].position_old.y <= 0x40_0000_0000_0000 + ((s + 1) as int)
                        * 0x8000_0000_0000
                } by {
                    assert(particles@[j] == constrain_model(
                        ps3[j],
                        self.width as int,
                        self.height as int,
                    ));
                    assert(vel_within(particles@[j], ps3[j]));
                }
                if sub_dt == 0 && resting_state(orig, self.width as int, self.height as int) {
                    assert forall|j: int| #![trigger ps2[j]]
                        0 <= j < orig.len() implies {
                        &&& ps2[j].position_current == orig[j].position_current
                        &&& ps2[j].position_old == orig[j].position_old
                        &&& ps2[j].radius == orig[j].radius
                    } by {
                        assert(ps0[j].position_current == orig[j].position_current);
                        assert(ps0[j].position_old == orig[j].position_old);
                        assert(orig[j].position_current == orig[j].position_old);
                        assert(ps2[j] == integrate_model(ps1[j], 0));
                        assert(ps1[j].acceleration.x as int * 0 == 0);
                        assert(ps1[j].acceleration.y as int * 0 == 0);
                        vstd::arithmetic::div_mod::lemma_div_basics(SCALE as int);
                    }
                    assert(no_overlapping_pair(ps2)) by {
                        assert forall|i: int, j: int|
                            0 <= i < ps2.len() && 0 <= j < ps2.len() && i != j
                            implies !(#[trigger] crate::collision::collides(
                            ps2[i],
                            ps2[j],
                        )) by {
                            assert(!crate::collision::collides(orig[i], orig[j]));
                        }
                    }
                    assert(ps3 == ps2);
                    assert forall|j: int| #![trigger particles@[j]]
                        0 <= j < orig.len() implies {
                        &&& particles@[j].position_current == orig[j].position_current
                        &&& particles@[j].position_old == orig[j].position_old
                    } by {
                        assert(particles@[j] == constrain_model(
                            ps3[j],
                            self.width as int,
                            self.height as int,
                        ));
                        lemma_rub_identity(0);
                    }
                }
                if orig.len() == 1 {
                    assert(no_overlapping_pair(ps2)) by {
                        assert forall|i: int, j: int|
                            0 <= i < ps2.len() && 0 <= j < ps2.len() && i != j
                            implies !(#[trigger] crate::collision::collides(
                            ps2[i],
                            ps2[j],
                        )) by {}
                    }
                    assert(ps3 == ps2);
                    assert(particles@[0] == substep_single(
                        ps0[0],
                        self.gravity,
                        sub_dt as int,
                        self.width as int,
                        self.height as int,
                    ));
                    lemma_substeps_single_snoc(
                        orig[0],
                        self.gravity,
                        sub_dt as int,
                        self.width as int,
                        self.height as int,
                        s as int,
                    );
                }
            }
            s = s + 1;
        }
    }
}

/// A normalized component, in fixed point, is at most one world unit.
proof fn lemma_unit_component_bound(dx: int, dy: int)
    requires
        dx * dx + dy * dy > 0,
    ensures
        -(SCALE as int) <= div_trunc(dx * SCALE, sqrt_floor(dx * dx + dy * dy))
            <= SCALE as int,
{
    let m = sqrt_floor(dx * dx + dy * dy);
    lemma_sqrt_ge_component(dx, dy);
    let ax = if dx >= 0 { dx } else { -dx };
    assert(ax * (SCALE as int) < (SCALE as int + 1) * m) by (nonlinear_arith)
        requires
            0 <= ax <= m && m >= 1,
    ;
    crate::fixed::lemma_div_bound(ax * (SCALE as int), m, SCALE as int + 1);
    vstd::arithmetic::div_mod::lemma_div_pos_is_pos(ax * (SCALE as int), m);
    if dx >= 0 {
        assert(div_trunc(dx * SCALE, m) == (ax * (SCALE as int)) / m);
    } else {
        assert(dx * SCALE == -(ax * (SCALE as int))) by (nonlinear_arith)
            requires
                dx < 0 && ax == -dx,
        ;
        assert(div_trunc(dx * SCALE, m) == -((ax * (SCALE as int)) / m));
    }
}

} // verus!
