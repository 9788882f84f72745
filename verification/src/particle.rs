//! The particle record and its per-particle operations: construction, force
//! accumulation, and position-based Verlet integration.

use vstd::prelude::*;
use crate::color::{col_of_speed, speed_color};
use crate::fixed::{mul_fix, mul_fix_spec, SCALE};

verus! {

/// Largest admissible particle radius, in fixed-point sub-units
/// (`2^16` world units): an overflow envelope, not a physical rule.
pub const MAX_RADIUS: i64 = 0x1_0000_0000;

/// Largest admissible acceleration component, in fixed-point sub-units
/// per second squared: an overflow envelope, not a physical rule.
pub const MAX_ACCEL: i64 = 0x100_0000_0000;

/// Largest admissible position component magnitude handed to the solver,
/// in fixed-point sub-units: an overflow envelope, not a physical rule.
pub const MAX_POS: i64 = 0x1000_0000_0000;

/// A two-component fixed-point vector.
#[derive(Clone, Copy, PartialEq, Eq, Debug)]
pub struct Vec2 {
    pub x: i64,
    pub y: i64,
}

impl Vec2 {
    /// Builds the vector `(x, y)`.
    pub fn new(x: i64, y: i64) -> (v: Vec2)
        ensures
            v.x == x,
            v.y == y,
    {
        Vec2 { x, y }
    }
}

/// One circular body.  Velocity is never stored: it is derived as
/// `position_current - position_old`.  `acceleration` is an accumulator,
/// reset to zero at the end of every integration step.  `col` is a derived
/// display attribute, recomputed from speed each integration step.
#[derive(Clone, Copy, PartialEq, Eq, Debug)]
pub struct VerletObject {
    pub position_current: Vec2,
    pub position_old: Vec2,
    pub acceleration: Vec2,
    pub radius: i64,
    pub col: (u8, u8, u8),
}

/// The radius invariant every particle keeps for its lifetime: strictly
/// positive, and under the overflow envelope.
pub open spec fn valid_radius(p: VerletObject) -> bool {
    0 < p.radius <= MAX_RADIUS
}

/// The state `update_position` leaves a particle in: Verlet advance of the
/// position, old position set to the previous position, accumulator cleared,
/// color recomputed from the step's derived velocity.
pub open spec fn integrate_model(p: VerletObject, dt: int) -> VerletObject {
    let vx = p.position_current.x - p.position_old.x;
    let vy = p.position_current.y - p.position_old.y;
    let kx = mul_fix_spec(mul_fix_spec(p.acceleration.x as int, dt), dt);
    let ky = mul_fix_spec(mul_fix_spec(p.acceleration.y as int, dt), dt);
    VerletObject {
        position_current: Vec2 {
            x: (p.position_current.x + vx + kx) as i64,
            y: (p.position_current.y + vy + ky) as i64,
        },
        position_old: p.position_current,
        acceleration: Vec2 { x: 0, y: 0 },
        radius: p.radius,
        col: col_of_speed(vx, vy),
    }
}

impl VerletObject {
    /// Builds a particle from its record fields.  A non-positive radius is a
    /// programmer error and is rejected here, at construction.
    pub fn new(
        position_current: Vec2,
        position_old: Vec2,
        acceleration: Vec2,
        radius: i64,
        col: (u8, u8, u8),
    ) -> (p: VerletObject)
        requires
            0 < radius <= MAX_RADIUS,
        ensures
            p.position_current == position_current,
            p.position_old == position_old,
            p.acceleration == acceleration,
            p.radius == radius,
            p.col == col,
    {
        VerletObject { position_current, position_old, acceleration, radius, col }
    }

    /// Adds `acc` to the acceleration accumulator and changes nothing else.
    pub fn accelerate(&mut self, acc: Vec2)
        requires
            i64::MIN <= old(self).acceleration.x + acc.x <= i64::MAX,
            i64::MIN <= old(self).acceleration.y + acc.y <= i64::MAX,
        ensures
            final(self).acceleration.x == old(self).acceleration.x + acc.x,
            final(self).acceleration.y == old(self).acceleration.y + acc.y,
            final(self).position_current == old(self).position_current,
            final(self).position_old == old(self).position_old,
            final(self).radius == old(self).radius,
            final(self).col == old(self).col,
    {
        self.acceleration.x = self.acceleration.x + acc.x;
        self.acceleration.y = self.acceleration.y + acc.y;
    }

    /// One position-based Verlet step: `position_current` advances by the
    /// derived velocity plus `acceleration * dt * dt`; `position_old` takes
    /// the previous position; the accumulator is cleared; the display color
    /// is recomputed from the step's velocity.
    pub fn update_position(&mut self, dt: i64)
        requires
            0 <= dt <= SCALE,
            -0x1000_0000_0000_0000 <= old(self).position_current.x <= 0x1000_0000_0000_0000,
            -0x1000_0000_0000_0000 <= old(self).position_current.y <= 0x1000_0000_0000_0000,
            -0x1000_0000_0000_0000 <= old(self).position_old.x <= 0x1000_0000_0000_0000,
            -0x1000_0000_0000_0000 <= old(self).position_old.y <= 0x1000_0000_0000_0000,
            -0x1000_0000_0000 <= old(self).acceleration.x <= 0x1000_0000_0000,
            -0x1000_0000_0000 <= old(self).acceleration.y <= 0x1000_0000_0000,
        ensures
            *final(self) == integrate_model(*old(self), dt as int),
            -0x4000_0000_0000_0000 <= final(self).position_current.x <= 0x4000_0000_0000_0000,
            -0x4000_0000_0000_0000 <= final(self).position_current.y <= 0x4000_0000_0000_0000,
    {
        let vx = self.position_current.x - self.position_old.x;
        let vy = self.position_current.y - self.position_old.y;
        proof {
            crate::fixed::lemma_mul_le_bounds(
                self.acceleration.x as int, dt as int, 0x1000_0000_0000, 0x1_0000);
            crate::fixed::lemma_mul_le_bounds(
                self.acceleration.y as int, dt as int, 0x1000_0000_0000, 0x1_0000);
        }
        let kx1 = mul_fix(self.acceleration.x, dt);
        let ky1 = mul_fix(self.acceleration.y, dt);
        proof {
            crate::fixed::lemma_mul_le_bounds(
                kx1 as int, dt as int, 0x2000_0000_0000 - 1, 0x1_0000);
            crate::fixed::lemma_mul_le_bounds(
                ky1 as int, dt as int, 0x2000_0000_0000 - 1, 0x1_0000);
        }
        let kx = mul_fix(kx1, dt);
        let ky = mul_fix(ky1, dt);
        self.position_old = self.position_current;
        self.position_current.x = self.position_current.x + vx + kx;
        self.position_current.y = self.position_current.y + vy + ky;
        self.acceleration.x = 0;
        self.acceleration.y = 0;
        self.col = speed_color(vx, vy);
    }
}

} // verus!
