//! Laws of the solver, stated and proved over the same models its contracts
//! use: discrete free fall, exact-touch pairs, symmetric overlap correction,
//! and wall reflection.

use vstd::prelude::*;
use vstd::arithmetic::div_mod::{
    lemma_div_basics, lemma_div_pos_is_pos, lemma_fundamental_div_mod,
    lemma_fundamental_div_mod_converse,
};
use crate::collision::{collides, corr_x, corr_y, pair_d2, within_collision_range};
use crate::fixed::{
    lemma_mul_fix_le, lemma_sqrt_floor_unique, lemma_square_le, mul_fix_spec, sqrt_floor, SCALE,
};
use crate::particle::{valid_radius, Vec2, VerletObject, MAX_ACCEL, MAX_POS};
use crate::solver::{constrain_model, reflect, substep_single, substeps_single, MAX_SUBSTEPS};

verus! {

/// The `k`-th triangular number, `k * (k + 1) / 2`: the factor by which the
/// per-sub-step gravity kick has accumulated into the position after `k`
/// Verlet sub-steps.
pub open spec fn tri(k: int) -> int
    decreases k,
{
    if k <= 0 {
        0
    } else {
        k + tri(k - 1)
    }
}

/// The closed form of the triangular numbers.
pub proof fn lemma_tri_closed_form(k: int)
    requires
        k >= 0,
    ensures
        2 * tri(k) == k * (k + 1),
    decreases k,
{
    if k == 0 {
        assert(k * (k + 1) == 0) by (nonlinear_arith)
            requires
                k == 0,
        ;
    } else {
        lemma_tri_closed_form(k - 1);
        assert(tri(k) == k + tri(k - 1));
        assert(2 * tri(k) == k * (k + 1)) by (nonlinear_arith)
            requires
                tri(k) == k + tri(k - 1),
                2 * tri(k - 1) == (k - 1) * ((k - 1) + 1),
        ;
    }
}

/// Triangular numbers dominate their index.
proof fn lemma_tri_ge(k: int)
    requires
        k >= 0,
    ensures
        tri(k) >= k,
    decreases k,
{
    if k > 0 {
        lemma_tri_ge(k - 1);
    }
}

/// A fixed-point product of non-negative factors is non-negative.
proof fn lemma_mul_fix_nonneg(x: int, y: int)
    requires
        0 <= x,
        0 <= y,
    ensures
        0 <= mul_fix_spec(x, y),
{
    assert(0 <= x * y) by (nonlinear_arith)
        requires
            0 <= x && 0 <= y,
    ;
    lemma_div_pos_is_pos(x * y, SCALE as int);
}

/// Vertical fall under constant gravity, from a state with no horizontal
/// velocity and a downward velocity `vy`: after `k` sub-steps the particle
/// stands `k * vy + kick * tri(k)` below its start, where `kick` is the
/// per-sub-step gravity increment, and its velocity has grown to
/// `vy + k * kick`.  The trajectory must fit above the floor.
proof fn lemma_fall_steps(p: VerletObject, g: i64, dt: i64, w: i64, h: i64, k: int)
    requires
        0 <= k <= MAX_SUBSTEPS,
        valid_radius(p),
        p.acceleration.x == 0,
        p.acceleration.y == 0,
        0 <= g <= MAX_ACCEL,
        0 <= dt <= SCALE,
        0 <= w <= MAX_POS,
        0 <= h <= MAX_POS,
        p.position_old.x == p.position_current.x,
        p.radius <= p.position_current.x <= w - p.radius,
        p.radius <= p.position_current.y,
        0 <= p.position_current.y - p.position_old.y <= 0x10_0000_0000_0000,
        p.position_current.y + k * (p.position_current.y - p.position_old.y) + mul_fix_spec(
            mul_fix_spec(g as int, dt as int),
            dt as int,
        ) * tri(k) <= h - p.radius,
        (p.position_current.y - p.position_old.y) + k * mul_fix_spec(
            mul_fix_spec(g as int, dt as int),
            dt as int,
        ) <= 0x10_0000_0000_0000,
    ensures
        ({
            let q = substeps_single(p, Vec2 { x: 0, y: g }, dt as int, w as int, h as int, k);
            let vy = p.position_current.y - p.position_old.y;
            let kick = mul_fix_spec(mul_fix_spec(g as int, dt as int), dt as int);
            &&& q.position_current.x == p.position_current.x
            &&& q.position_old.x == p.position_current.x
            &&& q.position_current.y == p.position_current.y + k * vy + kick * tri(k)
            &&& q.position_current.y - q.position_old.y == vy + k * kick
            &&& q.radius == p.radius
            &&& q.acceleration.x == 0
            &&& q.acceleration.y == 0
        }),
    decreases k,
{
    let g2 = Vec2 { x: 0, y: g };
    let vy = p.position_current.y - p.position_old.y;
    let kick = mul_fix_spec(mul_fix_spec(g as int, dt as int), dt as int);
    lemma_mul_fix_nonneg(g as int, dt as int);
    lemma_mul_fix_nonneg(mul_fix_spec(g as int, dt as int), dt as int);
    lemma_mul_fix_le(g as int, dt as int, MAX_ACCEL as int);
    lemma_mul_fix_le(mul_fix_spec(g as int, dt as int), dt as int, MAX_ACCEL as int);
    lemma_tri_ge(k);
    if k == 0 {
        assert(k * vy == 0 && k * kick == 0) by (nonlinear_arith)
            requires
                k == 0,
        ;
        assert(kick * tri(k) == 0) by (nonlinear_arith)
            requires
                tri(k) == 0,
        ;
    } else {
        assert(0 <= k * vy && 0 <= kick * tri(k) && k * vy <= k * vy + kick * tri(k))
            by (nonlinear_arith)
            requires
                0 <= vy && 0 <= kick && 0 <= k && 0 <= tri(k),
        ;
        let p1 = substep_single(p, g2, dt as int, w as int, h as int);
        let q1 = crate::solver::accel_model(p, g2);
        assert(q1.acceleration.y == g && q1.acceleration.x == 0);
        let q2 = crate::particle::integrate_model(q1, dt as int);
        assert((0int) * (dt as int) == 0) by (nonlinear_arith);
        lemma_div_basics(SCALE as int);
        assert(mul_fix_spec(0, dt as int) == 0);
        assert(q2.position_current.x == p.position_current.x);
        // The new vertical position stays under the floor bound: one step is
        // at most the whole accumulated fall.
        assert(vy + kick <= k * vy + kick * tri(k)) by (nonlinear_arith)
            requires
                0 <= vy && 0 <= kick && 1 <= k && k <= tri(k),
        ;
        assert(q2.position_current.y == p.position_current.y + vy + kick);
        assert(q2.position_old.y == p.position_current.y);
        let q3 = constrain_model(q2, w as int, h as int);
        crate::solver::lemma_rub_identity(0);
        assert(q3.position_current.x == p.position_current.x);
        assert(q3.position_old.x == p.position_current.x);
        assert(q3.position_current.y == p.position_current.y + vy + kick);
        assert(q3.position_old.y == p.position_current.y);
        assert(p1 == q3);
        // Recurse from the post-step state.
        let vy1 = vy + kick;
        assert(p1.position_current.y + (k - 1) * vy1 + kick * tri(k - 1) == p.position_current.y
            + k * vy + kick * tri(k)) by (nonlinear_arith)
            requires
                p1.position_current.y == p.position_current.y + vy + kick,
                vy1 == vy + kick,
                tri(k) == k + tri(k - 1),
                k >= 1,
        ;
        assert(vy1 + (k - 1) * kick == vy + k * kick) by (nonlinear_arith)
            requires
                vy1 == vy + kick,
        ;
        assert(0 <= (k - 1) * kick) by (nonlinear_arith)
            requires
                k >= 1 && 0 <= kick,
        ;
        assert(p1.position_current.y - p1.position_old.y == vy1);
        lemma_fall_steps(p1, g, dt, w, h, k - 1);
        let q = substeps_single(p1, g2, dt as int, w as int, h as int, k - 1);
        assert(q.position_current.y == p1.position_current.y + (k - 1) * vy1 + kick * tri(k - 1));
        assert(q.position_current.y == p.position_current.y + k * vy + kick * tri(k));
        assert(q.position_current.y - q.position_old.y == vy + k * kick);
        assert(substeps_single(p, g2, dt as int, w as int, h as int, k) == substeps_single(
            p1,
            g2,
            dt as int,
            w as int,
            h as int,
            k - 1,
        ));
    }
}

/// Discrete free fall.  A particle at rest, alone under downward gravity
/// `g`, inside the domain with enough room to fall, ends `k` sub-steps
/// later exactly `kick * k * (k + 1) / 2` below its start, where
/// `kick = (g * dt / SCALE) * dt / SCALE` is the per-sub-step velocity
/// increment: the exact discrete form of one half `g t^2`, since
/// `tri(k)` approaches `k^2 / 2`.  The horizontal position never moves.
pub proof fn lemma_free_fall(p: VerletObject, g: i64, dt: i64, w: i64, h: i64, k: int)
    requires
        0 <= k <= MAX_SUBSTEPS,
        valid_radius(p),
        p.acceleration.x == 0,
        p.acceleration.y == 0,
        0 <= g <= MAX_ACCEL,
        0 <= dt <= SCALE,
        0 <= w <= MAX_POS,
        0 <= h <= MAX_POS,
        p.position_old == p.position_current,
        p.radius <= p.position_current.x <= w - p.radius,
        p.radius <= p.position_current.y,
        p.position_current.y + mul_fix_spec(mul_fix_spec(g as int, dt as int), dt as int) * tri(
            k,
        ) <= h - p.radius,
    ensures
        ({
            let q = substeps_single(p, Vec2 { x: 0, y: g }, dt as int, w as int, h as int, k);
            let kick = mul_fix_spec(mul_fix_spec(g as int, dt as int), dt as int);
            &&& q.position_current.x == p.position_current.x
            &&& q.position_current.y == p.position_current.y + kick * tri(k)
            &&& q.position_current.y - q.position_old.y == k * kick
        }),
{
    assert(k * 0 == 0) by (nonlinear_arith);
    lemma_mul_fix_nonneg(g as int, dt as int);
    lemma_mul_fix_nonneg(mul_fix_spec(g as int, dt as int), dt as int);
    lemma_mul_fix_le(g as int, dt as int, MAX_ACCEL as int);
    lemma_mul_fix_le(mul_fix_spec(g as int, dt as int), dt as int, MAX_ACCEL as int);
    assert(k * mul_fix_spec(mul_fix_spec(g as int, dt as int), dt as int) <= 0x10_0000_0000_0000)
        by (nonlinear_arith)
        requires
            0 <= k <= MAX_SUBSTEPS && 0 <= mul_fix_spec(
                mul_fix_spec(g as int, dt as int),
                dt as int,
            ) <= MAX_ACCEL,
    ;
    lemma_fall_steps(p, g, dt, w, h, k);
}

/// Exact touch.  Two particles whose center distance is exactly the sum of
/// their radii do not overlap, so the narrow phase applies no correction to
/// them.
pub proof fn lemma_exact_touch(a: VerletObject, b: VerletObject)
    requires
        pair_d2(a, b) == (a.radius + b.radius) * (a.radius + b.radius),
    ensures
        !collides(a, b),
{
}

/// Symmetric overlap correction, along an axis.  Two equal-radius particles
/// on one horizontal line, closer than `2 r` by an even number of sub-units,
/// are each displaced by exactly `(2 r - d) / 2` in opposite directions
/// along that line, and end exactly `2 r` apart.
pub proof fn lemma_symmetric_overlap(a: VerletObject, b: VerletObject)
    requires
        valid_radius(a),
        valid_radius(b),
        a.radius == b.radius,
        within_collision_range(a),
        within_collision_range(b),
        a.position_current.y == b.position_current.y,
        a.position_current.x != b.position_current.x,
        -2 * a.radius < a.position_current.x - b.position_current.x < 2 * a.radius,
        (a.position_current.x - b.position_current.x) % 2 == 0,
    ensures
        collides(a, b),
        corr_y(a, b) == 0,
        ({
            let d = a.position_current.x - b.position_current.x;
            let rsum = a.radius + b.radius;
            &&& (d > 0 ==> corr_x(a, b) == (rsum - d) / 2)
            &&& (d < 0 ==> corr_x(a, b) == -((rsum + d) / 2))
            &&& (a.position_current.x + corr_x(a, b)) - (b.position_current.x - corr_x(a, b))
                == (if d > 0 {
                rsum
            } else {
                -rsum
            })
        }),
{
    let d = a.position_current.x - b.position_current.x;
    let rsum = a.radius + b.radius;
    let ad = if d >= 0 {
        d
    } else {
        -d
    };
    assert(pair_d2(a, b) == d * d);
    assert(d * d == ad * ad && ad * ad > 0) by (nonlinear_arith)
        requires
            (ad == d || ad == -d) && d != 0,
    ;
    lemma_square_le(d, ad);
    assert(ad * ad < rsum * rsum) by (nonlinear_arith)
        requires
            0 <= ad < rsum,
    ;
    assert(d * d < (ad + 1) * (ad + 1)) by (nonlinear_arith)
        requires
            d * d == ad * ad && ad >= 0,
    ;
    lemma_sqrt_floor_unique(d * d, ad);
    assert(sqrt_floor(pair_d2(a, b)) == ad);
    let delta = rsum - ad;
    // The gap is even, so half the penetration is exact.
    lemma_fundamental_div_mod(d, 2);
    assert(-d == (-(d / 2)) * 2 + 0) by (nonlinear_arith)
        requires
            d == 2 * (d / 2) + 0,
    ;
    lemma_fundamental_div_mod_converse(-d, 2, -(d / 2), 0);
    assert(ad % 2 == 0);
    lemma_fundamental_div_mod(ad, 2);
    lemma_fundamental_div_mod(delta, 2);
    assert(delta % 2 == 0) by {
        assert(delta == (a.radius - (ad / 2)) * 2 + 0) by (nonlinear_arith)
            requires
                ad == 2 * (ad / 2) && delta == rsum - ad && rsum == 2 * a.radius,
        ;
        lemma_fundamental_div_mod_converse(delta, 2, a.radius - (ad / 2), 0);
    }
    let e = delta / 2;
    assert(delta == 2 * e);
    // corr_y: zero numerator.
    assert((a.position_current.y - b.position_current.y) * delta == 0) by (nonlinear_arith)
        requires
            a.position_current.y == b.position_current.y,
    ;
    lemma_div_basics(2 * ad);
    assert(corr_y(a, b) == 0);
    // corr_x: the division is exact.
    assert(ad * delta == e * (2 * ad) + 0) by (nonlinear_arith)
        requires
            delta == 2 * e,
    ;
    lemma_fundamental_div_mod_converse(ad * delta, 2 * ad, e, 0);
    assert(0 <= e) by {
        lemma_div_pos_is_pos(delta, 2);
    }
    if d > 0 {
        assert(d * delta == ad * delta);
        assert(corr_x(a, b) == e);
        assert(e == (rsum - d) / 2);
    } else {
        assert(d * delta == -(ad * delta)) by (nonlinear_arith)
            requires
                d == -ad,
        ;
        assert(corr_x(a, b) == -e);
        assert(delta == rsum + d);
        assert(-e == -((rsum + d) / 2));
    }
    assert(d + 2 * corr_x(a, b) == (if d > 0 {
        rsum
    } else {
        -rsum
    }));
}

/// Symmetric overlap correction along the vertical axis: the mirror image
/// of the horizontal law.
pub proof fn lemma_symmetric_overlap_vertical(a: VerletObject, b: VerletObject)
    requires
        valid_radius(a),
        valid_radius(b),
        a.radius == b.radius,
        within_collision_range(a),
        within_collision_range(b),
        a.position_current.x == b.position_current.x,
        a.position_current.y != b.position_current.y,
        -2 * a.radius < a.position_current.y - b.position_current.y < 2 * a.radius,
        (a.position_current.y - b.position_current.y) % 2 == 0,
    ensures
        collides(a, b),
        corr_x(a, b) == 0,
        ({
            let d = a.position_current.y - b.position_current.y;
            let rsum = a.radius + b.radius;
            &&& (d > 0 ==> corr_y(a, b) == (rsum - d) / 2)
            &&& (d < 0 ==> corr_y(a, b) == -((rsum + d) / 2))
            &&& (a.position_current.y + corr_y(a, b)) - (b.position_current.y - corr_y(a, b))
                == (if d > 0 {
                rsum
            } else {
                -rsum
            })
        }),
{
    let d = a.position_current.y - b.position_current.y;
    let rsum = a.radius + b.radius;
    let ad = if d >= 0 {
        d
    } else {
        -d
    };
    assert(pair_d2(a, b) == d * d) by (nonlinear_arith)
        requires
            a.position_current.x == b.position_current.x && pair_d2(a, b) == (a.position_current.x
                - b.position_current.x) * (a.position_current.x - b.position_current.x) + d * d,
    ;
    assert(d * d == ad * ad && ad * ad > 0) by (nonlinear_arith)
        requires
            (ad == d || ad == -d) && d != 0,
    ;
    lemma_square_le(d, ad);
    assert(ad * ad < rsum * rsum) by (nonlinear_arith)
        requires
            0 <= ad < rsum,
    ;
    assert(d * d < (ad + 1) * (ad + 1)) by (nonlinear_arith)
        requires
            d * d == ad * ad && ad >= 0,
    ;
    lemma_sqrt_floor_unique(d * d, ad);
    assert(sqrt_floor(pair_d2(a, b)) == ad);
    let delta = rsum - ad;
    // The gap is even, so half the penetration is exact.
    lemma_fundamental_div_mod(d, 2);
    assert(-d == (-(d / 2)) * 2 + 0) by (nonlinear_arith)
        requires
            d == 2 * (d / 2) + 0,
    ;
    lemma_fundamental_div_mod_converse(-d, 2, -(d / 2), 0);
    assert(ad % 2 == 0);
    lemma_fundamental_div_mod(ad, 2);
    lemma_fundamental_div_mod(delta, 2);
    assert(delta % 2 == 0) by {
        assert(delta == (a.radius - (ad / 2)) * 2 + 0) by (nonlinear_arith)
            requires
                ad == 2 * (ad / 2) && delta == rsum - ad && rsum == 2 * a.radius,
        ;
        lemma_fundamental_div_mod_converse(delta, 2, a.radius - (ad / 2), 0);
    }
    let e = delta / 2;
    assert(delta == 2 * e);
    // corr_x: zero numerator.
    assert((a.position_current.x - b.position_current.x) * delta == 0) by (nonlinear_arith)
        requires
            a.position_current.x == b.position_current.x,
    ;
    lemma_div_basics(2 * ad);
    assert(corr_x(a, b) == 0);
    // corr_y: the division is exact.
    assert(ad * delta == e * (2 * ad) + 0) by (nonlinear_arith)
        requires
            delta == 2 * e,
    ;
    lemma_fundamental_div_mod_converse(ad * delta, 2 * ad, e, 0);
    assert(0 <= e) by {
        lemma_div_pos_is_pos(delta, 2);
    }
    if d > 0 {
        assert(d * delta == ad * delta);
        assert(corr_y(a, b) == e);
        assert(e == (rsum - d) / 2);
    } else {
        assert(d * delta == -(ad * delta)) by (nonlinear_arith)
            requires
                d == -ad,
        ;
        assert(corr_y(a, b) == -e);
        assert(delta == rsum + d);
        assert(-e == -((rsum + d) / 2));
    }
    assert(d + 2 * corr_y(a, b) == (if d > 0 {
        rsum
    } else {
        -rsum
    }));
}

/// Wall reflection.  A particle driven past the right wall, vertically
/// inside the domain, is clamped exactly to `width - radius`, and its
/// derived velocity component along x comes out reflected: negated and
/// scaled by the restitution ratio of three tenths.
pub proof fn lemma_wall_reflection(p: VerletObject, width: i64, height: i64)
    requires
        valid_radius(p),
        2 * p.radius <= width,
        p.position_current.x > width - p.radius,
        p.position_current.x <= 0x1000_0000_0000_0000,
        -0x1000_0000_0000_0000 <= p.position_old.x <= 0x1000_0000_0000_0000,
        p.radius <= p.position_current.y <= height - p.radius,
    ensures
        constrain_model(p, width as int, height as int).position_current.x == width - p.radius,
        constrain_model(p, width as int, height as int).position_current.x - constrain_model(
            p,
            width as int,
            height as int,
        ).position_old.x == reflect(p.position_current.x - p.position_old.x),
{
    let vx0 = p.position_current.x - p.position_old.x;
    if vx0 >= 0 {
        crate::solver::lemma_reflect_bound(vx0, vx0);
    } else {
        crate::solver::lemma_reflect_bound(vx0, -vx0);
    }
}

} // verus!
