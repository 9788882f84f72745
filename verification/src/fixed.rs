//! Fixed-point scalar arithmetic: scale constant, signed division helpers and
//! an integer square root, each with an exact contract.

use vstd::prelude::*;
use vstd::arithmetic::div_mod::{
    lemma_div_basics, lemma_div_is_ordered_by_denominator, lemma_div_pos_is_pos,
    lemma_fundamental_div_mod, lemma_fundamental_div_mod_converse, lemma_mod_bound,
};

verus! {

/// Number of fixed-point sub-units in one world unit.  Positions, radii,
/// velocities, accelerations and time steps are all `i64` counts of
/// `1/SCALE` of a world unit (respectively of a second, for time).
pub const SCALE: i64 = 65536;

/// Truncating division (round toward zero), for a positive divisor.
/// This is the rounding rule used for every scaling step of the solver,
/// chosen because it is symmetric: negating the dividend negates the result.
pub open spec fn div_trunc(a: int, b: int) -> int
    recommends
        b >= 1,
{
    if a >= 0 {
        a / b
    } else {
        -((-a) / b)
    }
}

/// Fixed-point product of `x` and `y`: the mathematical product rescaled
/// back by one factor of `SCALE`, rounded toward zero.
pub open spec fn mul_fix_spec(x: int, y: int) -> int {
    div_trunc(x * y, SCALE as int)
}

/// `r` is the integer square root of `n`, rounded down.
pub open spec fn is_sqrt_floor(n: int, r: int) -> bool {
    &&& 0 <= r
    &&& r * r <= n
    &&& n < (r + 1) * (r + 1)
}

/// The integer square root of `n`, rounded down, as a recursive definition.
pub open spec fn sqrt_floor(n: int) -> int
    decreases n,
{
    if n <= 0 {
        0
    } else {
        let p = sqrt_floor(n - 1);
        if (p + 1) * (p + 1) <= n {
            p + 1
        } else {
            p
        }
    }
}

/// `sqrt_floor` satisfies the rounded-down square root characterization.
pub proof fn lemma_sqrt_floor_correct(n: int)
    requires
        n >= 0,
    ensures
        is_sqrt_floor(n, sqrt_floor(n)),
    decreases n,
{
    if n > 0 {
        lemma_sqrt_floor_correct(n - 1);
        let p = sqrt_floor(n - 1);
        if (p + 1) * (p + 1) <= n {
            assert(n == (p + 1) * (p + 1));
            assert((p + 2) * (p + 2) > (p + 1) * (p + 1)) by (nonlinear_arith)
                requires
                    p >= 0,
            ;
        }
    }
}

/// The rounded-down square root is unique.
pub proof fn lemma_sqrt_floor_unique(n: int, r: int)
    requires
        n >= 0,
        is_sqrt_floor(n, r),
    ensures
        r == sqrt_floor(n),
{
    lemma_sqrt_floor_correct(n);
    let s = sqrt_floor(n);
    if r < s {
        assert((r + 1) * (r + 1) <= s * s) by (nonlinear_arith)
            requires
                0 <= r,
                r + 1 <= s,
        ;
    }
    if s < r {
        assert((s + 1) * (s + 1) <= r * r) by (nonlinear_arith)
            requires
                0 <= s,
                s + 1 <= r,
        ;
    }
}

/// A square is monotone in the absolute value of its argument.
pub proof fn lemma_square_le(x: int, y: int)
    requires
        -y <= x <= y,
    ensures
        0 <= x * x <= y * y,
{
    assert(0 <= x * x <= y * y) by (nonlinear_arith)
        requires
            -y <= x <= y,
    ;
}

/// A quotient by a positive divisor is strictly below any `c` with
/// `x < c * d`.
pub proof fn lemma_div_bound(x: int, d: int, c: int)
    requires
        0 <= x,
        1 <= d,
        x < c * d,
    ensures
        x / d < c,
{
    lemma_fundamental_div_mod(x, d);
    lemma_mod_bound(x, d);
    lemma_div_pos_is_pos(x, d);
    assert(x / d < c) by (nonlinear_arith)
        requires
            x == d * (x / d) + (x % d),
            0 <= x % d,
            x < c * d,
            1 <= d,
            0 <= x / d,
    ;
}

/// Bounds on a product, from bounds on its factors.
pub proof fn lemma_mul_le_bounds(x: int, y: int, bx: int, by: int)
    requires
        -bx <= x <= bx,
        0 <= y <= by,
        0 <= bx,
    ensures
        -(bx * by) <= x * y <= bx * by,
{
    assert(-(bx * by) <= x * y <= bx * by) by (nonlinear_arith)
        requires
            -bx <= x <= bx,
            0 <= y <= by,
            0 <= bx,
    ;
}

/// A fixed-point product with a factor of at most one (a time step of at
/// most one second) does not grow the other factor's magnitude.
pub proof fn lemma_mul_fix_le(x: int, y: int, bx: int)
    requires
        -bx <= x <= bx,
        0 <= y <= SCALE as int,
        0 <= bx,
    ensures
        -bx <= mul_fix_spec(x, y) <= bx,
{
    lemma_mul_le_bounds(x, y, bx, SCALE as int);
    let p = x * y;
    if p >= 0 {
        lemma_div_bound(p, SCALE as int, bx + 1);
        lemma_div_pos_is_pos(p, SCALE as int);
    } else {
        lemma_div_bound(-p, SCALE as int, bx + 1);
        lemma_div_pos_is_pos(-p, SCALE as int);
    }
}

/// A quotient of `0 <= x` by a positive divisor lies between `0` and `x`.
proof fn lemma_div_le_self(x: int, d: int)
    requires
        0 <= x,
        1 <= d,
    ensures
        0 <= x / d <= x,
{
    lemma_div_pos_is_pos(x, d);
    lemma_div_is_ordered_by_denominator(x, 1, d);
    lemma_div_basics(x);
}

/// The rounded-down distance is at least each component's magnitude.
pub proof fn lemma_sqrt_ge_component(dx: int, dy: int)
    requires
        dx * dx + dy * dy > 0,
    ensures
        sqrt_floor(dx * dx + dy * dy) >= (if dx >= 0 { dx } else { -dx }),
        sqrt_floor(dx * dx + dy * dy) >= (if dy >= 0 { dy } else { -dy }),
        sqrt_floor(dx * dx + dy * dy) >= 1,
{
    let d2 = dx * dx + dy * dy;
    let m = sqrt_floor(d2);
    lemma_sqrt_floor_correct(d2);
    let ax = if dx >= 0 { dx } else { -dx };
    let ay = if dy >= 0 { dy } else { -dy };
    assert(ax * ax == dx * dx && ay * ay == dy * dy && ax * ax >= 0 && ay * ay >= 0)
        by (nonlinear_arith)
        requires
            (ax == dx || ax == -dx) && (ay == dy || ay == -dy),
    ;
    if ax > m {
        assert(ax * ax >= (m + 1) * (m + 1)) by (nonlinear_arith)
            requires
                ax >= m + 1 && m >= 0,
        ;
    }
    if ay > m {
        assert(ay * ay >= (m + 1) * (m + 1)) by (nonlinear_arith)
            requires
                ay >= m + 1 && m >= 0,
        ;
    }
    if m == 0 {
        assert(d2 < (m + 1) * (m + 1));
        assert(d2 < 1);
    }
}

/// Truncating division of `a` by the positive `b`.
pub fn trunc_div_i64(a: i64, b: i64) -> (q: i64)
    requires
        b >= 1,
        a > i64::MIN,
    ensures
        q == div_trunc(a as int, b as int),
        -vstd::math::abs(a as int) <= q <= vstd::math::abs(a as int),
{
    if a >= 0 {
        let q0: u64 = (a as u64) / (b as u64);
        proof {
            lemma_div_le_self(a as int, b as int);
        }
        q0 as i64
    } else {
        let m: u64 = (-a) as u64;
        let q0: u64 = m / (b as u64);
        proof {
            lemma_div_le_self(m as int, b as int);
        }
        -(q0 as i64)
    }
}

/// Truncating division of `a` by the positive `b`, on 128-bit intermediates.
pub fn trunc_div_i128(a: i128, b: i128) -> (q: i128)
    requires
        b >= 1,
        a > i128::MIN,
    ensures
        q == div_trunc(a as int, b as int),
        -vstd::math::abs(a as int) <= q <= vstd::math::abs(a as int),
{
    if a >= 0 {
        let q0: u128 = (a as u128) / (b as u128);
        proof {
            lemma_div_le_self(a as int, b as int);
        }
        q0 as i128
    } else {
        let m: u128 = (-a) as u128;
        let q0: u128 = m / (b as u128);
        proof {
            lemma_div_le_self(m as int, b as int);
        }
        -(q0 as i128)
    }
}

/// Flooring division of `a` by the positive `b` (rounds toward negative
/// infinity), the rule that addresses spatial hash cells.  In specifications
/// this is plain `/`, which is Euclidean and agrees with the floor for a
/// positive divisor.
pub fn floor_div_i64(a: i64, b: i64) -> (q: i64)
    requires
        b >= 1,
        a > i64::MIN,
    ensures
        q == (a as int) / (b as int),
{
    if a >= 0 {
        let q0: u64 = (a as u64) / (b as u64);
        proof {
            lemma_div_le_self(a as int, b as int);
        }
        q0 as i64
    } else {
        let m: u64 = (-a) as u64;
        let q0: u64 = m / (b as u64);
        let r0: u64 = m % (b as u64);
        proof {
            lemma_div_le_self(m as int, b as int);
            lemma_fundamental_div_mod(m as int, b as int);
            lemma_mod_bound(m as int, b as int);
            if r0 == 0 {
                assert(a as int == (-(q0 as int)) * (b as int) + 0) by (nonlinear_arith)
                    requires
                        m as int == (b as int) * (q0 as int),
                        a as int == -(m as int),
                ;
                lemma_fundamental_div_mod_converse(a as int, b as int, -(q0 as int), 0);
            } else {
                assert(a as int == (-(q0 as int) - 1) * (b as int) + ((b as int) - (r0 as int)))
                    by (nonlinear_arith)
                    requires
                        m as int == (b as int) * (q0 as int) + (r0 as int),
                        a as int == -(m as int),
                ;
                lemma_fundamental_div_mod_converse(
                    a as int,
                    b as int,
                    -(q0 as int) - 1,
                    (b as int) - (r0 as int),
                );
            }
        }
        if r0 == 0 {
            -(q0 as i64)
        } else {
            -(q0 as i64) - 1
        }
    }
}

/// Integer square root of `n`, rounded down, by bisection.
pub fn isqrt_u128(n: u128) -> (r: u128)
    requires
        n < 0x4000_0000_0000_0000_0000_0000_0000_0000,
    ensures
        r == sqrt_floor(n as int),
        is_sqrt_floor(n as int, r as int),
        r <= 0x8000_0000_0000_0000,
{
    let mut lo: u128 = 0;
    let mut hi: u128 = 0x8000_0000_0000_0000;
    while hi - lo > 1
        invariant
            lo < hi <= 0x8000_0000_0000_0000,
            (lo as int) * (lo as int) <= n as int,
            (n as int) < (hi as int) * (hi as int),
        decreases hi - lo,
    {
        let mid: u128 = lo + (hi - lo) / 2;
        proof {
            assert((mid as int) * (mid as int) < 0x1_0000_0000_0000_0000_0000_0000_0000_0000)
                by (nonlinear_arith)
                requires
                    0 <= (mid as int) < 0x1_0000_0000_0000_0000,
            ;
        }
        if mid * mid <= n {
            lo = mid;
        } else {
            hi = mid;
        }
    }
    proof {
        assert(hi == lo + 1);
        lemma_sqrt_floor_unique(n as int, lo as int);
    }
    lo
}

/// Fixed-point multiply: `x * y`, rescaled by `SCALE`, rounded toward zero.
pub fn mul_fix(x: i64, y: i64) -> (r: i64)
    requires
        -0x2000_0000_0000_0000 < (x as int) * (y as int) < 0x2000_0000_0000_0000,
    ensures
        r == mul_fix_spec(x as int, y as int),
        -0x2000_0000_0000 < r < 0x2000_0000_0000,
{
    let p: i128 = (x as i128) * (y as i128);
    let q: i128 = trunc_div_i128(p, SCALE as i128);
    proof {
        if p >= 0 {
            lemma_div_bound(p as int, SCALE as int, 0x2000_0000_0000);
        } else {
            lemma_div_bound(-(p as int), SCALE as int, 0x2000_0000_0000);
        }
    }
    q as i64
}

} // verus!
