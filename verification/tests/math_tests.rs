use snowglobe::color::hue_to_rgb;
use snowglobe::fixed::{floor_div_i64, isqrt_u128, mul_fix, trunc_div_i64, SCALE};
use snowglobe::grid::compute_spatial_map;
use snowglobe::particle::{Vec2, VerletObject};

#[test]
fn floor_division_rounds_toward_negative_infinity() {
    assert_eq!(floor_div_i64(7, 3), 2);
    assert_eq!(floor_div_i64(-7, 3), -3);
    assert_eq!(floor_div_i64(-6, 3), -2);
    assert_eq!(floor_div_i64(0, 5), 0);
}

#[test]
fn truncating_division_rounds_toward_zero() {
    assert_eq!(trunc_div_i64(7, 3), 2);
    assert_eq!(trunc_div_i64(-7, 3), -2);
    assert_eq!(trunc_div_i64(-30, 10), -3);
}

#[test]
fn integer_square_root_rounds_down() {
    assert_eq!(isqrt_u128(0), 0);
    assert_eq!(isqrt_u128(1), 1);
    assert_eq!(isqrt_u128(15), 3);
    assert_eq!(isqrt_u128(16), 4);
    assert_eq!(isqrt_u128(20000), 141);
    assert_eq!(isqrt_u128(1 << 80), 1 << 40);
}

#[test]
fn fixed_multiply_rescales() {
    assert_eq!(mul_fix(SCALE, SCALE), SCALE);
    assert_eq!(mul_fix(3 * SCALE, 2 * SCALE), 6 * SCALE);
    // Half a unit squared is a quarter unit.
    assert_eq!(mul_fix(SCALE / 2, SCALE / 2), SCALE / 4);
    assert_eq!(mul_fix(-SCALE, SCALE / 2), -SCALE / 2);
}

#[test]
fn hue_to_rgb_hits_the_primary_colors() {
    assert_eq!(hue_to_rgb(0), (255, 0, 0));
    assert_eq!(hue_to_rgb(120), (0, 255, 0));
    assert_eq!(hue_to_rgb(240), (0, 0, 255));
    // Mid-sector values ramp linearly: 30 degrees is halfway to yellow.
    assert_eq!(hue_to_rgb(30), (255, 127, 0));
}

#[test]
fn spatial_map_partitions_by_cell() {
    let mk = |x: i64, y: i64| {
        VerletObject::new(Vec2::new(x, y), Vec2::new(x, y), Vec2::new(0, 0), 10, (0, 0, 0))
    };
    // Two particles share a cell; one sits in a negative cell, which floor
    // division assigns to (-1, 0).
    let particles = vec![mk(50, 50), mk(250, 150), mk(60, 70), mk(-30, 20)];
    let grid = compute_spatial_map(&particles, 100);
    assert_eq!(grid.len(), 3);
    assert_eq!((grid[0].cx, grid[0].cy), (0, 0));
    assert_eq!(grid[0].indices, vec![0, 2]);
    assert_eq!((grid[1].cx, grid[1].cy), (2, 1));
    assert_eq!(grid[1].indices, vec![1]);
    assert_eq!((grid[2].cx, grid[2].cy), (-1, 0));
    assert_eq!(grid[2].indices, vec![3]);
}
