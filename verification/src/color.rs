//! Derived display color: a particle's color is a pure function of its
//! instantaneous speed, recomputed every integration step and never
//! authoritative.  Speed is scaled and clamped onto a hue range (240° for a
//! body at rest, falling to 0° at three world units per step) and the hue is
//! converted to RGB.

use vstd::prelude::*;
use crate::fixed::{isqrt_u128, sqrt_floor, SCALE};

verus! {

/// Hue at speed zero, in degrees: blue.
pub const REST_HUE: i64 = 240;

/// RGB for a hue in `[0, 360)` at full saturation and value, each channel an
/// integer in `[0, 255]`: within each 60-degree sector one channel is full,
/// one is zero, and one ramps linearly.
pub open spec fn hue_rgb_spec(h: int) -> (int, int, int)
    recommends
        0 <= h < 360,
{
    let t = h % 60;
    let up = (t * 255) / 60;
    let down = 255 - up;
    if h < 60 {
        (255, up, 0)
    } else if h < 120 {
        (down, 255, 0)
    } else if h < 180 {
        (0, 255, up)
    } else if h < 240 {
        (0, down, 255)
    } else if h < 300 {
        (up, 0, 255)
    } else {
        (255, 0, down)
    }
}

/// Hue for a velocity `(vx, vy)` in fixed-point sub-units per step:
/// `REST_HUE` minus eighty times the speed in world units, clamped at zero.
pub open spec fn speed_hue_spec(vx: int, vy: int) -> int {
    let mag = sqrt_floor(vx * vx + vy * vy);
    let scaled = (80 * mag) / (SCALE as int);
    if REST_HUE - scaled < 0 {
        0
    } else {
        REST_HUE - scaled
    }
}

/// The color a particle displays at velocity `(vx, vy)`.
pub open spec fn col_of_speed(vx: int, vy: int) -> (u8, u8, u8) {
    let rgb = hue_rgb_spec(speed_hue_spec(vx, vy));
    (rgb.0 as u8, rgb.1 as u8, rgb.2 as u8)
}

/// Each channel of `hue_rgb_spec` fits in a byte.
pub proof fn lemma_hue_rgb_bounds(h: int)
    requires
        0 <= h < 360,
    ensures
        0 <= hue_rgb_spec(h).0 <= 255,
        0 <= hue_rgb_spec(h).1 <= 255,
        0 <= hue_rgb_spec(h).2 <= 255,
{
    let t = h % 60;
    vstd::arithmetic::div_mod::lemma_mod_bound(h, 60);
    vstd::arithmetic::div_mod::lemma_div_pos_is_pos(t * 255, 60);
    crate::fixed::lemma_div_bound(t * 255, 60, 256);
}

/// Converts a hue in `[0, 360)` to RGB.
pub fn hue_to_rgb(hue: i64) -> (col: (u8, u8, u8))
    requires
        0 <= hue < 360,
    ensures
        col.0 == hue_rgb_spec(hue as int).0,
        col.1 == hue_rgb_spec(hue as int).1,
        col.2 == hue_rgb_spec(hue as int).2,
{
    proof {
        lemma_hue_rgb_bounds(hue as int);
    }
    let t: u64 = (hue as u64) % 60;
    let up: u8 = ((t * 255) / 60) as u8;
    let down: u8 = 255 - up;
    if hue < 60 {
        (255, up, 0)
    } else if hue < 120 {
        (down, 255, 0)
    } else if hue < 180 {
        (0, 255, up)
    } else if hue < 240 {
        (0, down, 255)
    } else if hue < 300 {
        (up, 0, 255)
    } else {
        (255, 0, down)
    }
}

/// Computes the display color for a velocity in fixed-point sub-units.
pub fn speed_color(vx: i64, vy: i64) -> (col: (u8, u8, u8))
    requires
        -0x4000_0000_0000_0000 < vx < 0x4000_0000_0000_0000,
        -0x4000_0000_0000_0000 < vy < 0x4000_0000_0000_0000,
    ensures
        col == col_of_speed(vx as int, vy as int),
{
    proof {
        crate::fixed::lemma_square_le(vx as int, 0x4000_0000_0000_0000);
        crate::fixed::lemma_square_le(vy as int, 0x4000_0000_0000_0000);
    }
    let d2: i128 = (vx as i128) * (vx as i128) + (vy as i128) * (vy as i128);
    let mag: u128 = isqrt_u128(d2 as u128);
    let scaled: u128 = (80 * mag) / (SCALE as u128);
    let hue: i64 = if scaled >= 240 {
        0
    } else {
        240 - (scaled as i64)
    };
    proof {
        vstd::arithmetic::div_mod::lemma_div_pos_is_pos(80 * (mag as int), SCALE as int);
        lemma_hue_rgb_bounds(speed_hue_spec(vx as int, vy as int));
    }
    hue_to_rgb(hue)
}

} // verus!
