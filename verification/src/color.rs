//! Colors, perceptual luminosity and color distance.

use vstd::prelude::*;

verus! {

/// An RGB color: an ordered triple of 8-bit channel intensities.
#[derive(Clone, Copy, PartialEq, Eq, Structural, Debug)]
pub struct Color {
    pub r: u8,
    pub g: u8,
    pub b: u8,
}

/// Luminosity values are kept in fixed point, scaled by this factor, so that
/// the BT.709 channel weights 0.2126, 0.7152 and 0.0722 are exact integers.
pub const LUM_SCALE: u32 = 10000;

/// The largest scaled luminosity: 255 * LUM_SCALE.
pub const LUM_MAX: u32 = 2550000;

pub open spec fn black() -> Color {
    Color { r: 0, g: 0, b: 0 }
}

pub open spec fn white() -> Color {
    Color { r: 255, g: 255, b: 255 }
}

/// BT.709 perceptual luminosity of a color, scaled by `LUM_SCALE`:
/// 10000 * (0.2126 R + 0.7152 G + 0.0722 B).
pub open spec fn lum_scaled(c: Color) -> int {
    2126 * c.r + 7152 * c.g + 722 * c.b
}

/// Squared Euclidean distance between two colors in RGB space. Comparing
/// squared distances orders colors exactly as the real-valued distance does.
pub open spec fn dist_sq(c1: Color, c2: Color) -> int {
    (c1.r - c2.r) * (c1.r - c2.r)
        + (c1.g - c2.g) * (c1.g - c2.g)
        + (c1.b - c2.b) * (c1.b - c2.b)
}

/// The color is pure black or pure white.
pub open spec fn is_bw(c: Color) -> bool {
    c == black() || c == white()
}

/// BT.709 luminosity of a pixel, scaled by `LUM_SCALE`.
pub fn luminosity_scaled(c: &Color) -> (l: u32)
    ensures
        l == lum_scaled(*c),
        l <= LUM_MAX,
{
    2126 * (c.r as u32) + 7152 * (c.g as u32) + 722 * (c.b as u32)
}

/// Squared Euclidean distance between two colors.
///
/// The real-valued Euclidean distance is the square root of this value; the
/// square root is strictly monotonic, so every comparison of distances can be
/// made on the squares without changing its outcome.
pub fn color_distance(c1: &Color, c2: &Color) -> (d: u32)
    ensures
        d == dist_sq(*c1, *c2),
{
    let dr: i32 = c1.r as i32 - c2.r as i32;
    let dg: i32 = c1.g as i32 - c2.g as i32;
    let db: i32 = c1.b as i32 - c2.b as i32;
    proof {
        lemma_sq_bound(dr as int);
        lemma_sq_bound(dg as int);
        lemma_sq_bound(db as int);
    }
    (dr * dr + dg * dg + db * db) as u32
}

/// Squares of channel differences are small and non-negative.
proof fn lemma_sq_bound(x: int)
    by (nonlinear_arith)
    requires
        -255 <= x <= 255,
    ensures
        0 <= x * x <= 65025,
{
}

/// Every color's luminosity lies between the luminosity of black, which is 0,
/// and the luminosity of white, which is 255 (scaled: 255 * LUM_SCALE).
pub proof fn lemma_luminosity_bounds(c: Color)
    ensures
        0 <= lum_scaled(c) <= 255 * LUM_SCALE,
        lum_scaled(black()) == 0,
        lum_scaled(white()) == 255 * LUM_SCALE,
{
}

/// The distance from a color to itself is zero, and distance is symmetric.
pub proof fn lemma_distance_self_and_symmetric(c1: Color, c2: Color)
    ensures
        dist_sq(c1, c1) == 0,
        dist_sq(c1, c2) == dist_sq(c2, c1),
{
    assert(dist_sq(c1, c1) == 0) by (nonlinear_arith);
    assert(dist_sq(c1, c2) == dist_sq(c2, c1)) by (nonlinear_arith);
}

} // verus!
