//! Per-pixel luminosity thresholding: fixed two-color, random, and the
//! luminosity-independent checkerboard pattern.

use vstd::prelude::*;

use crate::color::{black, is_bw, lum_scaled, luminosity_scaled, white, Color, LUM_MAX};
use crate::raster::{col, row, Image};
use crate::rng::random_below;

verus! {

/// The fixed classification threshold: a luminosity of 127.5, scaled.
pub const MID_LUM: u32 = 1275000;

/// The color a fixed-threshold pixel becomes: the light color where the
/// luminosity exceeds 127.5, the dark color otherwise.
pub open spec fn threshold_color(c: Color, light: Color, dark: Color) -> Color {
    if lum_scaled(c) > MID_LUM {
        light
    } else {
        dark
    }
}

/// The color a checkerboard pixel becomes: white where the coordinate sum is
/// even, the original color otherwise.
pub open spec fn checker_color(c: Color, x: int, y: int) -> Color {
    if (x + y) % 2 == 0 {
        white()
    } else {
        c
    }
}

/// Fixed thresholding emits the light color on every pixel of an all-white
/// image and the dark color on every pixel of an all-black image, whatever
/// the two colors are.
pub proof fn lemma_threshold_on_uniform(s: Seq<Color>, light: Color, dark: Color)
    ensures
        threshold_color(white(), light, dark) == light,
        threshold_color(black(), light, dark) == dark,
        (forall|k: int| 0 <= k < s.len() ==> s[k] == white()) ==> (forall|k: int|
            0 <= k < s.len() ==> threshold_color(#[trigger] s[k], light, dark) == light),
        (forall|k: int| 0 <= k < s.len() ==> s[k] == black()) ==> (forall|k: int|
            0 <= k < s.len() ==> threshold_color(#[trigger] s[k], light, dark) == dark),
{
}

/// Classifies one pixel by its luminosity against the fixed 127.5 threshold
/// into a caller-supplied light or dark color.
pub fn pixel_luminosity_to_custom(color: &Color, light_color: Color, dark_color: Color) -> (r:
    Color)
    ensures
        r == threshold_color(*color, light_color, dark_color),
{
    let luminosity = luminosity_scaled(color);
    if luminosity > MID_LUM {
        light_color
    } else {
        dark_color
    }
}

/// Replaces every pixel by the light color where its luminosity exceeds
/// 127.5 and by the dark color otherwise. Each pixel is classified
/// independently of the others.
pub fn apply_luminosity_threshold(img: &mut Image, light_color: Color, dark_color: Color)
    requires
        old(img).wf(),
    ensures
        final(img).wf(),
        final(img).width == old(img).width,
        final(img).height == old(img).height,
        final(img).pixels@.len() == old(img).pixels@.len(),
        forall|k: int|
            0 <= k < old(img).pixels@.len() ==> final(img).pixels@[k] == threshold_color(
                old(img).pixels@[k],
                light_color,
                dark_color,
            ),
{
    let n = img.pixels.len();
    let mut k: usize = 0;
    while k < n
        invariant
            k <= n,
            img.wf(),
            img.width == old(img).width,
            img.height == old(img).height,
            img.pixels@.len() == n,
            n == old(img).pixels@.len(),
            forall|j: int| k <= j < n ==> img.pixels@[j] == old(img).pixels@[j],
            forall|j: int|
                0 <= j < k ==> img.pixels@[j] == threshold_color(
                    old(img).pixels@[j],
                    light_color,
                    dark_color,
                ),
        decreases n - k,
    {
        let c = pixel_luminosity_to_custom(&img.pixels[k], light_color, dark_color);
        img.pixels.set(k, c);
        k = k + 1;
    }
}

/// Replaces every pixel by white or black against a per-pixel random
/// threshold drawn uniformly from [0, 255), scaled. Only what holds of every
/// possible threshold is stated: each output pixel is black or white, a pixel
/// of maximal luminosity always becomes white, and a pixel of zero luminosity
/// always becomes black.
pub fn apply_random_dithering(img: &mut Image)
    requires
        old(img).wf(),
    ensures
        final(img).wf(),
        final(img).width == old(img).width,
        final(img).height == old(img).height,
        final(img).pixels@.len() == old(img).pixels@.len(),
        forall|k: int| 0 <= k < old(img).pixels@.len() ==> is_bw(#[trigger] final(img).pixels@[k]),
        forall|k: int|
            0 <= k < old(img).pixels@.len() && lum_scaled(old(img).pixels@[k]) == LUM_MAX
                ==> final(img).pixels@[k] == white(),
        forall|k: int|
            0 <= k < old(img).pixels@.len() && lum_scaled(old(img).pixels@[k]) == 0
                ==> final(img).pixels@[k] == black(),
{
    let n = img.pixels.len();
    let mut k: usize = 0;
    while k < n
        invariant
            k <= n,
            img.wf(),
            img.width == old(img).width,
            img.height == old(img).height,
            img.pixels@.len() == n,
            n == old(img).pixels@.len(),
            forall|j: int| k <= j < n ==> img.pixels@[j] == old(img).pixels@[j],
            forall|j: int| 0 <= j < k ==> is_bw(#[trigger] img.pixels@[j]),
            forall|j: int|
                0 <= j < k && lum_scaled(old(img).pixels@[j]) == LUM_MAX ==> img.pixels@[j]
                    == white(),
            forall|j: int|
                0 <= j < k && lum_scaled(old(img).pixels@[j]) == 0 ==> img.pixels@[j] == black(),
        decreases n - k,
    {
        let threshold = random_below(LUM_MAX);
        let luminosity = luminosity_scaled(&img.pixels[k]);
        let c = if luminosity > threshold {
            Color { r: 255, g: 255, b: 255 }
        } else {
            Color { r: 0, g: 0, b: 0 }
        };
        img.pixels.set(k, c);
        k = k + 1;
    }
}

/// Forces every pixel whose coordinate sum x + y is even to white and leaves
/// the others unchanged, independent of luminosity.
pub fn apply_checkerboard(img: &mut Image)
    requires
        old(img).wf(),
    ensures
        final(img).wf(),
        final(img).width == old(img).width,
        final(img).height == old(img).height,
        final(img).pixels@.len() == old(img).pixels@.len(),
        forall|k: int|
            0 <= k < old(img).pixels@.len() ==> final(img).pixels@[k] == checker_color(
                old(img).pixels@[k],
                col(k, old(img).width as int),
                row(k, old(img).width as int),
            ),
{
    let n = img.pixels.len();
    let w = img.width;
    if w == 0 {
        proof {
            let h = old(img).height as int;
            assert(old(img).wf());
            assert(old(img).width as int == 0);
            assert(old(img).pixels@.len() == 0 * h);
            assert(0 * h == 0) by (nonlinear_arith);
        }
        return ;
    }
    let mut k: usize = 0;
    while k < n
        invariant
            k <= n,
            w == img.width,
            w > 0,
            img.wf(),
            img.width == old(img).width,
            img.height == old(img).height,
            img.pixels@.len() == n,
            n == old(img).pixels@.len(),
            forall|j: int| k <= j < n ==> img.pixels@[j] == old(img).pixels@[j],
            forall|j: int|
                0 <= j < k ==> img.pixels@[j] == checker_color(
                    old(img).pixels@[j],
                    col(j, w as int),
                    row(j, w as int),
                ),
        decreases n - k,
    {
        let x = k % w;
        let y = k / w;
        proof {
            vstd::arithmetic::div_mod::lemma_fundamental_div_mod(k as int, w as int);
            assert(x as int + y as int <= k as int) by (nonlinear_arith)
                requires
                    k as int == w as int * (y as int) + x as int,
                    w as int >= 1,
                    y as int >= 0,
                    x as int >= 0,
            ;
        }
        if (x + y) % 2 == 0 {
            img.pixels.set(k, Color { r: 255, g: 255, b: 255 });
        }
        k = k + 1;
    }
}

} // verus!
