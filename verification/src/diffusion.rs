//! Error-diffusion dithering: the naive two-neighbor bi-level variant, the
//! palette-based variant, and the Floyd-Steinberg variant.
//!
//! All three scan the image in raster order and propagate the quantization
//! residue of each pixel only to pixels not yet visited (right, below, and
//! for Floyd-Steinberg below-right), so a pixel is never modified after it
//! has been classified. Each algorithm's full effect is stated as a fold of
//! its per-pixel step over the scan.

use vstd::prelude::*;

use crate::color::{black, is_bw, lum_scaled, luminosity_scaled, white, Color};
use crate::palette::{bilevel_palette, closest_palette_color, lemma_nearest_index_minimal,
    nearest_index};
use crate::raster::{lemma_nonempty_width, lemma_scan_bounds, Image};
use crate::threshold::MID_LUM;

verus! {

/// The Floyd-Steinberg classification threshold: a luminosity of 128, scaled.
pub const FS_MID_LUM: u32 = 1280000;

/// A non-negative channel value saturated to the channel range.
pub open spec fn cap255(v: int) -> u8 {
    if v > 255 {
        255u8
    } else {
        v as u8
    }
}

/// Black or white by the fixed 127.5 luminosity threshold.
pub open spec fn classify_bw(c: Color) -> Color {
    if lum_scaled(c) > MID_LUM {
        white()
    } else {
        black()
    }
}

/// Half the residual luminosity of the naive bi-level classification, as the
/// byte added to each neighbor channel. A pixel classified white has residue
/// `lum - 255 <= 0`, which the byte conversion flattens to zero; a pixel
/// classified black has residue `lum`, of which half is kept, rounded down.
pub open spec fn half_error(c: Color) -> int {
    if lum_scaled(c) > MID_LUM {
        0
    } else {
        lum_scaled(c) / 20000
    }
}

/// Adds a non-negative error to every channel, saturating at 255.
pub open spec fn sat_add_color(c: Color, e: int) -> Color {
    Color { r: cap255(c.r + e), g: cap255(c.g + e), b: cap255(c.b + e) }
}

/// One step of naive two-neighbor diffusion at flat index k: half the
/// luminosity residue is added (saturating) to all channels of the right and
/// lower neighbors, then the pixel itself is classified black or white.
pub open spec fn diffuse_step(s: Seq<Color>, w: int, h: int, k: int) -> Seq<Color> {
    let x = k % w;
    let y = k / w;
    let e = half_error(s[k]);
    let s1 = if x + 1 < w {
        s.update(k + 1, sat_add_color(s[k + 1], e))
    } else {
        s
    };
    let s2 = if y + 1 < h {
        s1.update(k + w, sat_add_color(s1[k + w], e))
    } else {
        s1
    };
    s2.update(k, classify_bw(s[k]))
}

/// The scan of naive diffusion from flat index k to the end of the buffer.
pub open spec fn diffuse_from(s: Seq<Color>, w: int, h: int, k: int) -> Seq<Color>
    decreases w * h - k,
{
    if k < 0 || k >= w * h {
        s
    } else {
        diffuse_from(diffuse_step(s, w, h, k), w, h, k + 1)
    }
}

/// Saturating add of a byte-sized error to one channel.
fn sat_add_u8(v: u8, e: u8) -> (r: u8)
    ensures
        r == cap255(v + e),
{
    let sum = v as u32 + e as u32;
    if sum > 255 {
        255
    } else {
        sum as u8
    }
}

/// Naive two-neighbor bi-level error diffusion: every pixel is classified
/// black or white against the 127.5 luminosity threshold, and half the
/// residual luminosity is added, saturating, to each channel of the right
/// and lower neighbors before they are visited. The final image is exactly
/// the fold of `diffuse_step` over the raster scan, and every pixel of it is
/// black or white.
pub fn apply_error_diffusion_dithering(img: &mut Image)
    requires
        old(img).wf(),
    ensures
        final(img).wf(),
        final(img).width == old(img).width,
        final(img).height == old(img).height,
        final(img).pixels@ == diffuse_from(
            old(img).pixels@,
            old(img).width as int,
            old(img).height as int,
            0,
        ),
        forall|j: int| 0 <= j < final(img).pixels@.len() ==> is_bw(#[trigger] final(img).pixels@[j]),
{
    let w = img.width;
    let h = img.height;
    let n = img.pixels.len();
    let ghost w_i = w as int;
    let ghost h_i = h as int;
    let mut k: usize = 0;
    while k < n
        invariant
            img.wf(),
            img.width == w,
            img.height == h,
            img.pixels@.len() == n,
            n == w_i * h_i,
            w_i == w as int,
            h_i == h as int,
            k <= n,
            diffuse_from(old(img).pixels@, w_i, h_i, 0) == diffuse_from(
                img.pixels@,
                w_i,
                h_i,
                k as int,
            ),
            forall|j: int| 0 <= j < k ==> is_bw(#[trigger] img.pixels@[j]),
        decreases n - k,
    {
        let ghost s0 = img.pixels@;
        proof {
            lemma_nonempty_width(w_i, h_i, n as int);
            lemma_scan_bounds(k as int, w_i, h_i);
        }
        let x = k % w;
        let y = k / w;
        let p = img.pixels[k];
        let lum = luminosity_scaled(&p);
        let e: u8 = if lum > MID_LUM {
            0
        } else {
            (lum / 20000) as u8
        };
        if x + 1 < w {
            let nb = img.pixels[k + 1];
            let c = Color {
                r: sat_add_u8(nb.r, e),
                g: sat_add_u8(nb.g, e),
                b: sat_add_u8(nb.b, e),
            };
            img.pixels.set(k + 1, c);
        }
        if y + 1 < h {
            let nb = img.pixels[k + w];
            let c = Color {
                r: sat_add_u8(nb.r, e),
                g: sat_add_u8(nb.g, e),
                b: sat_add_u8(nb.b, e),
            };
            img.pixels.set(k + w, c);
        }
        let out = if lum > MID_LUM {
            Color { r: 255, g: 255, b: 255 }
        } else {
            Color { r: 0, g: 0, b: 0 }
        };
        img.pixels.set(k, out);
        proof {
            assert(img.pixels@ =~= diffuse_step(s0, w_i, h_i, k as int));
            assert(diffuse_from(s0, w_i, h_i, k as int) == diffuse_from(
                img.pixels@,
                w_i,
                h_i,
                k as int + 1,
            ));
        }
        k = k + 1;
    }
}

/// The fixed-palette entry the palettizing diffusion assigns to a pixel.
pub open spec fn chosen_palette_color(c: Color) -> Color {
    bilevel_palette()[nearest_index(c, bilevel_palette())]
}

/// The color is an entry of the fixed five-color palette.
pub open spec fn in_bilevel_palette(c: Color) -> bool {
    exists|i: int| 0 <= i < bilevel_palette().len() && c == bilevel_palette()[i]
}

/// A channel after receiving half of a signed error, clamped to [0, 255]:
/// the exact integer form of `clamp(v + err / 2, 0, 255)` rounded toward
/// zero, computed on the doubled value `2 v + err`.
pub open spec fn clamp_half(v: int, err: int) -> u8 {
    let v2 = 2 * v + err;
    if v2 < 0 {
        0u8
    } else if v2 >= 510 {
        255u8
    } else {
        (v2 / 2) as u8
    }
}

/// Adds half of a per-channel error vector to a color, each channel clamped
/// independently.
pub open spec fn add_half_error(c: Color, er: int, eg: int, eb: int) -> Color {
    Color { r: clamp_half(c.r as int, er), g: clamp_half(c.g as int, eg), b: clamp_half(c.b as int, eb) }
}

/// One step of palette-based diffusion at flat index k: the pixel is replaced
/// by the nearest entry of the fixed five-color palette, and half of the
/// per-channel residue of the original value is added, clamped, to the right
/// and lower neighbors.
pub open spec fn palettize_step(s: Seq<Color>, w: int, h: int, k: int) -> Seq<Color> {
    let x = k % w;
    let y = k / w;
    let p = s[k];
    let q = chosen_palette_color(p);
    let er = p.r - q.r;
    let eg = p.g - q.g;
    let eb = p.b - q.b;
    let s1 = if x + 1 < w {
        s.update(k + 1, add_half_error(s[k + 1], er, eg, eb))
    } else {
        s
    };
    let s2 = if y + 1 < h {
        s1.update(k + w, add_half_error(s1[k + w], er, eg, eb))
    } else {
        s1
    };
    s2.update(k, q)
}

/// The scan of palette-based diffusion from flat index k to the end.
pub open spec fn palettize_from(s: Seq<Color>, w: int, h: int, k: int) -> Seq<Color>
    decreases w * h - k,
{
    if k < 0 || k >= w * h {
        s
    } else {
        palettize_from(palettize_step(s, w, h, k), w, h, k + 1)
    }
}

/// Clamped half-error add for one channel.
fn clamp_half_add(v: u8, err: i32) -> (r: u8)
    requires
        -255 <= err <= 255,
    ensures
        r == clamp_half(v as int, err as int),
{
    let v2: i32 = 2 * (v as i32) + err;
    if v2 < 0 {
        0
    } else if v2 >= 510 {
        255
    } else {
        ((v2 as u32) / 2) as u8
    }
}

/// Palette-based error diffusion: every pixel is replaced by the nearest
/// entry of the fixed five-color palette, and half of the per-channel residue
/// of the original pixel value is added, clamped to the channel range, to the
/// right and lower neighbors before they are visited. The final image is
/// exactly the fold of `palettize_step` over the raster scan, and every pixel
/// of it is an entry of the palette.
pub fn apply_error_diffusion_palettization(img: &mut Image)
    requires
        old(img).wf(),
    ensures
        final(img).wf(),
        final(img).width == old(img).width,
        final(img).height == old(img).height,
        final(img).pixels@ == palettize_from(
            old(img).pixels@,
            old(img).width as int,
            old(img).height as int,
            0,
        ),
        forall|j: int|
            0 <= j < final(img).pixels@.len() ==> in_bilevel_palette(
                #[trigger] final(img).pixels@[j],
            ),
{
    let w = img.width;
    let h = img.height;
    let n = img.pixels.len();
    let ghost w_i = w as int;
    let ghost h_i = h as int;
    let mut k: usize = 0;
    while k < n
        invariant
            img.wf(),
            img.width == w,
            img.height == h,
            img.pixels@.len() == n,
            n == w_i * h_i,
            w_i == w as int,
            h_i == h as int,
            k <= n,
            palettize_from(old(img).pixels@, w_i, h_i, 0) == palettize_from(
                img.pixels@,
                w_i,
                h_i,
                k as int,
            ),
            forall|j: int| 0 <= j < k ==> in_bilevel_palette(#[trigger] img.pixels@[j]),
        decreases n - k,
    {
        let ghost s0 = img.pixels@;
        proof {
            lemma_nonempty_width(w_i, h_i, n as int);
            lemma_scan_bounds(k as int, w_i, h_i);
        }
        let x = k % w;
        let y = k / w;
        let p = img.pixels[k];
        let q = closest_palette_color(&p);
        proof {
            lemma_nearest_index_minimal(p, bilevel_palette());
            assert(in_bilevel_palette(q));
        }
        let er: i32 = p.r as i32 - q.r as i32;
        let eg: i32 = p.g as i32 - q.g as i32;
        let eb: i32 = p.b as i32 - q.b as i32;
        if x + 1 < w {
            let nb = img.pixels[k + 1];
            let c = Color {
                r: clamp_half_add(nb.r, er),
                g: clamp_half_add(nb.g, eg),
                b: clamp_half_add(nb.b, eb),
            };
            img.pixels.set(k + 1, c);
        }
        if y + 1 < h {
            let nb = img.pixels[k + w];
            let c = Color {
                r: clamp_half_add(nb.r, er),
                g: clamp_half_add(nb.g, eg),
                b: clamp_half_add(nb.b, eb),
            };
            img.pixels.set(k + w, c);
        }
        img.pixels.set(k, q);
        proof {
            assert(img.pixels@ =~= palettize_step(s0, w_i, h_i, k as int));
            assert(palettize_from(s0, w_i, h_i, k as int) == palettize_from(
                img.pixels@,
                w_i,
                h_i,
                k as int + 1,
            ));
        }
        k = k + 1;
    }
}

/// The bi-level value Floyd-Steinberg assigns to a pixel: 255 where the
/// luminosity strictly exceeds 128, otherwise 0.
pub open spec fn fs_value(c: Color) -> int {
    if lum_scaled(c) > FS_MID_LUM {
        255
    } else {
        0
    }
}

/// The scaled residual luminosity of the Floyd-Steinberg classification.
pub open spec fn fs_err(c: Color) -> int {
    lum_scaled(c) - 10000 * fs_value(c)
}

/// Adds `err * wnum / 16` (scaled luminosity error times a sixteenth weight)
/// to the red channel only, truncated toward zero and saturated to the
/// channel range; the denominator 160000 is 16 times the luminosity scale.
pub open spec fn fs_add_red(c: Color, err: int, wnum: int) -> Color {
    let num = 160000 * c.r + err * wnum;
    let nr = if num < 0 {
        0u8
    } else if num / 160000 > 255 {
        255u8
    } else {
        (num / 160000) as u8
    };
    Color { r: nr, g: c.g, b: c.b }
}

/// One step of Floyd-Steinberg diffusion at flat index k: the pixel is
/// overwritten with its bi-level value on all three channels, then the
/// residue is distributed onto the red channel of the right neighbor with
/// weight 7/16, the lower neighbor with weight 3/16, and the lower-right
/// neighbor with weight 5/16. The weights sum to 15/16: the canonical 1/16
/// share of the lower-left neighbor is deliberately omitted.
pub open spec fn fs_step(s: Seq<Color>, w: int, h: int, k: int) -> Seq<Color> {
    let x = k % w;
    let y = k / w;
    let p = s[k];
    let v = fs_value(p);
    let e = fs_err(p);
    let s0 = s.update(k, Color { r: v as u8, g: v as u8, b: v as u8 });
    let s1 = if x + 1 < w {
        s0.update(k + 1, fs_add_red(s0[k + 1], e, 7))
    } else {
        s0
    };
    let s2 = if y + 1 < h {
        s1.update(k + w, fs_add_red(s1[k + w], e, 3))
    } else {
        s1
    };
    if x + 1 < w && y + 1 < h {
        s2.update(k + w + 1, fs_add_red(s2[k + w + 1], e, 5))
    } else {
        s2
    }
}

/// The scan of Floyd-Steinberg diffusion from flat index k to the end.
pub open spec fn fs_from(s: Seq<Color>, w: int, h: int, k: int) -> Seq<Color>
    decreases w * h - k,
{
    if k < 0 || k >= w * h {
        s
    } else {
        fs_from(fs_step(s, w, h, k), w, h, k + 1)
    }
}

/// Weighted residue add onto the red channel.
fn fs_add_red_exec(c: Color, err: i64, wnum: i64) -> (r: Color)
    requires
        -2550000 <= err <= 2550000,
        1 <= wnum <= 7,
    ensures
        r == fs_add_red(c, err as int, wnum as int),
{
    proof {
        assert(-17850000 <= err * wnum <= 17850000) by (nonlinear_arith)
            requires
                -2550000 <= err <= 2550000,
                1 <= wnum <= 7,
        ;
    }
    let num: i64 = 160000 * (c.r as i64) + err * wnum;
    let nr: u8 = if num < 0 {
        0
    } else {
        let q = (num as u64) / 160000;
        if q > 255 {
            255
        } else {
            q as u8
        }
    };
    Color { r: nr, g: c.g, b: c.b }
}

/// Floyd-Steinberg dithering on the luminosity channel: every pixel is
/// overwritten with 255 or 0 on all three channels by the 128 luminosity
/// threshold, and the residue is distributed onto the red channel of the
/// right (7/16), lower (3/16) and lower-right (5/16) neighbors, truncated
/// and saturated to the channel range. The final image is exactly the fold
/// of `fs_step` over the raster scan, and every pixel of it is black or
/// white.
pub fn apply_floyd_steinberg_dithering(img: &mut Image)
    requires
        old(img).wf(),
    ensures
        final(img).wf(),
        final(img).width == old(img).width,
        final(img).height == old(img).height,
        final(img).pixels@ == fs_from(
            old(img).pixels@,
            old(img).width as int,
            old(img).height as int,
            0,
        ),
        forall|j: int| 0 <= j < final(img).pixels@.len() ==> is_bw(#[trigger] final(img).pixels@[j]),
{
    let w = img.width;
    let h = img.height;
    let n = img.pixels.len();
    let ghost w_i = w as int;
    let ghost h_i = h as int;
    let mut k: usize = 0;
    while k < n
        invariant
            img.wf(),
            img.width == w,
            img.height == h,
            img.pixels@.len() == n,
            n == w_i * h_i,
            w_i == w as int,
            h_i == h as int,
            k <= n,
            fs_from(old(img).pixels@, w_i, h_i, 0) == fs_from(img.pixels@, w_i, h_i, k as int),
            forall|j: int| 0 <= j < k ==> is_bw(#[trigger] img.pixels@[j]),
        decreases n - k,
    {
        let ghost s0 = img.pixels@;
        proof {
            lemma_nonempty_width(w_i, h_i, n as int);
            lemma_scan_bounds(k as int, w_i, h_i);
        }
        let x = k % w;
        let y = k / w;
        let p = img.pixels[k];
        let lum = luminosity_scaled(&p);
        let v: u8 = if lum > FS_MID_LUM {
            255
        } else {
            0
        };
        let err: i64 = lum as i64 - 10000 * (v as i64);
        img.pixels.set(k, Color { r: v, g: v, b: v });
        if x + 1 < w {
            let nb = img.pixels[k + 1];
            let c = fs_add_red_exec(nb, err, 7);
            img.pixels.set(k + 1, c);
        }
        if y + 1 < h {
            let nb = img.pixels[k + w];
            let c = fs_add_red_exec(nb, err, 3);
            img.pixels.set(k + w, c);
            if x + 1 < w {
                let nb2 = img.pixels[k + w + 1];
                let c2 = fs_add_red_exec(nb2, err, 5);
                img.pixels.set(k + w + 1, c2);
            }
        }
        proof {
            assert(img.pixels@ =~= fs_step(s0, w_i, h_i, k as int));
            assert(fs_from(s0, w_i, h_i, k as int) == fs_from(img.pixels@, w_i, h_i, k as int + 1));
        }
        k = k + 1;
    }
}

} // verus!
