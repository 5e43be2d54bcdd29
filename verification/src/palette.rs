//! Palettes and nearest-color lookup.

use vstd::prelude::*;

use crate::color::{black, dist_sq, white, Color};

verus! {

/// The red palette entry.
pub open spec fn red() -> Color {
    Color { r: 255, g: 0, b: 0 }
}

/// The green palette entry.
pub open spec fn green() -> Color {
    Color { r: 0, g: 255, b: 0 }
}

/// The blue palette entry.
pub open spec fn blue() -> Color {
    Color { r: 0, g: 0, b: 255 }
}

/// The yellow palette entry.
pub open spec fn yellow() -> Color {
    Color { r: 255, g: 255, b: 0 }
}

/// The magenta palette entry.
pub open spec fn magenta() -> Color {
    Color { r: 255, g: 0, b: 255 }
}

/// The cyan palette entry.
pub open spec fn cyan() -> Color {
    Color { r: 0, g: 255, b: 255 }
}

/// The eight-color base palette that generated palettes cycle through.
pub open spec fn base_palette() -> Seq<Color> {
    seq![black(), white(), red(), green(), blue(), yellow(), magenta(), cyan()]
}

/// The fixed five-color palette used by palette-based error diffusion.
pub open spec fn bilevel_palette() -> Seq<Color> {
    seq![black(), white(), red(), blue(), green()]
}

/// Index of the palette entry nearest to `p` among the first `n` entries,
/// with ties resolved to the earliest index: the running minimum is replaced
/// only on a strictly smaller distance.
pub open spec fn nearest_in_prefix(p: Color, pal: Seq<Color>, n: int) -> int
    decreases n,
{
    if n <= 1 {
        0
    } else {
        let b = nearest_in_prefix(p, pal, n - 1);
        if dist_sq(p, pal[n - 1]) < dist_sq(p, pal[b]) {
            n - 1
        } else {
            b
        }
    }
}

/// Index of the palette entry nearest to `p`, earliest index on ties.
pub open spec fn nearest_index(p: Color, pal: Seq<Color>) -> int {
    nearest_in_prefix(p, pal, pal.len() as int)
}

/// The nearest index points into the prefix, no entry of the prefix is
/// strictly nearer, and every earlier entry is strictly farther.
proof fn lemma_nearest_in_prefix_minimal(p: Color, pal: Seq<Color>, n: int)
    requires
        1 <= n <= pal.len(),
    ensures
        0 <= nearest_in_prefix(p, pal, n) < n,
        forall|j: int|
            0 <= j < n ==> dist_sq(p, pal[nearest_in_prefix(p, pal, n)]) <= #[trigger] dist_sq(p, pal[j]),
        forall|j: int|
            0 <= j < nearest_in_prefix(p, pal, n) ==> #[trigger] dist_sq(p, pal[j]) > dist_sq(
                p,
                pal[nearest_in_prefix(p, pal, n)],
            ),
    decreases n,
{
    if n > 1 {
        lemma_nearest_in_prefix_minimal(p, pal, n - 1);
    }
}

/// The entry at `nearest_index` is a member of the palette with minimal
/// distance to `p`, and every entry before it is strictly farther, so ties
/// resolve to the earliest minimal entry.
pub proof fn lemma_nearest_index_minimal(p: Color, pal: Seq<Color>)
    requires
        pal.len() > 0,
    ensures
        0 <= nearest_index(p, pal) < pal.len(),
        forall|j: int|
            0 <= j < pal.len() ==> dist_sq(p, pal[nearest_index(p, pal)]) <= #[trigger] dist_sq(p, pal[j]),
        forall|j: int|
            0 <= j < nearest_index(p, pal) ==> #[trigger] dist_sq(p, pal[j]) > dist_sq(
                p,
                pal[nearest_index(p, pal)],
            ),
{
    lemma_nearest_in_prefix_minimal(p, pal, pal.len() as int);
}

/// The eight base colors as a vector.
pub fn base_palette_vec() -> (v: Vec<Color>)
    ensures
        v@ == base_palette(),
{
    let mut v: Vec<Color> = Vec::new();
    v.push(Color { r: 0, g: 0, b: 0 });
    v.push(Color { r: 255, g: 255, b: 255 });
    v.push(Color { r: 255, g: 0, b: 0 });
    v.push(Color { r: 0, g: 255, b: 0 });
    v.push(Color { r: 0, g: 0, b: 255 });
    v.push(Color { r: 255, g: 255, b: 0 });
    v.push(Color { r: 255, g: 0, b: 255 });
    v.push(Color { r: 0, g: 255, b: 255 });
    proof {
        assert(v@ =~= base_palette());
    }
    v
}

/// The fixed five-color error-diffusion palette as a vector.
pub fn fixed_bilevel_palette() -> (v: Vec<Color>)
    ensures
        v@ == bilevel_palette(),
{
    let mut v: Vec<Color> = Vec::new();
    v.push(Color { r: 0, g: 0, b: 0 });
    v.push(Color { r: 255, g: 255, b: 255 });
    v.push(Color { r: 255, g: 0, b: 0 });
    v.push(Color { r: 0, g: 0, b: 255 });
    v.push(Color { r: 0, g: 255, b: 0 });
    proof {
        assert(v@ =~= bilevel_palette());
    }
    v
}

/// A palette of exactly n colors, built by cycling the eight-color base
/// palette: entry i is base entry i mod 8.
pub fn generate_palette(n: usize) -> (pal: Vec<Color>)
    ensures
        pal@.len() == n,
        forall|i: int| 0 <= i < n ==> pal@[i] == base_palette()[i % 8],
{
    let base = base_palette_vec();
    let mut pal: Vec<Color> = Vec::new();
    let mut k: usize = 0;
    while k < n
        invariant
            k <= n,
            pal@.len() == k,
            base@ == base_palette(),
            forall|i: int| 0 <= i < k ==> pal@[i] == base_palette()[i % 8],
        decreases n - k,
    {
        pal.push(base[k % 8]);
        k = k + 1;
    }
    pal
}

/// The palette entry nearest to `pixel` in squared Euclidean distance; when
/// several entries are equally near, the one with the smallest index.
pub fn pixel_to_palette(pixel: &Color, palette: &[Color]) -> (r: Color)
    requires
        palette@.len() > 0,
    ensures
        r == palette@[nearest_index(*pixel, palette@)],
{
    let mut best: usize = 0;
    let mut min_distance = crate::color::color_distance(pixel, &palette[0]);
    let mut i: usize = 1;
    while i < palette.len()
        invariant
            1 <= i <= palette@.len(),
            best == nearest_in_prefix(*pixel, palette@, i as int),
            0 <= best < i,
            min_distance == dist_sq(*pixel, palette@[best as int]),
        decreases palette@.len() - i,
    {
        let dist = crate::color::color_distance(pixel, &palette[i]);
        if dist < min_distance {
            best = i;
            min_distance = dist;
        }
        i = i + 1;
    }
    palette[best]
}

/// A palette whose entry i is base entry i mod 8 — as `generate_palette`
/// ensures — has its first eight entries (or fewer, when it is shorter)
/// equal to the base palette in order.
pub proof fn lemma_generated_prefix_matches_base(pal: Seq<Color>, n: int)
    requires
        pal.len() == n,
        forall|i: int| 0 <= i < n ==> pal[i] == base_palette()[i % 8],
    ensures
        forall|i: int| 0 <= i < n && i < 8 ==> pal[i] == base_palette()[i],
{
    assert forall|i: int| 0 <= i < n && i < 8 implies pal[i] == base_palette()[i] by {
        assert(i % 8 == i);
    }
}

/// Replaces every pixel of the image by the palette entry nearest to it,
/// each pixel independently of the others.
pub fn apply_palette_mapping(img: &mut crate::raster::Image, palette: &[Color])
    requires
        old(img).wf(),
        palette@.len() > 0,
    ensures
        final(img).wf(),
        final(img).width == old(img).width,
        final(img).height == old(img).height,
        final(img).pixels@.len() == old(img).pixels@.len(),
        forall|k: int|
            0 <= k < old(img).pixels@.len() ==> final(img).pixels@[k] == palette@[nearest_index(
                old(img).pixels@[k],
                palette@,
            )],
{
    let n = img.pixels.len();
    let mut k: usize = 0;
    while k < n
        invariant
            k <= n,
            img.wf(),
            img.width == old(img).width,
            img.height == old(img).height,
            img.pixels@.len() == n,
            n == old(img).pixels@.len(),
            palette@.len() > 0,
            forall|j: int| k <= j < n ==> img.pixels@[j] == old(img).pixels@[j],
            forall|j: int|
                0 <= j < k ==> img.pixels@[j] == palette@[nearest_index(
                    old(img).pixels@[j],
                    palette@,
                )],
        decreases n - k,
    {
        let c = pixel_to_palette(&img.pixels[k], palette);
        img.pixels.set(k, c);
        k = k + 1;
    }
}

/// The entry of the fixed five-color palette nearest to `pixel`, earliest
/// index on ties.
pub fn closest_palette_color(pixel: &Color) -> (r: Color)
    ensures
        r == bilevel_palette()[nearest_index(*pixel, bilevel_palette())],
{
    let palette = fixed_bilevel_palette();
    pixel_to_palette(pixel, palette.as_slice())
}

} // verus!
