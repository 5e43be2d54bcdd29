//! Ordered dithering: recursive Bayer threshold matrices and their
//! application to an image.

use vstd::prelude::*;

use crate::color::{black, lum_scaled, luminosity_scaled, white, Color, LUM_MAX};
use crate::raster::{col, row, Image};

verus! {

/// Side of the Bayer matrix of the given order: it doubles with each order,
/// so it equals 2^order.
pub open spec fn bayer_side(order: nat) -> nat
    decreases order,
{
    if order == 0 {
        1
    } else {
        2 * bayer_side((order - 1) as nat)
    }
}

/// Entry (i, j) of the Bayer matrix of the given order. The matrix of order
/// n has side 2^n; each quadrant refines the matrix of order n - 1: top-left
/// entries are 4m, top-right 4m + 2, bottom-left 4m + 3, bottom-right 4m + 1,
/// where m is the corresponding entry of the smaller matrix.
pub open spec fn bayer_val(order: nat, i: int, j: int) -> int
    decreases order,
{
    if order == 0 {
        0
    } else {
        let o = (order - 1) as nat;
        let s = bayer_side(o) as int;
        if i < s && j < s {
            4 * bayer_val(o, i, j)
        } else if i < s {
            4 * bayer_val(o, i, j - s) + 2
        } else if j < s {
            4 * bayer_val(o, i - s, j) + 3
        } else {
            4 * bayer_val(o, i - s, j - s) + 1
        }
    }
}

/// The side of a Bayer matrix is at least one.
pub proof fn lemma_bayer_side_pos(order: nat)
    ensures
        bayer_side(order) >= 1,
    decreases order,
{
    if order > 0 {
        lemma_bayer_side_pos((order - 1) as nat);
    }
}

/// The side of a Bayer matrix is the order-th power of two.
pub proof fn lemma_bayer_side_is_pow2(order: nat)
    ensures
        bayer_side(order) == vstd::arithmetic::power2::pow2(order),
    decreases order,
{
    reveal(vstd::arithmetic::power::pow);
    vstd::arithmetic::power::lemma_pow_positive(2, order);
    if order > 0 {
        lemma_bayer_side_is_pow2((order - 1) as nat);
        vstd::arithmetic::power::lemma_pow_positive(2, (order - 1) as nat);
    }
}

/// Orders up to 4 give sides up to 16, whose entries fit in a byte.
pub proof fn lemma_bayer_side_small(order: nat)
    requires
        order <= 4,
    ensures
        bayer_side(order) <= 16,
        order <= 3 ==> bayer_side(order) <= 8,
{
    assert(bayer_side(0) == 1);
    assert(bayer_side(1) == 2);
    assert(bayer_side(2) == 4);
    assert(bayer_side(3) == 8);
    assert(bayer_side(4) == 16);
}

/// Every entry of the Bayer matrix lies in [0, side * side), that is in
/// [0, 4^order).
pub proof fn lemma_bayer_val_range(order: nat, i: int, j: int)
    requires
        0 <= i < bayer_side(order),
        0 <= j < bayer_side(order),
    ensures
        0 <= bayer_val(order, i, j) < bayer_side(order) * bayer_side(order),
    decreases order,
{
    if order == 0 {
    } else {
        let o = (order - 1) as nat;
        let s = bayer_side(o) as int;
        lemma_bayer_side_pos(o);
        assert((2 * s) * (2 * s) == 4 * (s * s)) by (nonlinear_arith);
        if i < s && j < s {
            lemma_bayer_val_range(o, i, j);
        } else if i < s {
            lemma_bayer_val_range(o, i, j - s);
        } else if j < s {
            lemma_bayer_val_range(o, i - s, j);
        } else {
            lemma_bayer_val_range(o, i - s, j - s);
        }
    }
}

/// No two cells of the Bayer matrix hold the same value.
pub proof fn lemma_bayer_val_injective(order: nat, i1: int, j1: int, i2: int, j2: int)
    requires
        0 <= i1 < bayer_side(order),
        0 <= j1 < bayer_side(order),
        0 <= i2 < bayer_side(order),
        0 <= j2 < bayer_side(order),
        bayer_val(order, i1, j1) == bayer_val(order, i2, j2),
    ensures
        i1 == i2,
        j1 == j2,
    decreases order,
{
    if order == 0 {
    } else {
        let o = (order - 1) as nat;
        let s = bayer_side(o) as int;
        lemma_bayer_side_pos(o);
        if i1 < s && j1 < s {
            if i2 < s && j2 < s {
                lemma_bayer_val_injective(o, i1, j1, i2, j2);
            }
        } else if i1 < s {
            if i2 < s && !(j2 < s) {
                lemma_bayer_val_injective(o, i1, j1 - s, i2, j2 - s);
            }
        } else if j1 < s {
            if !(i2 < s) && j2 < s {
                lemma_bayer_val_injective(o, i1 - s, j1, i2 - s, j2);
            }
        } else {
            if !(i2 < s) && !(j2 < s) {
                lemma_bayer_val_injective(o, i1 - s, j1 - s, i2 - s, j2 - s);
            }
        }
    }
}

/// Every value in [0, side * side) appears somewhere in the Bayer matrix.
/// Together with the range and injectivity lemmas: the matrix of order n is a
/// permutation of [0, 4^n), each value appearing exactly once.
pub proof fn lemma_bayer_val_surjective(order: nat, v: int)
    requires
        0 <= v < bayer_side(order) * bayer_side(order),
    ensures
        exists|i: int, j: int|
            0 <= i < bayer_side(order) && 0 <= j < bayer_side(order) && bayer_val(order, i, j)
                == v,
    decreases order,
{
    if order == 0 {
        assert(bayer_side(order) == 1);
        assert(bayer_side(order) * bayer_side(order) == 1) by (nonlinear_arith)
            requires
                bayer_side(order) == 1,
        ;
        assert(v == 0);
        assert(bayer_val(order, 0, 0) == v);
        assert(0 <= 0 < bayer_side(order) && 0 <= 0 < bayer_side(order) && bayer_val(order, 0, 0)
            == v);
    } else {
        let o = (order - 1) as nat;
        let s = bayer_side(o) as int;
        lemma_bayer_side_pos(o);
        assert((2 * s) * (2 * s) == 4 * (s * s)) by (nonlinear_arith);
        let a = v / 4;
        let c = v % 4;
        vstd::arithmetic::div_mod::lemma_fundamental_div_mod(v, 4);
        lemma_bayer_val_surjective(o, a);
        let (i0, j0) = choose|i0: int, j0: int|
            0 <= i0 < bayer_side(o) && 0 <= j0 < bayer_side(o) && bayer_val(o, i0, j0) == a;
        if c == 0 {
            assert(bayer_val(order, i0, j0) == v);
        } else if c == 1 {
            assert(bayer_val(order, i0 + s, j0 + s) == v);
        } else if c == 2 {
            assert(bayer_val(order, i0, j0 + s) == v);
        } else {
            assert(bayer_val(order, i0 + s, j0) == v);
        }
    }
}

/// The Bayer threshold matrix of the given order, built recursively by
/// quadrant refinement. Entry (i, j) is `bayer_val(order, i, j)`.
pub fn generate_bayer_matrix(order: u8) -> (m: Vec<Vec<u8>>)
    requires
        order <= 4,
    ensures
        m@.len() == bayer_side(order as nat),
        forall|i: int| 0 <= i < m@.len() ==> (#[trigger] m@[i])@.len() == bayer_side(order as nat),
        forall|i: int, j: int|
            0 <= i < m@.len() && 0 <= j < m@.len() ==> (#[trigger] m@[i]@[j]) as int == bayer_val(
                order as nat,
                i,
                j,
            ),
    decreases order,
{
    if order == 0 {
        let mut first: Vec<u8> = Vec::new();
        first.push(0);
        let mut m: Vec<Vec<u8>> = Vec::new();
        m.push(first);
        m
    } else {
        let prev = generate_bayer_matrix(order - 1);
        let size = prev.len();
        proof {
            lemma_bayer_side_pos((order - 1) as nat);
            lemma_bayer_side_small((order - 1) as nat);
            assert(bayer_side((order - 1) as nat) <= 8);
            assert(bayer_side(order as nat) == 2 * bayer_side((order - 1) as nat));
        }
        let size2 = 2 * size;
        let mut m: Vec<Vec<u8>> = Vec::new();
        let mut i: usize = 0;
        while i < size2
            invariant
                size == bayer_side((order - 1) as nat),
                1 <= size <= 8,
                size2 == 2 * size,
                size2 == bayer_side(order as nat),
                order >= 1,
                order <= 4,
                prev@.len() == size,
                forall|a: int| 0 <= a < size ==> (#[trigger] prev@[a])@.len() == size,
                forall|a: int, b: int|
                    0 <= a < size && 0 <= b < size ==> (#[trigger] prev@[a]@[b]) as int
                        == bayer_val((order - 1) as nat, a, b),
                i <= size2,
                m@.len() == i,
                forall|a: int| 0 <= a < i ==> (#[trigger] m@[a])@.len() == size2,
                forall|a: int, b: int|
                    0 <= a < i && 0 <= b < size2 ==> (#[trigger] m@[a]@[b]) as int == bayer_val(
                        order as nat,
                        a,
                        b,
                    ),
            decreases size2 - i,
        {
            let mut line: Vec<u8> = Vec::new();
            let mut j: usize = 0;
            while j < size2
                invariant
                    size == bayer_side((order - 1) as nat),
                    1 <= size <= 8,
                    size2 == 2 * size,
                    order >= 1,
                    order <= 4,
                    i < size2,
                    prev@.len() == size,
                    forall|a: int| 0 <= a < size ==> (#[trigger] prev@[a])@.len() == size,
                    forall|a: int, b: int|
                        0 <= a < size && 0 <= b < size ==> (#[trigger] prev@[a]@[b]) as int
                            == bayer_val((order - 1) as nat, a, b),
                    j <= size2,
                    line@.len() == j,
                    forall|b: int|
                        0 <= b < j ==> (#[trigger] line@[b]) as int == bayer_val(
                            order as nat,
                            i as int,
                            b,
                        ),
                decreases size2 - j,
            {
                proof {
                    assert(bayer_side((order - 1) as nat) * bayer_side((order - 1) as nat) <= 64)
                        by (nonlinear_arith)
                        requires
                            bayer_side((order - 1) as nat) <= 8,
                    ;
                    if i < size && j < size {
                        lemma_bayer_val_range((order - 1) as nat, i as int, j as int);
                    } else if i < size {
                        lemma_bayer_val_range((order - 1) as nat, i as int, j as int - size);
                    } else if j < size {
                        lemma_bayer_val_range((order - 1) as nat, i as int - size, j as int);
                    } else {
                        lemma_bayer_val_range(
                            (order - 1) as nat,
                            i as int - size,
                            j as int - size,
                        );
                    }
                }
                let v: u8 = if i < size {
                    if j < size {
                        4 * prev[i][j]
                    } else {
                        4 * prev[i][j - size] + 2
                    }
                } else {
                    if j < size {
                        4 * prev[i - size][j] + 3
                    } else {
                        4 * prev[i - size][j - size] + 1
                    }
                };
                line.push(v);
                j = j + 1;
            }
            m.push(line);
            i = i + 1;
        }
        m
    }
}

/// The color a pixel becomes under ordered dithering: white where the scaled
/// luminosity strictly exceeds the tile's threshold normalized to the
/// luminosity range, black otherwise. The comparison
/// `lum * (side^2 - 1) > threshold * LUM_MAX` is the exact integer form of
/// comparing the luminosity against `threshold / (side^2 - 1) * 255`.
pub open spec fn bayer_pixel(c: Color, x: int, y: int, order: nat) -> Color {
    let s = bayer_side(order) as int;
    let t = bayer_val(order, y % s, x % s);
    if lum_scaled(c) * (s * s - 1) > t * LUM_MAX {
        white()
    } else {
        black()
    }
}

/// The whole output of ordered dithering, as a function of the input pixels,
/// the width and the order alone.
pub open spec fn bayer_output(s: Seq<Color>, w: int, order: nat) -> Seq<Color> {
    Seq::new(s.len(), |k: int| bayer_pixel(s[k], col(k, w), row(k, w), order))
}

/// Ordered dithering is a pure function of the image and the order: equal
/// images and orders give equal outputs, so applying it twice with the same
/// order yields the same output both times. Together with the exact
/// postcondition of `apply_bayer_dithering`, two runs on one image agree.
pub proof fn lemma_bayer_dithering_pure(a: Image, b: Image, order: nat)
    requires
        a.width == b.width,
        a.pixels@ == b.pixels@,
    ensures
        bayer_output(a.pixels@, a.width as int, order) == bayer_output(
            b.pixels@,
            b.width as int,
            order,
        ),
{
}

/// Ordered (Bayer) dithering: builds the threshold matrix for the order, then
/// maps every pixel of the source image to white or black by comparing its
/// luminosity against the matrix entry at the pixel's coordinates modulo the
/// matrix side. The source image is not modified.
pub fn apply_bayer_dithering(img: &Image, order: u8) -> (out: Image)
    requires
        img.wf(),
        order <= 4,
    ensures
        out.wf(),
        out.width == img.width,
        out.height == img.height,
        out.pixels@ == bayer_output(img.pixels@, img.width as int, order as nat),
{
    let matrix = generate_bayer_matrix(order);
    let size = matrix.len();
    proof {
        lemma_bayer_side_pos(order as nat);
        lemma_bayer_side_small(order as nat);
        assert(1 <= size * size <= 256) by (nonlinear_arith)
            requires
                1 <= size <= 16,
        ;
    }
    let s2m1: u64 = (size * size - 1) as u64;
    let w = img.width;
    let n = img.pixels.len();
    let mut pixels: Vec<Color> = Vec::new();
    let mut k: usize = 0;
    while k < n
        invariant
            img.wf(),
            w == img.width,
            n == img.pixels@.len(),
            size == bayer_side(order as nat),
            1 <= size <= 16,
            s2m1 == size * size - 1,
            s2m1 <= 255,
            matrix@.len() == size,
            forall|a: int| 0 <= a < size ==> (#[trigger] matrix@[a])@.len() == size,
            forall|a: int, b: int|
                0 <= a < size && 0 <= b < size ==> (#[trigger] matrix@[a]@[b]) as int == bayer_val(
                    order as nat,
                    a,
                    b,
                ),
            k <= n,
            pixels@.len() == k,
            forall|j: int|
                0 <= j < k ==> (#[trigger] pixels@[j]) == bayer_pixel(
                    img.pixels@[j],
                    col(j, w as int),
                    row(j, w as int),
                    order as nat,
                ),
        decreases n - k,
    {
        // An image with pixels has a positive width: n == w * h > 0.
        proof {
            if w == 0 {
                assert(img.pixels@.len() == 0 * img.height as int);
                assert(0 * img.height as int == 0) by (nonlinear_arith);
            }
        }
        let x = k % w;
        let y = k / w;
        let tx = x % size;
        let ty = y % size;
        let t = matrix[ty][tx];
        let lum = luminosity_scaled(&img.pixels[k]);
        proof {
            assert(lum as u64 * s2m1 <= 2550000u64 * 255) by (nonlinear_arith)
                requires
                    lum <= 2550000,
                    s2m1 <= 255,
            ;
        }
        let c = if (lum as u64) * s2m1 > (t as u64) * (LUM_MAX as u64) {
            Color { r: 255, g: 255, b: 255 }
        } else {
            Color { r: 0, g: 0, b: 0 }
        };
        pixels.push(c);
        k = k + 1;
    }
    let out = Image { width: img.width, height: img.height, pixels };
    proof {
        assert(out.pixels@ =~= bayer_output(img.pixels@, img.width as int, order as nat));
    }
    out
}

} // verus!
