//! The raster image: a width x height grid of colors, stored row major in a
//! single flat buffer, with index-based access.

use vstd::prelude::*;

use crate::color::Color;

verus! {

/// A raster image. Pixel (x, y) lives at flat index `y * width + x`.
pub struct Image {
    pub width: usize,
    pub height: usize,
    pub pixels: Vec<Color>,
}

/// Column of the pixel at flat index k in an image of width w.
pub open spec fn col(k: int, w: int) -> int {
    k % w
}

/// Row of the pixel at flat index k in an image of width w.
pub open spec fn row(k: int, w: int) -> int {
    k / w
}

impl Image {
    /// The buffer holds exactly one color per grid cell.
    pub open spec fn wf(self) -> bool {
        self.pixels@.len() == self.width * self.height
    }

    /// The color of the pixel at column x, row y.
    pub open spec fn pix(self, x: int, y: int) -> Color {
        self.pixels@[y * self.width + x]
    }

    /// A fresh image of the given dimensions with every pixel set to `fill`.
    pub fn new(width: usize, height: usize, fill: Color) -> (img: Image)
        requires
            width * height <= usize::MAX,
        ensures
            img.wf(),
            img.width == width,
            img.height == height,
            forall|k: int| 0 <= k < width * height ==> img.pixels@[k] == fill,
    {
        let n = width * height;
        let mut pixels: Vec<Color> = Vec::new();
        let mut k: usize = 0;
        while k < n
            invariant
                k <= n,
                pixels@.len() == k,
                forall|j: int| 0 <= j < k ==> pixels@[j] == fill,
            decreases n - k,
        {
            pixels.push(fill);
            k = k + 1;
        }
        Image { width, height, pixels }
    }

    /// Wraps an existing flat buffer as an image, if its length matches the
    /// dimensions; returns the buffer back otherwise.
    pub fn from_pixels(width: usize, height: usize, pixels: Vec<Color>) -> (r: Result<
        Image,
        Vec<Color>,
    >)
        ensures
            match r {
                Ok(img) => img.wf() && img.width == width && img.height == height && img.pixels@
                    == pixels@ && pixels@.len() == width * height,
                Err(p) => p@ == pixels@ && pixels@.len() != width * height,
            },
    {
        let len = pixels.len();
        match width.checked_mul(height) {
            Some(n) => {
                if n == len {
                    assert(pixels@.len() == width * height);
                    Ok(Image { width, height, pixels })
                } else {
                    Err(pixels)
                }
            },
            None => Err(pixels),
        }
    }

    /// Overwrites every pixel with one color, keeping the dimensions.
    pub fn fill(&mut self, color: Color)
        requires
            old(self).wf(),
        ensures
            final(self).wf(),
            final(self).width == old(self).width,
            final(self).height == old(self).height,
            final(self).pixels@.len() == old(self).pixels@.len(),
            forall|k: int|
                0 <= k < final(self).pixels@.len() ==> final(self).pixels@[k] == color,
    {
        let n = self.pixels.len();
        let mut k: usize = 0;
        while k < n
            invariant
                k <= n,
                self.wf(),
                self.width == old(self).width,
                self.height == old(self).height,
                self.pixels@.len() == n,
                forall|j: int| 0 <= j < k ==> self.pixels@[j] == color,
            decreases n - k,
        {
            self.pixels.set(k, color);
            k = k + 1;
        }
    }

    /// The color of the pixel at column x, row y.
    pub fn get_pixel(&self, x: usize, y: usize) -> (c: Color)
        requires
            self.wf(),
            x < self.width,
            y < self.height,
        ensures
            c == self.pix(x as int, y as int),
    {
        // Reading the length pins the buffer, and with it every flat
        // index, inside the address space.
        let _n = self.pixels.len();
        proof {
            lemma_flat_index_bounds(x as int, y as int, self.width as int, self.height as int);
        }
        self.pixels[y * self.width + x]
    }

    /// Overwrites the pixel at column x, row y, leaving every other pixel and
    /// the dimensions unchanged.
    pub fn put_pixel(&mut self, x: usize, y: usize, c: Color)
        requires
            old(self).wf(),
            x < old(self).width,
            y < old(self).height,
        ensures
            final(self).wf(),
            final(self).width == old(self).width,
            final(self).height == old(self).height,
            final(self).pixels@ == old(self).pixels@.update(
                y * old(self).width + x,
                c,
            ),
    {
        // Reading the length pins the buffer, and with it every flat
        // index, inside the address space.
        let _n = self.pixels.len();
        proof {
            lemma_flat_index_bounds(x as int, y as int, self.width as int, self.height as int);
        }
        let i = y * self.width + x;
        self.pixels.set(i, c);
    }
}

/// The scaled BT.709 luminosity of the pixel at column x, row y.
pub fn get_pixel_luminosity(img: &Image, x: usize, y: usize) -> (l: u32)
    requires
        img.wf(),
        x < img.width,
        y < img.height,
    ensures
        l == crate::color::lum_scaled(img.pix(x as int, y as int)),
{
    let c = img.get_pixel(x, y);
    crate::color::luminosity_scaled(&c)
}

/// A pixel's flat index lies inside the buffer.
pub proof fn lemma_flat_index_bounds(x: int, y: int, w: int, h: int)
    by (nonlinear_arith)
    requires
        0 <= x < w,
        0 <= y < h,
    ensures
        0 <= y * w + x < w * h,
{
}

/// Facts about a flat index inside a raster scan: its coordinates are in
/// range, and the indices of its right and lower neighbors stay inside the
/// buffer whenever those neighbors exist.
pub proof fn lemma_scan_bounds(k: int, w: int, h: int)
    requires
        w >= 1,
        0 <= k < w * h,
    ensures
        0 <= k % w < w,
        0 <= k / w < h,
        k == w * (k / w) + (k % w),
        (k % w) + 1 < w ==> k + 1 < w * h,
        (k / w) + 1 < h ==> k + w < w * h,
        (k % w) + 1 < w && (k / w) + 1 < h ==> k + w + 1 < w * h,
{
    vstd::arithmetic::div_mod::lemma_fundamental_div_mod(k, w);
    vstd::arithmetic::div_mod::lemma_mod_division_less_than_divisor(k, w);
    let x = k % w;
    let y = k / w;
    assert(y < h) by (nonlinear_arith)
        requires
            k == w * y + x,
            0 <= x < w,
            k < w * h,
            w >= 1,
    ;
    assert(x + 1 < w ==> k + 1 < w * h) by (nonlinear_arith)
        requires
            k == w * y + x,
            0 <= x < w,
            0 <= y < h,
            w >= 1,
    ;
    assert(y + 1 < h ==> k + w < w * h) by (nonlinear_arith)
        requires
            k == w * y + x,
            0 <= x < w,
            0 <= y < h,
            w >= 1,
    ;
    assert(x + 1 < w && y + 1 < h ==> k + w + 1 < w * h) by (nonlinear_arith)
        requires
            k == w * y + x,
            0 <= x < w,
            0 <= y < h,
            w >= 1,
    ;
}

/// An image with a pixel has a positive width.
pub proof fn lemma_nonempty_width(w: int, h: int, n: int)
    requires
        n == w * h,
        n > 0,
        w >= 0,
    ensures
        w >= 1,
{
    if w == 0 {
        assert(0 * h == 0) by (nonlinear_arith);
    }
}

} // verus!
