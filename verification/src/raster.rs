//! In-memory RGBA rasters: the pixel model the quilt composer works on.
//! A raster stores rows top to bottom, four samples (R, G, B, A) per pixel.

use vstd::arithmetic::div_mod::{lemma_fundamental_div_mod, lemma_mod_bound};
use vstd::arithmetic::mul::{lemma_mul_inequality, lemma_mul_is_commutative};
use vstd::prelude::*;

verus! {

/// An RGBA image of `width * height` pixels, `pixels[4 * (y * width + x) + c]`
/// holding channel `c` of the pixel at column `x` of row `y` (row 0 on top).
pub struct Raster {
    pub width: usize,
    pub height: usize,
    pub pixels: Vec<u8>,
}

/// Flat sample index of channel `c` of pixel `(x, y)` lies inside the buffer.
pub proof fn lemma_pixel_index(x: int, y: int, c: int, w: int, h: int)
    by (nonlinear_arith)
    requires
        0 <= x < w,
        0 <= y < h,
        0 <= c < 4,
    ensures
        0 <= 4 * (y * w + x) + c < 4 * (w * h),
{
}

/// Row-major grid index `a * cols + b` lies inside an `rows * cols` grid.
pub proof fn lemma_grid_index(a: int, b: int, rows: int, cols: int)
    by (nonlinear_arith)
    requires
        0 <= a < rows,
        0 <= b < cols,
    ensures
        0 <= a * cols + b < rows * cols,
{
}

/// A value below `d * b` divides by `d` to something below `b`.
pub proof fn lemma_div_below(x: int, d: int, b: int)
    requires
        d >= 1,
        0 <= x < d * b,
    ensures
        0 <= x / d < b,
{
    lemma_fundamental_div_mod(x, d);
    lemma_mod_bound(x, d);
    if x / d >= b {
        lemma_mul_inequality(b, x / d, d);
        lemma_mul_is_commutative(d, b);
        lemma_mul_is_commutative(d, x / d);
    }
}

impl Raster {
    /// Well-formed: exactly four samples for each pixel.
    pub open spec fn wf(self) -> bool {
        self.pixels@.len() == 4 * (self.width * self.height)
    }

    /// Channel `c` of the pixel at `(x, y)`.
    pub open spec fn chan(self, x: int, y: int, c: int) -> u8
        recommends
            self.wf(),
            0 <= x < self.width,
            0 <= y < self.height,
            0 <= c < 4,
    {
        self.pixels@[4 * (y * self.width + x) + c]
    }

    /// Build a raster from a raw sample buffer; rejects a buffer whose
    /// length does not match the dimensions.
    pub fn from_pixels(width: usize, height: usize, pixels: Vec<u8>) -> (r: Option<Raster>)
        ensures
            match r {
                Some(q) => {
                    &&& q.width == width
                    &&& q.height == height
                    &&& q.pixels == pixels
                    &&& q.wf()
                },
                None => pixels@.len() != 4 * (width * height),
            },
    {
        let n_px = pixels.len();
        let len_ok = match width.checked_mul(height) {
            Some(wh) => match wh.checked_mul(4) {
                Some(n) => n_px == n,
                None => false,
            },
            None => false,
        };
        if len_ok {
            Some(Raster { width, height, pixels })
        } else {
            None
        }
    }

    /// Read channel `c` of the pixel at `(x, y)`.
    pub fn get_chan(&self, x: usize, y: usize, c: usize) -> (r: u8)
        requires
            self.wf(),
            x < self.width,
            y < self.height,
            c < 4,
        ensures
            r == self.chan(x as int, y as int, c as int),
    {
        let n_px = self.pixels.len();
        proof {
            lemma_pixel_index(x as int, y as int, c as int, self.width as int, self.height as int);
        }
        self.pixels[4 * (y * self.width + x) + c]
    }
}

} // verus!
