//! Box blur: every output pixel is the per-channel mean of its clamped
//! neighborhood, with truncating division by the actual neighbour count.

use vstd::prelude::*;

use crate::pixel::Pixel;
use crate::pixel_buffer::PixelBuffer;
use crate::rect::{
    lemma_rect_sum_bounds, lemma_rect_sum_empty, lemma_rect_sum_fits, lemma_rect_sum_single_col,
    rect_sum, whi, wlo,
};
use crate::window::{run, window_pix, WindowReducer};

verus! {

/// Mean of channel `c` over the rectangle `[x0, x1) x [y0, y1)`,
/// truncating.
pub open spec fn mean_channel(img: &PixelBuffer, c: int, x0: int, x1: int, y0: int, y1: int) -> int {
    rect_sum(img, c, x0, x1, y0, y1) / ((x1 - x0) * (y1 - y0))
}

/// The blurred pixel at `(x, y)`: the per-channel mean over the clamped
/// window of the given radius.
pub open spec fn blur_pix(img: &PixelBuffer, radius: int, x: int, y: int) -> Pixel {
    let x0 = wlo(x, radius);
    let x1 = whi(x, radius, img.width as int);
    let y0 = wlo(y, radius);
    let y1 = whi(y, radius, img.height as int);
    Pixel {
        r: mean_channel(img, 0, x0, x1, y0, y1) as u8,
        g: mean_channel(img, 1, x0, x1, y0, y1) as u8,
        b: mean_channel(img, 2, x0, x1, y0, y1) as u8,
        a: mean_channel(img, 3, x0, x1, y0, y1) as u8,
    }
}

/// Per-channel running sum in the canonical 64-bit accumulator width.
pub struct SumReducer {
    pub r: u64,
    pub g: u64,
    pub b: u64,
    pub a: u64,
}

impl WindowReducer for SumReducer {
    open spec fn inv(&self, img: &PixelBuffer, x0: int, x1: int, y0: int, y1: int) -> bool {
        &&& self.r == rect_sum(img, 0, x0, x1, y0, y1)
        &&& self.g == rect_sum(img, 1, x0, x1, y0, y1)
        &&& self.b == rect_sum(img, 2, x0, x1, y0, y1)
        &&& self.a == rect_sum(img, 3, x0, x1, y0, y1)
    }

    open spec fn out_pix(img: &PixelBuffer, x0: int, x1: int, y0: int, y1: int) -> Pixel {
        Pixel {
            r: mean_channel(img, 0, x0, x1, y0, y1) as u8,
            g: mean_channel(img, 1, x0, x1, y0, y1) as u8,
            b: mean_channel(img, 2, x0, x1, y0, y1) as u8,
            a: mean_channel(img, 3, x0, x1, y0, y1) as u8,
        }
    }

    fn empty(img: &PixelBuffer) -> (r: Self) {
        proof {
            assert forall|x0: int, x1: int, y0: int, y1: int| x0 == x1 || y0 == y1 implies (
            SumReducer { r: 0u64, g: 0u64, b: 0u64, a: 0u64 }).inv(img, x0, x1, y0, y1) by {
                lemma_rect_sum_empty(img, 0, x0, x1, y0, y1);
                lemma_rect_sum_empty(img, 1, x0, x1, y0, y1);
                lemma_rect_sum_empty(img, 2, x0, x1, y0, y1);
                lemma_rect_sum_empty(img, 3, x0, x1, y0, y1);
            }
        }
        SumReducer { r: 0, g: 0, b: 0, a: 0 }
    }

    fn reduce(&mut self, p: &Pixel, img: &PixelBuffer, coords: Ghost<(int, int, int)>) {
        let ghost (x, y0, y1) = coords@;
        proof {
            lemma_rect_sum_single_col(img, 0, x, y0, y1);
            lemma_rect_sum_single_col(img, 1, x, y0, y1);
            lemma_rect_sum_single_col(img, 2, x, y0, y1);
            lemma_rect_sum_single_col(img, 3, x, y0, y1);
            lemma_rect_sum_single_col(img, 0, x, y0, y1 + 1);
            lemma_rect_sum_single_col(img, 1, x, y0, y1 + 1);
            lemma_rect_sum_single_col(img, 2, x, y0, y1 + 1);
            lemma_rect_sum_single_col(img, 3, x, y0, y1 + 1);
            lemma_rect_sum_fits(img, 0, x, x + 1, y0, y1 + 1);
            lemma_rect_sum_fits(img, 1, x, x + 1, y0, y1 + 1);
            lemma_rect_sum_fits(img, 2, x, x + 1, y0, y1 + 1);
            lemma_rect_sum_fits(img, 3, x, x + 1, y0, y1 + 1);
            lemma_rect_sum_bounds(img, 0, x, x + 1, y0, y1);
            lemma_rect_sum_bounds(img, 1, x, x + 1, y0, y1);
            lemma_rect_sum_bounds(img, 2, x, x + 1, y0, y1);
            lemma_rect_sum_bounds(img, 3, x, x + 1, y0, y1);
        }
        self.r = self.r + p.r as u64;
        self.g = self.g + p.g as u64;
        self.b = self.b + p.b as u64;
        self.a = self.a + p.a as u64;
    }

    fn combine(&mut self, col: &Self, img: &PixelBuffer, coords: Ghost<(int, int, int, int)>) {
        let ghost (x0, x1, y0, y1) = coords@;
        proof {
            lemma_rect_sum_single_col(img, 0, x1, y0, y1);
            lemma_rect_sum_single_col(img, 1, x1, y0, y1);
            lemma_rect_sum_single_col(img, 2, x1, y0, y1);
            lemma_rect_sum_single_col(img, 3, x1, y0, y1);
            lemma_rect_sum_fits(img, 0, x0, x1 + 1, y0, y1);
            lemma_rect_sum_fits(img, 1, x0, x1 + 1, y0, y1);
            lemma_rect_sum_fits(img, 2, x0, x1 + 1, y0, y1);
            lemma_rect_sum_fits(img, 3, x0, x1 + 1, y0, y1);
            lemma_rect_sum_bounds(img, 0, x0, x1, y0, y1);
            lemma_rect_sum_bounds(img, 1, x0, x1, y0, y1);
            lemma_rect_sum_bounds(img, 2, x0, x1, y0, y1);
            lemma_rect_sum_bounds(img, 3, x0, x1, y0, y1);
        }
        self.r = self.r + col.r;
        self.g = self.g + col.g;
        self.b = self.b + col.b;
        self.a = self.a + col.a;
    }

    fn finalize(self, count: u64, img: &PixelBuffer, coords: Ghost<(int, int, int, int)>) -> (p:
        Pixel) {
        let ghost (x0, x1, y0, y1) = coords@;
        proof {
            assert(count >= 1) by (nonlinear_arith)
                requires
                    count == (x1 - x0) * (y1 - y0),
                    x1 - x0 >= 1,
                    y1 - y0 >= 1,
            ;
            lemma_mean_in_range(img, 0, x0, x1, y0, y1);
            lemma_mean_in_range(img, 1, x0, x1, y0, y1);
            lemma_mean_in_range(img, 2, x0, x1, y0, y1);
            lemma_mean_in_range(img, 3, x0, x1, y0, y1);
        }
        Pixel {
            r: (self.r / count) as u8,
            g: (self.g / count) as u8,
            b: (self.b / count) as u8,
            a: (self.a / count) as u8,
        }
    }
}

/// The truncated mean of a channel over a nonempty rectangle is a valid
/// channel value.
pub proof fn lemma_mean_in_range(img: &PixelBuffer, c: int, x0: int, x1: int, y0: int, y1: int)
    requires
        x0 < x1,
        y0 < y1,
    ensures
        0 <= mean_channel(img, c, x0, x1, y0, y1) <= 255,
{
    lemma_rect_sum_bounds(img, c, x0, x1, y0, y1);
    let n = (x1 - x0) * (y1 - y0);
    assert(n >= 1) by (nonlinear_arith)
        requires
            n == (x1 - x0) * (y1 - y0),
            x1 - x0 >= 1,
            y1 - y0 >= 1,
    ;
    let s = rect_sum(img, c, x0, x1, y0, y1);
    assert(s <= 255 * n) by (nonlinear_arith)
        requires
            s <= 255 * (x1 - x0) * (y1 - y0),
            n == (x1 - x0) * (y1 - y0),
    ;
    vstd::arithmetic::div_mod::lemma_div_is_ordered(s, 255 * n, n);
    vstd::arithmetic::div_mod::lemma_div_multiples_vanish(255, n);
    vstd::arithmetic::div_mod::lemma_div_pos_is_pos(s, n);
}

/// Box blur with the given radius. Every output pixel is the truncated
/// per-channel mean of the input over the clamped window around it; the
/// divisor is always the actual in-bounds neighbour count.
pub fn blur(img: &PixelBuffer, radius: u32) -> (out: PixelBuffer)
    requires
        img.wf(),
    ensures
        out.wf(),
        out.width == img.width,
        out.height == img.height,
        forall|x: int, y: int|
            0 <= x < img.width && 0 <= y < img.height ==> out.pix_at(x, y) == blur_pix(
                img,
                radius as int,
                x,
                y,
            ),
{
    let out = run::<SumReducer>(img, radius);
    proof {
        assert forall|x: int, y: int| 0 <= x < img.width && 0 <= y < img.height implies out.pix_at(
            x,
            y,
        ) == blur_pix(img, radius as int, x, y) by {
            assert(out.pix_at(x, y) == window_pix::<SumReducer>(img, radius as int, x, y));
        }
    }
    out
}

} // verus!
