//! Morphological dilation: every output channel is the maximum of that
//! channel over the clamped neighborhood.

use vstd::prelude::*;

use crate::pixel::Pixel;
use crate::pixel_buffer::PixelBuffer;
use crate::rect::{lemma_rect_max_empty, lemma_rect_max_single_col, rect_max, whi, wlo};
use crate::window::{run, window_pix, WindowReducer};

verus! {

/// The dilated pixel at `(x, y)`: the per-channel maximum over the clamped
/// window of the given radius.
pub open spec fn dilate_pix(img: &PixelBuffer, radius: int, x: int, y: int) -> Pixel {
    let x0 = wlo(x, radius);
    let x1 = whi(x, radius, img.width as int);
    let y0 = wlo(y, radius);
    let y1 = whi(y, radius, img.height as int);
    Pixel {
        r: rect_max(img, 0, x0, x1, y0, y1) as u8,
        g: rect_max(img, 1, x0, x1, y0, y1) as u8,
        b: rect_max(img, 2, x0, x1, y0, y1) as u8,
        a: rect_max(img, 3, x0, x1, y0, y1) as u8,
    }
}

/// Per-channel running maximum.
pub struct MaxReducer {
    pub r: u8,
    pub g: u8,
    pub b: u8,
    pub a: u8,
}

impl WindowReducer for MaxReducer {
    open spec fn inv(&self, img: &PixelBuffer, x0: int, x1: int, y0: int, y1: int) -> bool {
        &&& self.r == rect_max(img, 0, x0, x1, y0, y1)
        &&& self.g == rect_max(img, 1, x0, x1, y0, y1)
        &&& self.b == rect_max(img, 2, x0, x1, y0, y1)
        &&& self.a == rect_max(img, 3, x0, x1, y0, y1)
    }

    open spec fn out_pix(img: &PixelBuffer, x0: int, x1: int, y0: int, y1: int) -> Pixel {
        Pixel {
            r: rect_max(img, 0, x0, x1, y0, y1) as u8,
            g: rect_max(img, 1, x0, x1, y0, y1) as u8,
            b: rect_max(img, 2, x0, x1, y0, y1) as u8,
            a: rect_max(img, 3, x0, x1, y0, y1) as u8,
        }
    }

    fn empty(img: &PixelBuffer) -> (r: Self) {
        proof {
            assert forall|x0: int, x1: int, y0: int, y1: int| x0 == x1 || y0 == y1 implies (
            MaxReducer { r: 0u8, g: 0u8, b: 0u8, a: 0u8 }).inv(img, x0, x1, y0, y1) by {
                lemma_rect_max_empty(img, 0, x0, x1, y0, y1);
                lemma_rect_max_empty(img, 1, x0, x1, y0, y1);
                lemma_rect_max_empty(img, 2, x0, x1, y0, y1);
                lemma_rect_max_empty(img, 3, x0, x1, y0, y1);
            }
        }
        MaxReducer { r: 0, g: 0, b: 0, a: 0 }
    }

    fn reduce(&mut self, p: &Pixel, img: &PixelBuffer, coords: Ghost<(int, int, int)>) {
        let ghost (x, y0, y1) = coords@;
        proof {
            lemma_rect_max_single_col(img, 0, x, y0, y1);
            lemma_rect_max_single_col(img, 1, x, y0, y1);
            lemma_rect_max_single_col(img, 2, x, y0, y1);
            lemma_rect_max_single_col(img, 3, x, y0, y1);
            lemma_rect_max_single_col(img, 0, x, y0, y1 + 1);
            lemma_rect_max_single_col(img, 1, x, y0, y1 + 1);
            lemma_rect_max_single_col(img, 2, x, y0, y1 + 1);
            lemma_rect_max_single_col(img, 3, x, y0, y1 + 1);
        }
        self.r = if self.r < p.r {
            p.r
        } else {
            self.r
        };
        self.g = if self.g < p.g {
            p.g
        } else {
            self.g
        };
        self.b = if self.b < p.b {
            p.b
        } else {
            self.b
        };
        self.a = if self.a < p.a {
            p.a
        } else {
            self.a
        };
    }

    fn combine(&mut self, col: &Self, img: &PixelBuffer, coords: Ghost<(int, int, int, int)>) {
        let ghost (x0, x1, y0, y1) = coords@;
        proof {
            lemma_rect_max_single_col(img, 0, x1, y0, y1);
            lemma_rect_max_single_col(img, 1, x1, y0, y1);
            lemma_rect_max_single_col(img, 2, x1, y0, y1);
            lemma_rect_max_single_col(img, 3, x1, y0, y1);
        }
        self.r = if self.r < col.r {
            col.r
        } else {
            self.r
        };
        self.g = if self.g < col.g {
            col.g
        } else {
            self.g
        };
        self.b = if self.b < col.b {
            col.b
        } else {
            self.b
        };
        self.a = if self.a < col.a {
            col.a
        } else {
            self.a
        };
    }

    fn finalize(self, _count: u64, img: &PixelBuffer, coords: Ghost<(int, int, int, int)>) -> (p:
        Pixel) {
        Pixel { r: self.r, g: self.g, b: self.b, a: self.a }
    }
}

/// Morphological dilation with the given radius: every output channel is
/// the maximum of that channel over the clamped window around the pixel.
pub fn dilate(img: &PixelBuffer, radius: u32) -> (out: PixelBuffer)
    requires
        img.wf(),
    ensures
        out.wf(),
        out.width == img.width,
        out.height == img.height,
        forall|x: int, y: int|
            0 <= x < img.width && 0 <= y < img.height ==> out.pix_at(x, y) == dilate_pix(
                img,
                radius as int,
                x,
                y,
            ),
{
    let out = run::<MaxReducer>(img, radius);
    proof {
        assert forall|x: int, y: int| 0 <= x < img.width && 0 <= y < img.height implies out.pix_at(
            x,
            y,
        ) == dilate_pix(img, radius as int, x, y) by {
            assert(out.pix_at(x, y) == window_pix::<MaxReducer>(img, radius as int, x, y));
        }
    }
    out
}

} // verus!
