//! Morphological erosion: every output channel is the minimum of that
//! channel over the clamped neighborhood.

use vstd::prelude::*;

use crate::pixel::Pixel;
use crate::pixel_buffer::PixelBuffer;
use crate::rect::{lemma_rect_min_empty, lemma_rect_min_single_col, rect_min, whi, wlo};
use crate::window::{run, window_pix, WindowReducer};

verus! {

/// The eroded pixel at `(x, y)`: the per-channel minimum over the clamped
/// window of the given radius.
pub open spec fn erode_pix(img: &PixelBuffer, radius: int, x: int, y: int) -> Pixel {
    let x0 = wlo(x, radius);
    let x1 = whi(x, radius, img.width as int);
    let y0 = wlo(y, radius);
    let y1 = whi(y, radius, img.height as int);
    Pixel {
        r: rect_min(img, 0, x0, x1, y0, y1) as u8,
        g: rect_min(img, 1, x0, x1, y0, y1) as u8,
        b: rect_min(img, 2, x0, x1, y0, y1) as u8,
        a: rect_min(img, 3, x0, x1, y0, y1) as u8,
    }
}

/// Per-channel running minimum.
pub struct MinReducer {
    pub r: u8,
    pub g: u8,
    pub b: u8,
    pub a: u8,
}

impl WindowReducer for MinReducer {
    open spec fn inv(&self, img: &PixelBuffer, x0: int, x1: int, y0: int, y1: int) -> bool {
        &&& self.r == rect_min(img, 0, x0, x1, y0, y1)
        &&& self.g == rect_min(img, 1, x0, x1, y0, y1)
        &&& self.b == rect_min(img, 2, x0, x1, y0, y1)
        &&& self.a == rect_min(img, 3, x0, x1, y0, y1)
    }

    open spec fn out_pix(img: &PixelBuffer, x0: int, x1: int, y0: int, y1: int) -> Pixel {
        Pixel {
            r: rect_min(img, 0, x0, x1, y0, y1) as u8,
            g: rect_min(img, 1, x0, x1, y0, y1) as u8,
            b: rect_min(img, 2, x0, x1, y0, y1) as u8,
            a: rect_min(img, 3, x0, x1, y0, y1) as u8,
        }
    }

    fn empty(img: &PixelBuffer) -> (r: Self) {
        proof {
            assert forall|x0: int, x1: int, y0: int, y1: int| x0 == x1 || y0 == y1 implies (
            MinReducer { r: 255u8, g: 255u8, b: 255u8, a: 255u8 }).inv(img, x0, x1, y0, y1) by {
                lemma_rect_min_empty(img, 0, x0, x1, y0, y1);
                lemma_rect_min_empty(img, 1, x0, x1, y0, y1);
                lemma_rect_min_empty(img, 2, x0, x1, y0, y1);
                lemma_rect_min_empty(img, 3, x0, x1, y0, y1);
            }
        }
        MinReducer { r: 255, g: 255, b: 255, a: 255 }
    }

    fn reduce(&mut self, p: &Pixel, img: &PixelBuffer, coords: Ghost<(int, int, int)>) {
        let ghost (x, y0, y1) = coords@;
        proof {
            lemma_rect_min_single_col(img, 0, x, y0, y1);
            lemma_rect_min_single_col(img, 1, x, y0, y1);
            lemma_rect_min_single_col(img, 2, x, y0, y1);
            lemma_rect_min_single_col(img, 3, x, y0, y1);
            lemma_rect_min_single_col(img, 0, x, y0, y1 + 1);
            lemma_rect_min_single_col(img, 1, x, y0, y1 + 1);
            lemma_rect_min_single_col(img, 2, x, y0, y1 + 1);
            lemma_rect_min_single_col(img, 3, x, y0, y1 + 1);
        }
        self.r = if self.r < p.r {
            self.r
        } else {
            p.r
        };
        self.g = if self.g < p.g {
            self.g
        } else {
            p.g
        };
        self.b = if self.b < p.b {
            self.b
        } else {
            p.b
        };
        self.a = if self.a < p.a {
            self.a
        } else {
            p.a
        };
    }

    fn combine(&mut self, col: &Self, img: &PixelBuffer, coords: Ghost<(int, int, int, int)>) {
        let ghost (x0, x1, y0, y1) = coords@;
        proof {
            lemma_rect_min_single_col(img, 0, x1, y0, y1);
            lemma_rect_min_single_col(img, 1, x1, y0, y1);
            lemma_rect_min_single_col(img, 2, x1, y0, y1);
            lemma_rect_min_single_col(img, 3, x1, y0, y1);
        }
        self.r = if self.r < col.r {
            self.r
        } else {
            col.r
        };
        self.g = if self.g < col.g {
            self.g
        } else {
            col.g
        };
        self.b = if self.b < col.b {
            self.b
        } else {
            col.b
        };
        self.a = if self.a < col.a {
            self.a
        } else {
            col.a
        };
    }

    fn finalize(self, _count: u64, img: &PixelBuffer, coords: Ghost<(int, int, int, int)>) -> (p:
        Pixel) {
        Pixel { r: self.r, g: self.g, b: self.b, a: self.a }
    }
}

/// Morphological erosion with the given radius: every output channel is
/// the minimum of that channel over the clamped window around the pixel.
pub fn erode(img: &PixelBuffer, radius: u32) -> (out: PixelBuffer)
    requires
        img.wf(),
    ensures
        out.wf(),
        out.width == img.width,
        out.height == img.height,
        forall|x: int, y: int|
            0 <= x < img.width && 0 <= y < img.height ==> out.pix_at(x, y) == erode_pix(
                img,
                radius as int,
                x,
                y,
            ),
{
    let out = run::<MinReducer>(img, radius);
    proof {
        assert forall|x: int, y: int| 0 <= x < img.width && 0 <= y < img.height implies out.pix_at(
            x,
            y,
        ) == erode_pix(img, radius as int, x, y) by {
            assert(out.pix_at(x, y) == window_pix::<MinReducer>(img, radius as int, x, y));
        }
    }
    out
}

} // verus!
