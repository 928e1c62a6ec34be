//! The windowed-reduction engine.
//!
//! One generic runner drives the blur, dilate and erode filters. Per output
//! row it aggregates every column of the row's clamped vertical span once,
//! then slides a horizontal window over those column aggregates, so a whole
//! row costs O(width * window-height) instead of the naive
//! O(width * window-height * window-width).

use vstd::prelude::*;

use crate::pixel::Pixel;
use crate::pixel_buffer::{lemma_grid, lemma_grid_push, lemma_row_major_bounds, PixelBuffer};
use crate::rect::{whi, wlo};

verus! {

/// The capability a filter supplies to the engine: an accumulator with
/// `reduce` (fold one pixel in), `combine` (merge a column aggregate into a
/// row aggregate) and `finalize` (turn the aggregate of a window into the
/// output pixel).
///
/// `inv(img, x0, x1, y0, y1)` says the accumulator summarizes the rectangle
/// `[x0, x1) x [y0, y1)` of `img`; `out_pix` is the pixel `finalize` owes for
/// that window.
pub trait WindowReducer: Sized {
    spec fn inv(&self, img: &PixelBuffer, x0: int, x1: int, y0: int, y1: int) -> bool;

    spec fn out_pix(img: &PixelBuffer, x0: int, x1: int, y0: int, y1: int) -> Pixel;

    /// The zero accumulator: it summarizes every empty rectangle.
    fn empty(img: &PixelBuffer) -> (r: Self)
        ensures
            forall|x0: int, x1: int, y0: int, y1: int|
                x0 == x1 || y0 == y1 ==> #[trigger] r.inv(img, x0, x1, y0, y1),
    ;

    /// Fold the pixel at `(x, y1)` into a column aggregate of
    /// `{x} x [y0, y1)`, extending it one row downward.
    fn reduce(&mut self, p: &Pixel, img: &PixelBuffer, coords: Ghost<(int, int, int)>)
        requires
            img.wf(),
            0 <= coords@.0 < img.width,
            0 <= coords@.1 <= coords@.2 < img.height,
            *p == img.pix_at(coords@.0, coords@.2),
            old(self).inv(img, coords@.0, coords@.0 + 1, coords@.1, coords@.2),
        ensures
            final(self).inv(img, coords@.0, coords@.0 + 1, coords@.1, coords@.2 + 1),
    ;

    /// Merge the column aggregate of `{x1} x [y0, y1)` into a row aggregate
    /// of `[x0, x1) x [y0, y1)`, extending it one column rightward.
    fn combine(&mut self, col: &Self, img: &PixelBuffer, coords: Ghost<(int, int, int, int)>)
        requires
            img.wf(),
            0 <= coords@.0 <= coords@.1 < img.width,
            0 <= coords@.2 <= coords@.3 <= img.height,
            old(self).inv(img, coords@.0, coords@.1, coords@.2, coords@.3),
            col.inv(img, coords@.1, coords@.1 + 1, coords@.2, coords@.3),
        ensures
            final(self).inv(img, coords@.0, coords@.1 + 1, coords@.2, coords@.3),
    ;

    /// Convert the aggregate of a nonempty window into the output pixel.
    /// `count` is the actual number of in-bounds pixels in the window,
    /// which near borders is smaller than `(2r + 1)^2`.
    fn finalize(self, count: u64, img: &PixelBuffer, coords: Ghost<(int, int, int, int)>) -> (p:
        Pixel)
        requires
            img.wf(),
            0 <= coords@.0 < coords@.1 <= img.width,
            0 <= coords@.2 < coords@.3 <= img.height,
            count == (coords@.1 - coords@.0) * (coords@.3 - coords@.2),
            self.inv(img, coords@.0, coords@.1, coords@.2, coords@.3),
        ensures
            p == Self::out_pix(img, coords@.0, coords@.1, coords@.2, coords@.3),
    ;
}

/// The output pixel the engine owes at `(x, y)`: the reducer's result over
/// the clamped window of the given radius.
pub open spec fn window_pix<R: WindowReducer>(
    img: &PixelBuffer,
    radius: int,
    x: int,
    y: int,
) -> Pixel {
    R::out_pix(
        img,
        wlo(x, radius),
        whi(x, radius, img.width as int),
        wlo(y, radius),
        whi(y, radius, img.height as int),
    )
}

/// Run the reducer over every clamped window of the image.
pub fn run<R: WindowReducer>(img: &PixelBuffer, radius: u32) -> (out: PixelBuffer)
    requires
        img.wf(),
    ensures
        out.wf(),
        out.width == img.width,
        out.height == img.height,
        forall|x: int, y: int|
            0 <= x < img.width && 0 <= y < img.height ==> out.pix_at(x, y) == window_pix::<R>(
                img,
                radius as int,
                x,
                y,
            ),
{
    let w = img.width;
    let h = img.height;
    let mut data: Vec<Pixel> = Vec::new();
    for y in 0..h
        invariant
            img.wf(),
            w == img.width,
            h == img.height,
            data.len() == y * (w as int),
            forall|k: int|
                0 <= k < data.len() ==> #[trigger] data@[k] == window_pix::<R>(
                    img,
                    radius as int,
                    k % (w as int),
                    k / (w as int),
                ),
    {
        let y0: u32 = if y > radius {
            y - radius
        } else {
            0
        };
        let yb: u64 = y as u64 + radius as u64 + 1;
        let y1: u32 = if yb >= h as u64 {
            h
        } else {
            yb as u32
        };
        assert(y0 as int == wlo(y as int, radius as int));
        assert(y1 as int == whi(y as int, radius as int, h as int));
        // One aggregate per column, over this row's clamped vertical span.
        let mut cols: Vec<R> = Vec::new();
        for cx in 0..w
            invariant
                img.wf(),
                w == img.width,
                h == img.height,
                y0 <= y < y1 <= h,
                cols.len() == cx,
                forall|j: int|
                    0 <= j < cols.len() ==> #[trigger] cols@[j].inv(
                        img,
                        j,
                        j + 1,
                        y0 as int,
                        y1 as int,
                    ),
        {
            let mut acc = R::empty(img);
            for yy in y0..y1
                invariant
                    img.wf(),
                    w == img.width,
                    h == img.height,
                    cx < w,
                    y0 <= yy <= y1 <= h,
                    acc.inv(img, cx as int, cx as int + 1, y0 as int, yy as int),
            {
                let p = img.get(cx, yy);
                acc.reduce(&p, img, Ghost((cx as int, y0 as int, yy as int)));
            }
            cols.push(acc);
        }
        // Slide the horizontal window over the column aggregates.
        for x in 0..w
            invariant
                img.wf(),
                w == img.width,
                h == img.height,
                y < h,
                y0 as int == wlo(y as int, radius as int),
                y1 as int == whi(y as int, radius as int, h as int),
                y0 <= y < y1 <= h,
                cols.len() == w,
                forall|j: int|
                    0 <= j < cols.len() ==> #[trigger] cols@[j].inv(
                        img,
                        j,
                        j + 1,
                        y0 as int,
                        y1 as int,
                    ),
                data.len() == y * (w as int) + x,
                forall|k: int|
                    0 <= k < data.len() ==> #[trigger] data@[k] == window_pix::<R>(
                        img,
                        radius as int,
                        k % (w as int),
                        k / (w as int),
                    ),
        {
            let x0: u32 = if x > radius {
                x - radius
            } else {
                0
            };
            let xb: u64 = x as u64 + radius as u64 + 1;
            let x1: u32 = if xb >= w as u64 {
                w
            } else {
                xb as u32
            };
            assert(x0 as int == wlo(x as int, radius as int));
            assert(x1 as int == whi(x as int, radius as int, w as int));
            let mut acc = R::empty(img);
            let mut j: u32 = x0;
            while j < x1
                invariant
                    img.wf(),
                    w == img.width,
                    h == img.height,
                    x0 <= j <= x1 <= w,
                    x0 < x1,
                    y0 < y1 <= h,
                    cols.len() == w,
                    forall|jj: int|
                        0 <= jj < cols.len() ==> #[trigger] cols@[jj].inv(
                            img,
                            jj,
                            jj + 1,
                            y0 as int,
                            y1 as int,
                        ),
                    acc.inv(img, x0 as int, j as int, y0 as int, y1 as int),
                decreases x1 - j,
            {
                acc.combine(
                    &cols[j as usize],
                    img,
                    Ghost((x0 as int, j as int, y0 as int, y1 as int)),
                );
                j = j + 1;
            }
            let cw: u64 = (x1 - x0) as u64;
            let ch: u64 = (y1 - y0) as u64;
            proof {
                assert(cw * ch <= (w as int) * (h as int)) by (nonlinear_arith)
                    requires
                        0 <= cw <= w as int,
                        0 <= ch <= h as int,
                ;
            }
            let count: u64 = cw * ch;
            let px = acc.finalize(count, img, Ghost((x0 as int, x1 as int, y0 as int, y1 as int)));
            let ghost fcl = |xx: int, yy: int| window_pix::<R>(img, radius as int, xx, yy);
            let ghost prev = data@;
            proof {
                assert(px == fcl(x as int, y as int));
                lemma_grid_push(prev, w as int, x as int, y as int, fcl);
            }
            data.push(px);
            proof {
                assert(data@ == prev.push(fcl(x as int, y as int)));
                assert forall|k: int| 0 <= k < data.len() implies #[trigger] data@[k]
                    == window_pix::<R>(img, radius as int, k % (w as int), k / (w as int)) by {
                    assert(data@[k] == fcl(k % (w as int), k / (w as int)));
                }
            }
        }
        proof {
            assert((y as int + 1) * (w as int) == y as int * (w as int) + (w as int))
                by (nonlinear_arith);
        }
    }
    let out = PixelBuffer { width: w, height: h, data };
    proof {
        assert((w as int) * (h as int) == (h as int) * (w as int)) by (nonlinear_arith);
        lemma_grid(
            out.data@,
            w as int,
            h as int,
            |xx: int, yy: int| window_pix::<R>(img, radius as int, xx, yy),
        );
        assert forall|x: int, y: int| 0 <= x < w && 0 <= y < h implies out.pix_at(x, y)
            == window_pix::<R>(img, radius as int, x, y) by {
            lemma_row_major_bounds(w as int, h as int, x, y);
            assert(out.data@[y * (w as int) + x] == window_pix::<R>(img, radius as int, x, y));
        }
    }
    out
}

} // verus!
