//! Median blur: every output pixel is the lower-median of its clamped
//! neighborhood, ordered by luma with a stable row-major tie-break.

use vstd::prelude::*;

use crate::pixel::{luma, Pixel};
use crate::pixel_buffer::{lemma_grid, lemma_grid_push, lemma_row_major_bounds, PixelBuffer};
use crate::rect::{whi, wlo};
use crate::sort::{lemma_sort_len, sort_by_luma, sort_entries};

verus! {

/// The `(luma, pixel)` samples of the row segment `[x0, x1) x {y}`, left
/// to right.
pub open spec fn row_pairs(img: &PixelBuffer, y: int, x0: int, x1: int) -> Seq<(u8, Pixel)>
    decreases x1 - x0,
{
    if x1 <= x0 {
        Seq::<(u8, Pixel)>::empty()
    } else {
        row_pairs(img, y, x0, x1 - 1).push(
            (luma(img.pix_at(x1 - 1, y)), img.pix_at(x1 - 1, y)),
        )
    }
}

/// The `(luma, pixel)` samples of the rectangle `[x0, x1) x [y0, y1)` in
/// row-major order — the insertion order the stable sort preserves among
/// equal lumas.
pub open spec fn win_pairs(img: &PixelBuffer, x0: int, x1: int, y0: int, y1: int) -> Seq<
    (u8, Pixel),
>
    decreases y1 - y0,
{
    if y1 <= y0 {
        Seq::<(u8, Pixel)>::empty()
    } else {
        win_pairs(img, x0, x1, y0, y1 - 1) + row_pairs(img, y1 - 1, x0, x1)
    }
}

/// The median pixel at `(x, y)`: the clamped window's samples are
/// stable-sorted ascending by luma and the entry at index
/// `neighbour_count / 2` is taken — the lower median on even counts.
pub open spec fn median_pix(img: &PixelBuffer, radius: int, x: int, y: int) -> Pixel {
    let x0 = wlo(x, radius);
    let x1 = whi(x, radius, img.width as int);
    let y0 = wlo(y, radius);
    let y1 = whi(y, radius, img.height as int);
    let sorted = sort_by_luma(win_pairs(img, x0, x1, y0, y1));
    sorted[sorted.len() as int / 2].1
}

/// A row segment yields one sample per pixel.
pub proof fn lemma_row_pairs_len(img: &PixelBuffer, y: int, x0: int, x1: int)
    requires
        x0 <= x1,
    ensures
        row_pairs(img, y, x0, x1).len() == x1 - x0,
    decreases x1 - x0,
{
    if x0 < x1 {
        lemma_row_pairs_len(img, y, x0, x1 - 1);
    }
}

/// A window yields one sample per pixel.
pub proof fn lemma_win_pairs_len(img: &PixelBuffer, x0: int, x1: int, y0: int, y1: int)
    requires
        x0 <= x1,
        y0 <= y1,
    ensures
        win_pairs(img, x0, x1, y0, y1).len() == (x1 - x0) * (y1 - y0),
    decreases y1 - y0,
{
    if y0 < y1 {
        lemma_win_pairs_len(img, x0, x1, y0, y1 - 1);
        lemma_row_pairs_len(img, y1 - 1, x0, x1);
        assert((x1 - x0) * (y1 - 1 - y0) + (x1 - x0) == (x1 - x0) * (y1 - y0))
            by (nonlinear_arith);
    } else {
        assert((x1 - x0) * (y1 - y0) == 0) by (nonlinear_arith)
            requires
                y1 == y0,
        ;
    }
}

/// Median blur with the given radius: the output pixel is the sample at
/// sorted index `count / 2` among the clamped window's pixels, ordered
/// ascending by luma; equal-luma samples keep row-major order.
#[verifier::rlimit(60)]
pub fn median_blur(img: &PixelBuffer, radius: u32) -> (out: PixelBuffer)
    requires
        img.wf(),
    ensures
        out.wf(),
        out.width == img.width,
        out.height == img.height,
        forall|x: int, y: int|
            0 <= x < img.width && 0 <= y < img.height ==> out.pix_at(x, y) == median_pix(
                img,
                radius as int,
                x,
                y,
            ),
{
    let w = img.width;
    let h = img.height;
    let mut data: Vec<Pixel> = Vec::new();
    proof {
        assert(0 * (w as int) == 0) by (nonlinear_arith);
    }
    for y in 0..h
        invariant
            img.wf(),
            w == img.width,
            h == img.height,
            data.len() == y * (w as int),
            forall|k: int|
                0 <= k < data.len() ==> #[trigger] data@[k] == median_pix(
                    img,
                    radius as int,
                    k % (w as int),
                    k / (w as int),
                ),
    {
        for x in 0..w
            invariant
                img.wf(),
                w == img.width,
                h == img.height,
                y < h,
                data.len() == y * (w as int) + x,
                forall|k: int|
                    0 <= k < data.len() ==> #[trigger] data@[k] == median_pix(
                        img,
                        radius as int,
                        k % (w as int),
                        k / (w as int),
                    ),
        {
            let x0: u32 = if x > radius {
                x - radius
            } else {
                0
            };
            let xb: u64 = x as u64 + radius as u64 + 1;
            let x1: u32 = if xb >= w as u64 {
                w
            } else {
                xb as u32
            };
            let y0: u32 = if y > radius {
                y - radius
            } else {
                0
            };
            let yb: u64 = y as u64 + radius as u64 + 1;
            let y1: u32 = if yb >= h as u64 {
                h
            } else {
                yb as u32
            };
            assert(x0 as int == wlo(x as int, radius as int));
            assert(x1 as int == whi(x as int, radius as int, w as int));
            assert(y0 as int == wlo(y as int, radius as int));
            assert(y1 as int == whi(y as int, radius as int, h as int));
            let mut samples: Vec<(u8, Pixel)> = Vec::new();
            let mut yy: u32 = y0;
            while yy < y1
                invariant
                    img.wf(),
                    w == img.width,
                    h == img.height,
                    x0 <= x < x1 <= w,
                    y0 <= yy <= y1 <= h,
                    samples@ == win_pairs(img, x0 as int, x1 as int, y0 as int, yy as int),
                decreases y1 - yy,
            {
                let mut xx: u32 = x0;
                while xx < x1
                    invariant
                        img.wf(),
                        w == img.width,
                        h == img.height,
                        x0 <= x < x1 <= w,
                        y0 <= yy < y1 <= h,
                        x0 <= xx <= x1,
                        samples@ == win_pairs(img, x0 as int, x1 as int, y0 as int, yy as int)
                            + row_pairs(img, yy as int, x0 as int, xx as int),
                    decreases x1 - xx,
                {
                    let p = img.get(xx, yy);
                    let g = p.as_gray();
                    samples.push((g, p));
                    xx = xx + 1;
                }
                yy = yy + 1;
            }
            let sorted = sort_entries(&samples);
            proof {
                lemma_win_pairs_len(img, x0 as int, x1 as int, y0 as int, y1 as int);
                lemma_sort_len(samples@);
                assert(sorted.len() >= 1) by (nonlinear_arith)
                    requires
                        sorted@.len() == (x1 as int - x0 as int) * (y1 as int - y0 as int),
                        x1 as int - x0 as int >= 1,
                        y1 as int - y0 as int >= 1,
                ;
            }
            let px = sorted[sorted.len() / 2].1;
            let ghost fcl = |xx: int, yy: int| median_pix(img, radius as int, xx, yy);
            let ghost prev = data@;
            proof {
                assert(px == fcl(x as int, y as int));
                lemma_grid_push(prev, w as int, x as int, y as int, fcl);
            }
            data.push(px);
            proof {
                assert(data@ == prev.push(fcl(x as int, y as int)));
                assert forall|k: int| 0 <= k < data.len() implies #[trigger] data@[k] == median_pix(
                    img,
                    radius as int,
                    k % (w as int),
                    k / (w as int),
                ) by {
                    assert(data@[k] == fcl(k % (w as int), k / (w as int)));
                }
            }
        }
        proof {
            assert((y as int + 1) * (w as int) == y as int * (w as int) + (w as int))
                by (nonlinear_arith);
        }
    }
    let out = PixelBuffer { width: w, height: h, data };
    proof {
        assert((w as int) * (h as int) == (h as int) * (w as int)) by (nonlinear_arith);
        let fcl = |xx: int, yy: int| median_pix(img, radius as int, xx, yy);
        lemma_grid(out.data@, w as int, h as int, fcl);
        assert forall|x: int, y: int| 0 <= x < w && 0 <= y < h implies out.pix_at(x, y)
            == median_pix(img, radius as int, x, y) by {
            lemma_row_major_bounds(w as int, h as int, x, y);
            assert(out.data@[y * (w as int) + x] == fcl(x, y));
        }
    }
    out
}

} // verus!
