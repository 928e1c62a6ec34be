//! Adaptive threshold: each pixel is kept only if its own brightness
//! exceeds a per-pixel threshold derived from the mean of its clamped
//! neighborhood plus a caller-supplied bias.

use vstd::prelude::*;

use crate::blur::{lemma_mean_in_range, mean_channel};
use crate::integral::IntegralTable;
use crate::pixel::{luma, Pixel};
use crate::pixel_buffer::{
    lemma_grid, lemma_grid_push, lemma_row_major_bounds, PixelBuffer,
};
use crate::rect::{whi, wlo};

verus! {

/// Clamp an unbounded integer into the channel range `[0, 255]`.
pub open spec fn clamp_255(v: int) -> int {
    if v < 0 {
        0
    } else if v > 255 {
        255
    } else {
        v
    }
}

/// The per-pixel threshold: the grayscale brightness of the window's
/// per-channel means, shifted by the bias `f` and clamped to `[0, 255]`.
pub open spec fn threshold_at(img: &PixelBuffer, radius: int, f: int, x: int, y: int) -> int {
    let x0 = wlo(x, radius);
    let x1 = whi(x, radius, img.width as int);
    let y0 = wlo(y, radius);
    let y1 = whi(y, radius, img.height as int);
    let mr = mean_channel(img, 0, x0, x1, y0, y1);
    let mg = mean_channel(img, 1, x0, x1, y0, y1);
    let mb = mean_channel(img, 2, x0, x1, y0, y1);
    clamp_255((mr / 10) * 3 + (mg / 10) * 6 + mb / 10 + f)
}

/// The thresholded pixel at `(x, y)`: the original pixel where its own
/// brightness strictly exceeds the threshold, opaque black elsewhere.
pub open spec fn adaptive_threshold_pix(
    img: &PixelBuffer,
    radius: int,
    f: int,
    x: int,
    y: int,
) -> Pixel {
    if luma(img.pix_at(x, y)) > threshold_at(img, radius, f, x, y) {
        img.pix_at(x, y)
    } else {
        Pixel { r: 0, g: 0, b: 0, a: 255 }
    }
}

/// Adaptive threshold with window radius `radius` and bias `f`: a pixel
/// survives only where its brightness exceeds the biased mean brightness
/// of its clamped neighborhood; all other pixels become opaque black.
#[verifier::rlimit(60)]
pub fn adaptive_threshold(img: &PixelBuffer, radius: u32, f: i32) -> (out: PixelBuffer)
    requires
        img.wf(),
    ensures
        out.wf(),
        out.width == img.width,
        out.height == img.height,
        forall|x: int, y: int|
            0 <= x < img.width && 0 <= y < img.height ==> out.pix_at(x, y)
                == adaptive_threshold_pix(img, radius as int, f as int, x, y),
{
    let w = img.width;
    let h = img.height;
    let table = IntegralTable::build(img);
    let mut data: Vec<Pixel> = Vec::new();
    proof {
        assert(0 * (w as int) == 0) by (nonlinear_arith);
    }
    for y in 0..h
        invariant
            img.wf(),
            w == img.width,
            h == img.height,
            table.wf(),
            table.src@ == *img,
            data.len() == y * (w as int),
            forall|k: int|
                0 <= k < data.len() ==> #[trigger] data@[k] == adaptive_threshold_pix(
                    img,
                    radius as int,
                    f as int,
                    k % (w as int),
                    k / (w as int),
                ),
    {
        for x in 0..w
            invariant
                img.wf(),
                w == img.width,
                h == img.height,
                y < h,
                table.wf(),
                table.src@ == *img,
                data.len() == y * (w as int) + x,
                forall|k: int|
                    0 <= k < data.len() ==> #[trigger] data@[k] == adaptive_threshold_pix(
                        img,
                        radius as int,
                        f as int,
                        k % (w as int),
                        k / (w as int),
                    ),
        {
            let x0: u32 = if x > radius {
                x - radius
            } else {
                0
            };
            let xb: u64 = x as u64 + radius as u64 + 1;
            let x1: u32 = if xb >= w as u64 {
                w
            } else {
                xb as u32
            };
            let y0: u32 = if y > radius {
                y - radius
            } else {
                0
            };
            let yb: u64 = y as u64 + radius as u64 + 1;
            let y1: u32 = if yb >= h as u64 {
                h
            } else {
                yb as u32
            };
            assert(x0 as int == wlo(x as int, radius as int));
            assert(x1 as int == whi(x as int, radius as int, w as int));
            assert(y0 as int == wlo(y as int, radius as int));
            assert(y1 as int == whi(y as int, radius as int, h as int));
            let sums = table.query(x0, x1, y0, y1);
            let cw: u64 = (x1 - x0) as u64;
            let ch: u64 = (y1 - y0) as u64;
            proof {
                assert(cw * ch <= (w as int) * (h as int)) by (nonlinear_arith)
                    requires
                        0 <= cw <= w as int,
                        0 <= ch <= h as int,
                ;
                assert(cw * ch >= 1) by (nonlinear_arith)
                    requires
                        cw >= 1,
                        ch >= 1,
                ;
                lemma_mean_in_range(img, 0, x0 as int, x1 as int, y0 as int, y1 as int);
                lemma_mean_in_range(img, 1, x0 as int, x1 as int, y0 as int, y1 as int);
                lemma_mean_in_range(img, 2, x0 as int, x1 as int, y0 as int, y1 as int);
            }
            let count: u64 = cw * ch;
            proof {
                assert(count as int == (x1 as int - x0 as int) * (y1 as int - y0 as int));
            }
            let mr: u64 = sums.r / count;
            let mg: u64 = sums.g / count;
            let mb: u64 = sums.b / count;
            proof {
                assert(mr == mean_channel(img, 0, x0 as int, x1 as int, y0 as int, y1 as int));
                assert(mg == mean_channel(img, 1, x0 as int, x1 as int, y0 as int, y1 as int));
                assert(mb == mean_channel(img, 2, x0 as int, x1 as int, y0 as int, y1 as int));
            }
            let gray: u64 = (mr / 10) * 3 + (mg / 10) * 6 + mb / 10;
            let biased: i64 = gray as i64 + f as i64;
            let threshold: i64 = if biased < 0 {
                0
            } else if biased > 255 {
                255
            } else {
                biased
            };
            let p = img.get(x, y);
            let own_gray = p.as_gray();
            let px = if own_gray as i64 > threshold {
                p
            } else {
                Pixel { r: 0, g: 0, b: 0, a: 255 }
            };
            let ghost fcl = |xx: int, yy: int|
                adaptive_threshold_pix(img, radius as int, f as int, xx, yy);
            let ghost prev = data@;
            proof {
                assert(threshold == threshold_at(img, radius as int, f as int, x as int, y as int));
                assert(px == fcl(x as int, y as int));
                lemma_grid_push(prev, w as int, x as int, y as int, fcl);
            }
            data.push(px);
            proof {
                assert(data@ == prev.push(fcl(x as int, y as int)));
                assert forall|k: int| 0 <= k < data.len() implies #[trigger] data@[k]
                    == adaptive_threshold_pix(
                    img,
                    radius as int,
                    f as int,
                    k % (w as int),
                    k / (w as int),
                ) by {
                    assert(data@[k] == fcl(k % (w as int), k / (w as int)));
                }
            }
        }
        proof {
            assert((y as int + 1) * (w as int) == y as int * (w as int) + (w as int))
                by (nonlinear_arith);
        }
    }
    let out = PixelBuffer { width: w, height: h, data };
    proof {
        assert((w as int) * (h as int) == (h as int) * (w as int)) by (nonlinear_arith);
        let fcl = |xx: int, yy: int| adaptive_threshold_pix(img, radius as int, f as int, xx, yy);
        lemma_grid(out.data@, w as int, h as int, fcl);
        assert forall|x: int, y: int| 0 <= x < w && 0 <= y < h implies out.pix_at(x, y)
            == adaptive_threshold_pix(img, radius as int, f as int, x, y) by {
            lemma_row_major_bounds(w as int, h as int, x, y);
            assert(out.data@[y * (w as int) + x] == fcl(x, y));
        }
    }
    out
}

} // verus!
