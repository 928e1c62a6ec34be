//! Local contrast enhancement: each channel is pushed away from (or pulled
//! toward) the mean of its clamped neighborhood by a signed factor, then
//! clamped back into the channel range.

use vstd::prelude::*;

use crate::adaptive_threshold::clamp_255;
use crate::blur::{lemma_mean_in_range, mean_channel};
use crate::integral::IntegralTable;
use crate::pixel::{channel, Pixel};
use crate::pixel_buffer::{lemma_grid, lemma_grid_push, lemma_row_major_bounds, PixelBuffer};
use crate::rect::{whi, wlo};

verus! {

/// One output channel: the channel value plus `(value - window mean) *
/// factor`, clamped to `[0, 255]`.
pub open spec fn contrast_channel(
    img: &PixelBuffer,
    c: int,
    factor: int,
    x0: int,
    x1: int,
    y0: int,
    y1: int,
    x: int,
    y: int,
) -> int {
    let v = channel(img.pix_at(x, y), c) as int;
    let m = mean_channel(img, c, x0, x1, y0, y1);
    clamp_255(v + (v - m) * factor)
}

/// The contrast-enhanced pixel at `(x, y)`.
pub open spec fn local_contrast_pix(
    img: &PixelBuffer,
    radius: int,
    factor: int,
    x: int,
    y: int,
) -> Pixel {
    let x0 = wlo(x, radius);
    let x1 = whi(x, radius, img.width as int);
    let y0 = wlo(y, radius);
    let y1 = whi(y, radius, img.height as int);
    Pixel {
        r: contrast_channel(img, 0, factor, x0, x1, y0, y1, x, y) as u8,
        g: contrast_channel(img, 1, factor, x0, x1, y0, y1, x, y) as u8,
        b: contrast_channel(img, 2, factor, x0, x1, y0, y1, x, y) as u8,
        a: contrast_channel(img, 3, factor, x0, x1, y0, y1, x, y) as u8,
    }
}

/// One channel of the contrast computation, in 64-bit signed arithmetic
/// wide enough that no intermediate value can overflow.
fn contrast_step(v: u8, m: u64, factor: i32) -> (r: u8)
    requires
        m <= 255,
    ensures
        r == clamp_255(v + (v - m) * factor),
{
    let vi: i64 = v as i64;
    let d: i64 = vi - m as i64;
    proof {
        assert(-255 * 0x8000_0000i64 <= d * (factor as i64) <= 255 * 0x8000_0000i64)
            by (nonlinear_arith)
            requires
                -255 <= d <= 255,
                -0x8000_0000i64 <= factor <= 0x7fff_ffffi64,
        ;
    }
    let shifted: i64 = vi + d * factor as i64;
    if shifted < 0 {
        0
    } else if shifted > 255 {
        255
    } else {
        shifted as u8
    }
}

/// Local contrast enhancement with window radius `radius` and signed
/// multiplier `factor`: per pixel and channel, the distance from the
/// neighborhood mean is scaled by `factor` and added back, clamped to the
/// channel range.
#[verifier::rlimit(60)]
pub fn local_contrast(img: &PixelBuffer, radius: u32, factor: i32) -> (out: PixelBuffer)
    requires
        img.wf(),
    ensures
        out.wf(),
        out.width == img.width,
        out.height == img.height,
        forall|x: int, y: int|
            0 <= x < img.width && 0 <= y < img.height ==> out.pix_at(x, y) == local_contrast_pix(
                img,
                radius as int,
                factor as int,
                x,
                y,
            ),
{
    let w = img.width;
    let h = img.height;
    let table = IntegralTable::build(img);
    let mut data: Vec<Pixel> = Vec::new();
    proof {
        assert(0 * (w as int) == 0) by (nonlinear_arith);
    }
    for y in 0..h
        invariant
            img.wf(),
            w == img.width,
            h == img.height,
            table.wf(),
            table.src@ == *img,
            data.len() == y * (w as int),
            forall|k: int|
                0 <= k < data.len() ==> #[trigger] data@[k] == local_contrast_pix(
                    img,
                    radius as int,
                    factor as int,
                    k % (w as int),
                    k / (w as int),
                ),
    {
        for x in 0..w
            invariant
                img.wf(),
                w == img.width,
                h == img.height,
                y < h,
                table.wf(),
                table.src@ == *img,
                data.len() == y * (w as int) + x,
                forall|k: int|
                    0 <= k < data.len() ==> #[trigger] data@[k] == local_contrast_pix(
                        img,
                        radius as int,
                        factor as int,
                        k % (w as int),
                        k / (w as int),
                    ),
        {
            let x0: u32 = if x > radius {
                x - radius
            } else {
                0
            };
            let xb: u64 = x as u64 + radius as u64 + 1;
            let x1: u32 = if xb >= w as u64 {
                w
            } else {
                xb as u32
            };
            let y0: u32 = if y > radius {
                y - radius
            } else {
                0
            };
            let yb: u64 = y as u64 + radius as u64 + 1;
            let y1: u32 = if yb >= h as u64 {
                h
            } else {
                yb as u32
            };
            assert(x0 as int == wlo(x as int, radius as int));
            assert(x1 as int == whi(x as int, radius as int, w as int));
            assert(y0 as int == wlo(y as int, radius as int));
            assert(y1 as int == whi(y as int, radius as int, h as int));
            let sums = table.query(x0, x1, y0, y1);
            let cw: u64 = (x1 - x0) as u64;
            let ch: u64 = (y1 - y0) as u64;
            proof {
                assert(cw * ch <= (w as int) * (h as int)) by (nonlinear_arith)
                    requires
                        0 <= cw <= w as int,
                        0 <= ch <= h as int,
                ;
                assert(cw * ch >= 1) by (nonlinear_arith)
                    requires
                        cw >= 1,
                        ch >= 1,
                ;
                lemma_mean_in_range(img, 0, x0 as int, x1 as int, y0 as int, y1 as int);
                lemma_mean_in_range(img, 1, x0 as int, x1 as int, y0 as int, y1 as int);
                lemma_mean_in_range(img, 2, x0 as int, x1 as int, y0 as int, y1 as int);
                lemma_mean_in_range(img, 3, x0 as int, x1 as int, y0 as int, y1 as int);
            }
            let count: u64 = cw * ch;
            proof {
                assert(count as int == (x1 as int - x0 as int) * (y1 as int - y0 as int));
            }
            let p = img.get(x, y);
            let px = Pixel {
                r: contrast_step(p.r, sums.r / count, factor),
                g: contrast_step(p.g, sums.g / count, factor),
                b: contrast_step(p.b, sums.b / count, factor),
                a: contrast_step(p.a, sums.a / count, factor),
            };
            let ghost fcl = |xx: int, yy: int|
                local_contrast_pix(img, radius as int, factor as int, xx, yy);
            let ghost prev = data@;
            proof {
                assert(sums.r / count == mean_channel(
                    img,
                    0,
                    x0 as int,
                    x1 as int,
                    y0 as int,
                    y1 as int,
                ));
                assert(px == fcl(x as int, y as int));
                lemma_grid_push(prev, w as int, x as int, y as int, fcl);
            }
            data.push(px);
            proof {
                assert(data@ == prev.push(fcl(x as int, y as int)));
                assert forall|k: int| 0 <= k < data.len() implies #[trigger] data@[k]
                    == local_contrast_pix(
                    img,
                    radius as int,
                    factor as int,
                    k % (w as int),
                    k / (w as int),
                ) by {
                    assert(data@[k] == fcl(k % (w as int), k / (w as int)));
                }
            }
        }
        proof {
            assert((y as int + 1) * (w as int) == y as int * (w as int) + (w as int))
                by (nonlinear_arith);
        }
    }
    let out = PixelBuffer { width: w, height: h, data };
    proof {
        assert((w as int) * (h as int) == (h as int) * (w as int)) by (nonlinear_arith);
        let fcl = |xx: int, yy: int| local_contrast_pix(img, radius as int, factor as int, xx, yy);
        lemma_grid(out.data@, w as int, h as int, fcl);
        assert forall|x: int, y: int| 0 <= x < w && 0 <= y < h implies out.pix_at(x, y)
            == local_contrast_pix(img, radius as int, factor as int, x, y) by {
            lemma_row_major_bounds(w as int, h as int, x, y);
            assert(out.data@[y * (w as int) + x] == fcl(x, y));
        }
    }
    out
}

} // verus!
