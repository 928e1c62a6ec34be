//! Pixelwise comparison of two equally-sized rasters: equal pixels map to
//! opaque black, differing pixels to a fixed highlight color.

use vstd::prelude::*;

use crate::pixel::Pixel;
use crate::pixel_buffer::{lemma_grid, lemma_grid_push, lemma_row_major_bounds, PixelBuffer};

verus! {

/// Comparison failure: the two rasters differ in width or height.
#[derive(Debug, Clone, Copy, PartialEq, Eq, Structural)]
pub enum CompareError {
    MismatchSize,
}

/// The comparison output at `(x, y)`: opaque black where the inputs agree
/// exactly, the highlight color (190, 0, 0, 255) where they differ.
pub open spec fn compare_pix(lhs: &PixelBuffer, rhs: &PixelBuffer, x: int, y: int) -> Pixel {
    if lhs.pix_at(x, y) == rhs.pix_at(x, y) {
        Pixel { r: 0, g: 0, b: 0, a: 255 }
    } else {
        Pixel { r: 190, g: 0, b: 0, a: 255 }
    }
}

/// Compare two rasters pixel by pixel. Succeeds exactly when the
/// dimensions agree; the output marks equal pixels opaque black and
/// differing pixels with the highlight color. Neither input is changed.
pub fn compare(lhs: &PixelBuffer, rhs: &PixelBuffer) -> (r: Result<PixelBuffer, CompareError>)
    requires
        lhs.wf(),
        rhs.wf(),
    ensures
        r is Ok <==> (lhs.width == rhs.width && lhs.height == rhs.height),
        r is Err ==> r->Err_0 == CompareError::MismatchSize,
        r is Ok ==> {
            &&& r->Ok_0.wf()
            &&& r->Ok_0.width == lhs.width
            &&& r->Ok_0.height == lhs.height
            &&& forall|x: int, y: int|
                0 <= x < lhs.width && 0 <= y < lhs.height ==> r->Ok_0.pix_at(x, y) == compare_pix(
                    lhs,
                    rhs,
                    x,
                    y,
                )
        },
{
    if lhs.width != rhs.width || lhs.height != rhs.height {
        return Err(CompareError::MismatchSize);
    }
    let w = lhs.width;
    let h = lhs.height;
    let mut data: Vec<Pixel> = Vec::new();
    proof {
        assert(0 * (w as int) == 0) by (nonlinear_arith);
    }
    for y in 0..h
        invariant
            lhs.wf(),
            rhs.wf(),
            w == lhs.width && w == rhs.width,
            h == lhs.height && h == rhs.height,
            data.len() == y * (w as int),
            forall|k: int|
                0 <= k < data.len() ==> #[trigger] data@[k] == compare_pix(
                    lhs,
                    rhs,
                    k % (w as int),
                    k / (w as int),
                ),
    {
        for x in 0..w
            invariant
                lhs.wf(),
                rhs.wf(),
                w == lhs.width && w == rhs.width,
                h == lhs.height && h == rhs.height,
                y < h,
                data.len() == y * (w as int) + x,
                forall|k: int|
                    0 <= k < data.len() ==> #[trigger] data@[k] == compare_pix(
                        lhs,
                        rhs,
                        k % (w as int),
                        k / (w as int),
                    ),
        {
            let a = lhs.get(x, y);
            let b = rhs.get(x, y);
            let px = if a == b {
                Pixel { r: 0, g: 0, b: 0, a: 255 }
            } else {
                Pixel { r: 190, g: 0, b: 0, a: 255 }
            };
            let ghost fcl = |xx: int, yy: int| compare_pix(lhs, rhs, xx, yy);
            let ghost prev = data@;
            proof {
                assert(px == fcl(x as int, y as int));
                lemma_grid_push(prev, w as int, x as int, y as int, fcl);
            }
            data.push(px);
            proof {
                assert(data@ == prev.push(fcl(x as int, y as int)));
                assert forall|k: int| 0 <= k < data.len() implies #[trigger] data@[k]
                    == compare_pix(lhs, rhs, k % (w as int), k / (w as int)) by {
                    assert(data@[k] == fcl(k % (w as int), k / (w as int)));
                }
            }
        }
        proof {
            assert((y as int + 1) * (w as int) == y as int * (w as int) + (w as int))
                by (nonlinear_arith);
        }
    }
    let out = PixelBuffer { width: w, height: h, data };
    proof {
        assert((w as int) * (h as int) == (h as int) * (w as int)) by (nonlinear_arith);
        let fcl = |xx: int, yy: int| compare_pix(lhs, rhs, xx, yy);
        lemma_grid(out.data@, w as int, h as int, fcl);
        assert forall|x: int, y: int| 0 <= x < w && 0 <= y < h implies out.pix_at(x, y)
            == compare_pix(lhs, rhs, x, y) by {
            lemma_row_major_bounds(w as int, h as int, x, y);
            assert(out.data@[y * (w as int) + x] == fcl(x, y));
        }
    }
    Ok(out)
}

} // verus!
