//! The raster container: width, height, and a row-major pixel array.

use vstd::prelude::*;

use crate::pixel::Pixel;

verus! {

/// Largest admissible pixel count of a raster. It equals `u64::MAX / 255`
/// exactly, so a per-channel sum over a whole well-formed raster — at most
/// `255 * width * height` — always fits in the 64-bit accumulators.
pub const AREA_LIMIT: u64 = 0x0101_0101_0101_0101;

/// An RGBA raster: `width * height` pixels in row-major order, origin at
/// the top left.
pub struct PixelBuffer {
    pub width: u32,
    pub height: u32,
    pub data: Vec<Pixel>,
}

impl PixelBuffer {
    /// Well-formedness: the pixel array matches the dimensions, and the
    /// pixel count stays under `AREA_LIMIT` so channel sums cannot
    /// overflow 64 bits.
    pub open spec fn wf(&self) -> bool {
        &&& self.data.len() == self.width as int * self.height as int
        &&& self.width as int * self.height as int <= AREA_LIMIT
    }

    /// The pixel at column `x`, row `y`.
    pub open spec fn pix_at(&self, x: int, y: int) -> Pixel {
        self.data[y * self.width as int + x]
    }

    /// Build a raster from explicit dimensions and a row-major pixel array.
    /// Rejects mismatched lengths and rasters over `AREA_LIMIT` pixels.
    pub fn new(width: u32, height: u32, data: Vec<Pixel>) -> (r: Option<PixelBuffer>)
        ensures
            r is Some <==> (width as int * height as int == data.len() && width as int
                * height as int <= AREA_LIMIT),
            r is Some ==> r == Some(PixelBuffer { width, height, data }),
            r is Some ==> r->Some_0.wf(),
    {
        proof {
            assert((width as int) * (height as int) <= 0xffff_ffffu64 * 0xffff_ffffu64)
                by (nonlinear_arith)
                requires
                    width <= 0xffff_ffffu64,
                    height <= 0xffff_ffffu64,
            ;
        }
        let area: u64 = (width as u64) * (height as u64);
        if area > AREA_LIMIT {
            return None;
        }
        if data.len() as u64 != area {
            return None;
        }
        Some(PixelBuffer { width, height, data })
    }

    /// Build a raster whose pixels all equal `fill`.
    pub fn new_filled(width: u32, height: u32, fill: Pixel) -> (r: Option<PixelBuffer>)
        ensures
            r is Some <==> width as int * height as int <= AREA_LIMIT,
            r is Some ==> {
                &&& r->Some_0.wf()
                &&& r->Some_0.width == width
                &&& r->Some_0.height == height
                &&& forall|x: int, y: int|
                    0 <= x < width && 0 <= y < height ==> r->Some_0.pix_at(x, y) == fill
            },
    {
        proof {
            assert((width as int) * (height as int) <= 0xffff_ffffu64 * 0xffff_ffffu64)
                by (nonlinear_arith)
                requires
                    width <= 0xffff_ffffu64,
                    height <= 0xffff_ffffu64,
            ;
        }
        let area: u64 = (width as u64) * (height as u64);
        if area > AREA_LIMIT {
            return None;
        }
        let mut data: Vec<Pixel> = Vec::new();
        let mut k: u64 = 0;
        while k < area
            invariant
                k <= area,
                area == width as int * height as int,
                data.len() == k,
                forall|i: int| 0 <= i < data.len() ==> data[i] == fill,
            decreases area - k,
        {
            data.push(fill);
            k = k + 1;
        }
        let buf = PixelBuffer { width, height, data };
        proof {
            assert forall|x: int, y: int| 0 <= x < width && 0 <= y < height implies buf.pix_at(
                x,
                y,
            ) == fill by {
                lemma_row_major_bounds(width as int, height as int, x, y);
            }
        }
        Some(buf)
    }

    /// The pixel at column `x`, row `y`, by row-major indexing.
    pub fn get(&self, x: u32, y: u32) -> (p: Pixel)
        requires
            self.wf(),
            x < self.width,
            y < self.height,
        ensures
            p == self.pix_at(x as int, y as int),
    {
        proof {
            lemma_row_major_bounds(self.width as int, self.height as int, x as int, y as int);
        }
        let i: usize = (y as usize) * (self.width as usize) + (x as usize);
        self.data[i]
    }
}

/// A row-major index `y * w + x` with `x < w` and `y < h` stays inside the
/// `w * h` pixel array.
pub proof fn lemma_row_major_bounds(w: int, h: int, x: int, y: int)
    requires
        0 <= x < w,
        0 <= y < h,
    ensures
        0 <= y * w + x < w * h,
    decreases h,
{
    assert(y * w + x < w * h) by (nonlinear_arith)
        requires
            0 <= x < w,
            0 <= y < h,
    ;
}

/// Row-major indices decompose uniquely: dividing `y * w + x` by the row
/// width recovers the coordinates.
pub proof fn lemma_row_major_coords(w: int, x: int, y: int)
    requires
        0 <= x < w,
        0 <= y,
    ensures
        (y * w + x) / w == y,
        (y * w + x) % w == x,
{
    vstd::arithmetic::div_mod::lemma_fundamental_div_mod_converse(y * w + x, w, y, x);
}

/// Extending a row-major pixel array that agrees with `f` everywhere by the
/// value `f(x, y)` at the next index `y * w + x` keeps the agreement.
pub proof fn lemma_grid_push<T>(data: Seq<T>, w: int, x: int, y: int, f: spec_fn(int, int) -> T)
    requires
        0 <= x < w,
        0 <= y,
        data.len() == y * w + x,
        forall|k: int| 0 <= k < data.len() ==> data[k] == f(k % w, k / w),
    ensures
        forall|k: int|
            0 <= k < data.len() + 1 ==> #[trigger] data.push(f(x, y))[k] == f(k % w, k / w),
{
    lemma_row_major_coords(w, x, y);
    assert forall|k: int| 0 <= k < data.len() + 1 implies #[trigger] data.push(f(x, y))[k] == f(
        k % w,
        k / w,
    ) by {
        if k < data.len() {
            assert(data.push(f(x, y))[k] == data[k]);
        } else {
            assert(data.push(f(x, y))[k] == f(x, y));
        }
    }
}

/// A complete row-major pixel array that agrees with `f` index by index
/// agrees with it coordinate by coordinate.
pub proof fn lemma_grid<T>(data: Seq<T>, w: int, h: int, f: spec_fn(int, int) -> T)
    requires
        data.len() == w * h,
        forall|k: int| 0 <= k < data.len() ==> data[k] == f(k % w, k / w),
    ensures
        forall|x: int, y: int| 0 <= x < w && 0 <= y < h ==> #[trigger] data[y * w + x] == f(x, y),
{
    assert forall|x: int, y: int| 0 <= x < w && 0 <= y < h implies #[trigger] data[y * w + x] == f(
        x,
        y,
    ) by {
        lemma_row_major_bounds(w, h, x, y);
        lemma_row_major_coords(w, x, y);
    }
}

} // verus!
