//! The integral-image engine: per-channel two-dimensional prefix sums with
//! O(1) rectangle-sum queries, built once per filter invocation.

use vstd::prelude::*;

use crate::pixel::WidePixel;
use crate::pixel_buffer::{
    lemma_grid_push, lemma_row_major_bounds, lemma_row_major_coords, PixelBuffer,
};
use crate::rect::{
    lemma_rect_sum_bounds, lemma_rect_sum_empty, lemma_rect_sum_fits, lemma_rect_sum_single_col,
    lemma_rect_sum_split_x, lemma_rect_sum_split_y, rect_sum,
};

verus! {

/// The table entry owed at `(x, y)`: per channel, the sum over the prefix
/// rectangle `[0, x + 1) x [0, y + 1)` of the source raster.
pub open spec fn table_val(img: &PixelBuffer, x: int, y: int) -> WidePixel {
    WidePixel {
        r: rect_sum(img, 0, 0, x + 1, 0, y + 1) as u64,
        g: rect_sum(img, 1, 0, x + 1, 0, y + 1) as u64,
        b: rect_sum(img, 2, 0, x + 1, 0, y + 1) as u64,
        a: rect_sum(img, 3, 0, x + 1, 0, y + 1) as u64,
    }
}

/// Per-channel prefix sums of one raster, in the raster's own row-major
/// layout. Built once, never mutated afterwards.
pub struct IntegralTable {
    pub width: u32,
    pub height: u32,
    pub sums: Vec<WidePixel>,
    /// The raster the table was built from, kept for specification only.
    pub src: Ghost<PixelBuffer>,
}

impl IntegralTable {
    /// Well-formedness: dimensions match the source raster and every entry
    /// holds the prefix sums up to and including its coordinates.
    pub open spec fn wf(&self) -> bool {
        &&& self.src@.wf()
        &&& self.width == self.src@.width
        &&& self.height == self.src@.height
        &&& self.sums.len() == self.width as int * self.height as int
        &&& forall|k: int|
            0 <= k < self.sums.len() ==> #[trigger] self.sums[k] == table_val(
                &self.src@,
                k % self.width as int,
                k / self.width as int,
            )
    }

    /// Build the prefix-sum table by one row-major pass: each entry comes
    /// from its left, upper and upper-left neighbours by
    /// inclusion-exclusion; terms whose index would be negative are exactly
    /// zero, never a clamped neighbour.
    pub fn build(img: &PixelBuffer) -> (t: IntegralTable)
        requires
            img.wf(),
        ensures
            t.wf(),
            t.src@ == *img,
    {
        let w = img.width;
        let h = img.height;
        let mut sums: Vec<WidePixel> = Vec::new();
        for y in 0..h
            invariant
                img.wf(),
                w == img.width,
                h == img.height,
                sums.len() == y * (w as int),
                forall|k: int|
                    0 <= k < sums.len() ==> #[trigger] sums@[k] == table_val(
                        img,
                        k % (w as int),
                        k / (w as int),
                    ),
        {
            for x in 0..w
                invariant
                    img.wf(),
                    w == img.width,
                    h == img.height,
                    y < h,
                    sums.len() == y * (w as int) + x,
                    forall|k: int|
                        0 <= k < sums.len() ==> #[trigger] sums@[k] == table_val(
                            img,
                            k % (w as int),
                            k / (w as int),
                        ),
            {
                let idx = sums.len();
                let ghost fcl = |xx: int, yy: int| table_val(img, xx, yy);
                proof {
                    lemma_row_major_bounds(w as int, h as int, x as int, y as int);
                    if x > 0 {
                        lemma_row_major_coords(w as int, x as int - 1, y as int);
                        assert(idx as int - 1 == y as int * (w as int) + (x as int - 1));
                        assert(sums@[idx as int - 1] == table_val(img, x as int - 1, y as int));
                    }
                    if y > 0 {
                        lemma_row_major_coords(w as int, x as int, y as int - 1);
                        assert(y as int * (w as int) + x - (w as int) == (y as int - 1) * (w as int)
                            + x) by (nonlinear_arith);
                    }
                    if x > 0 && y > 0 {
                        lemma_row_major_coords(w as int, x as int - 1, y as int - 1);
                        assert(y as int * (w as int) + x - (w as int) - 1 == (y as int - 1) * (
                        w as int) + (x as int - 1)) by (nonlinear_arith);
                    }
                }
                let left: WidePixel = if x > 0 {
                    sums[idx - 1]
                } else {
                    WidePixel { r: 0, g: 0, b: 0, a: 0 }
                };
                let up: WidePixel = if y > 0 {
                    sums[idx - w as usize]
                } else {
                    WidePixel { r: 0, g: 0, b: 0, a: 0 }
                };
                let diag: WidePixel = if x > 0 && y > 0 {
                    sums[idx - w as usize - 1]
                } else {
                    WidePixel { r: 0, g: 0, b: 0, a: 0 }
                };
                let p = img.get(x, y);
                proof {
                    if y == 0 {
                        lemma_rect_sum_empty(img, 0, 0, x as int + 1, 0, 0);
                        lemma_rect_sum_empty(img, 1, 0, x as int + 1, 0, 0);
                        lemma_rect_sum_empty(img, 2, 0, x as int + 1, 0, 0);
                        lemma_rect_sum_empty(img, 3, 0, x as int + 1, 0, 0);
                        lemma_rect_sum_empty(img, 0, 0, x as int, 0, 0);
                        lemma_rect_sum_empty(img, 1, 0, x as int, 0, 0);
                        lemma_rect_sum_empty(img, 2, 0, x as int, 0, 0);
                        lemma_rect_sum_empty(img, 3, 0, x as int, 0, 0);
                    }
                    lemma_table_step(img, 0, x as int, y as int);
                    lemma_table_step(img, 1, x as int, y as int);
                    lemma_table_step(img, 2, x as int, y as int);
                    lemma_table_step(img, 3, x as int, y as int);
                    assert(left == WidePixel {
                        r: rect_sum(img, 0, 0, x as int, 0, y as int + 1) as u64,
                        g: rect_sum(img, 1, 0, x as int, 0, y as int + 1) as u64,
                        b: rect_sum(img, 2, 0, x as int, 0, y as int + 1) as u64,
                        a: rect_sum(img, 3, 0, x as int, 0, y as int + 1) as u64,
                    });
                    assert(up == WidePixel {
                        r: rect_sum(img, 0, 0, x as int + 1, 0, y as int) as u64,
                        g: rect_sum(img, 1, 0, x as int + 1, 0, y as int) as u64,
                        b: rect_sum(img, 2, 0, x as int + 1, 0, y as int) as u64,
                        a: rect_sum(img, 3, 0, x as int + 1, 0, y as int) as u64,
                    });
                    assert(diag == WidePixel {
                        r: rect_sum(img, 0, 0, x as int, 0, y as int) as u64,
                        g: rect_sum(img, 1, 0, x as int, 0, y as int) as u64,
                        b: rect_sum(img, 2, 0, x as int, 0, y as int) as u64,
                        a: rect_sum(img, 3, 0, x as int, 0, y as int) as u64,
                    });
                }
                let val = WidePixel {
                    r: (left.r - diag.r) + up.r + p.r as u64,
                    g: (left.g - diag.g) + up.g + p.g as u64,
                    b: (left.b - diag.b) + up.b + p.b as u64,
                    a: (left.a - diag.a) + up.a + p.a as u64,
                };
                let ghost prev = sums@;
                proof {
                    assert(val == fcl(x as int, y as int));
                    lemma_grid_push(prev, w as int, x as int, y as int, fcl);
                }
                sums.push(val);
                proof {
                    assert(sums@ == prev.push(fcl(x as int, y as int)));
                    assert forall|k: int| 0 <= k < sums.len() implies #[trigger] sums@[k]
                        == table_val(img, k % (w as int), k / (w as int)) by {
                        assert(sums@[k] == fcl(k % (w as int), k / (w as int)));
                    }
                }
            }
            proof {
                assert((y as int + 1) * (w as int) == y as int * (w as int) + (w as int))
                    by (nonlinear_arith);
            }
        }
        proof {
            assert((w as int) * (h as int) == (h as int) * (w as int)) by (nonlinear_arith);
        }
        IntegralTable { width: w, height: h, sums, src: Ghost(*img) }
    }

    /// One table entry: the per-channel prefix sums up to and including
    /// `(x, y)`.
    fn entry(&self, x: u32, y: u32) -> (e: WidePixel)
        requires
            self.wf(),
            x < self.width,
            y < self.height,
        ensures
            e == table_val(&self.src@, x as int, y as int),
    {
        proof {
            lemma_row_major_bounds(self.width as int, self.height as int, x as int, y as int);
            lemma_row_major_coords(self.width as int, x as int, y as int);
        }
        let i: usize = (y as usize) * (self.width as usize) + (x as usize);
        self.sums[i]
    }

    /// Per-channel sum of the source raster over `[x0, x1) x [y0, y1)`, in
    /// O(1) from four prefix entries. Terms whose index would fall outside
    /// the table count as exactly zero.
    pub fn query(&self, x0: u32, x1: u32, y0: u32, y1: u32) -> (s: WidePixel)
        requires
            self.wf(),
            x0 < x1 <= self.width,
            y0 < y1 <= self.height,
        ensures
            s.r == rect_sum(&self.src@, 0, x0 as int, x1 as int, y0 as int, y1 as int),
            s.g == rect_sum(&self.src@, 1, x0 as int, x1 as int, y0 as int, y1 as int),
            s.b == rect_sum(&self.src@, 2, x0 as int, x1 as int, y0 as int, y1 as int),
            s.a == rect_sum(&self.src@, 3, x0 as int, x1 as int, y0 as int, y1 as int),
    {
        let ghost img = &self.src@;
        let zero = WidePixel { r: 0, g: 0, b: 0, a: 0 };
        let corner = self.entry(x1 - 1, y1 - 1);
        let above = if y0 > 0 {
            self.entry(x1 - 1, y0 - 1)
        } else {
            zero
        };
        let left = if x0 > 0 {
            self.entry(x0 - 1, y1 - 1)
        } else {
            zero
        };
        let diag = if x0 > 0 && y0 > 0 {
            self.entry(x0 - 1, y0 - 1)
        } else {
            zero
        };
        proof {
            lemma_query_math(img, 0, x0 as int, x1 as int, y0 as int, y1 as int);
            lemma_query_math(img, 1, x0 as int, x1 as int, y0 as int, y1 as int);
            lemma_query_math(img, 2, x0 as int, x1 as int, y0 as int, y1 as int);
            lemma_query_math(img, 3, x0 as int, x1 as int, y0 as int, y1 as int);
        }
        WidePixel {
            r: (corner.r - above.r) - (left.r - diag.r),
            g: (corner.g - above.g) - (left.g - diag.g),
            b: (corner.b - above.b) - (left.b - diag.b),
            a: (corner.a - above.a) - (left.a - diag.a),
        }
    }
}

/// Inclusion-exclusion step for one prefix entry: the prefix rectangle up to
/// `(x, y)` equals left prefix plus upper prefix minus the upper-left
/// prefix, plus the pixel itself; and the parts never exceed the whole.
proof fn lemma_table_step(img: &PixelBuffer, c: int, x: int, y: int)
    requires
        img.wf(),
        0 <= x < img.width,
        0 <= y < img.height,
    ensures
        rect_sum(img, c, 0, x + 1, 0, y + 1) == (rect_sum(img, c, 0, x, 0, y + 1) - rect_sum(
            img,
            c,
            0,
            x,
            0,
            y,
        )) + rect_sum(img, c, 0, x + 1, 0, y) + crate::pixel::channel(img.pix_at(x, y), c),
        rect_sum(img, c, 0, x, 0, y) <= rect_sum(img, c, 0, x, 0, y + 1),
        0 <= rect_sum(img, c, 0, x, 0, y),
        0 <= rect_sum(img, c, 0, x + 1, 0, y),
        rect_sum(img, c, 0, x + 1, 0, y + 1) <= u64::MAX,
        rect_sum(img, c, 0, x, 0, y + 1) <= u64::MAX,
        rect_sum(img, c, 0, x + 1, 0, y) <= u64::MAX,
        rect_sum(img, c, 0, x, 0, y) <= u64::MAX,
{
    lemma_rect_sum_fits(img, c, 0, x, 0, y + 1);
    lemma_rect_sum_fits(img, c, 0, x + 1, 0, y);
    lemma_rect_sum_fits(img, c, 0, x, 0, y);
    lemma_rect_sum_split_x(img, c, 0, x, x + 1, 0, y + 1);
    lemma_rect_sum_single_col(img, c, x, 0, y + 1);
    lemma_rect_sum_split_x(img, c, 0, x, x + 1, 0, y);
    lemma_rect_sum_single_col(img, c, x, 0, y);
    lemma_rect_sum_split_y(img, c, 0, x, 0, y, y + 1);
    lemma_rect_sum_bounds(img, c, 0, x, y, y + 1);
    lemma_rect_sum_bounds(img, c, 0, x, 0, y);
    lemma_rect_sum_bounds(img, c, 0, x + 1, 0, y);
    lemma_rect_sum_fits(img, c, 0, x + 1, 0, y + 1);
}

/// Inclusion-exclusion for a rectangle query from four prefix rectangles,
/// with the order of subtractions chosen so every intermediate value is a
/// rectangle sum and hence nonnegative.
proof fn lemma_query_math(img: &PixelBuffer, c: int, x0: int, x1: int, y0: int, y1: int)
    requires
        img.wf(),
        0 <= x0 < x1 <= img.width,
        0 <= y0 < y1 <= img.height,
    ensures
        rect_sum(img, c, 0, x1, 0, y1) - rect_sum(img, c, 0, x1, 0, y0) == rect_sum(
            img,
            c,
            0,
            x1,
            y0,
            y1,
        ),
        rect_sum(img, c, 0, x0, 0, y1) - rect_sum(img, c, 0, x0, 0, y0) == rect_sum(
            img,
            c,
            0,
            x0,
            y0,
            y1,
        ),
        rect_sum(img, c, 0, x1, y0, y1) - rect_sum(img, c, 0, x0, y0, y1) == rect_sum(
            img,
            c,
            x0,
            x1,
            y0,
            y1,
        ),
        0 <= rect_sum(img, c, 0, x0, 0, y0),
        0 <= rect_sum(img, c, 0, x1, 0, y0),
        0 <= rect_sum(img, c, 0, x0, y0, y1),
        0 <= rect_sum(img, c, x0, x1, y0, y1),
        rect_sum(img, c, 0, x1, 0, y1) <= u64::MAX,
        y0 == 0 ==> rect_sum(img, c, 0, x1, 0, y0) == 0 && rect_sum(img, c, 0, x0, 0, y0) == 0,
        rect_sum(img, c, 0, x1, 0, y0) <= u64::MAX,
        rect_sum(img, c, 0, x0, 0, y1) <= u64::MAX,
        rect_sum(img, c, 0, x0, 0, y0) <= u64::MAX,
{
    lemma_rect_sum_fits(img, c, 0, x1, 0, y0);
    lemma_rect_sum_fits(img, c, 0, x0, 0, y1);
    lemma_rect_sum_fits(img, c, 0, x0, 0, y0);
    if y0 == 0 {
        lemma_rect_sum_empty(img, c, 0, x1, 0, 0);
        lemma_rect_sum_empty(img, c, 0, x0, 0, 0);
    }
    lemma_rect_sum_split_y(img, c, 0, x1, 0, y0, y1);
    lemma_rect_sum_split_y(img, c, 0, x0, 0, y0, y1);
    lemma_rect_sum_split_x(img, c, 0, x0, x1, y0, y1);
    lemma_rect_sum_bounds(img, c, 0, x0, 0, y0);
    lemma_rect_sum_bounds(img, c, 0, x1, 0, y0);
    lemma_rect_sum_bounds(img, c, 0, x0, y0, y1);
    lemma_rect_sum_bounds(img, c, x0, x1, y0, y1);
    lemma_rect_sum_fits(img, c, 0, x1, 0, y1);
}

} // verus!
