//! Rectangular-window geometry and per-channel aggregates.
//!
//! Every filter uses the same neighborhood rule: for a pixel coordinate `v`
//! and radius `r`, the window along that axis is `[max(0, v - r),
//! min(n, v + r + 1))` — exactly `r` pixels in each direction, clamped at the
//! borders, never wrapped or padded. Aggregates (sum, minimum, maximum of one
//! channel) are defined column by column over such rectangles.

use vstd::prelude::*;

use crate::pixel::channel;
use crate::pixel_buffer::PixelBuffer;

verus! {

/// Lower window bound along one axis: `max(0, v - r)`.
pub open spec fn wlo(v: int, r: int) -> int {
    if v - r < 0 {
        0
    } else {
        v - r
    }
}

/// Upper (exclusive) window bound along one axis of extent `n`:
/// `min(n, v + r + 1)`.
pub open spec fn whi(v: int, r: int, n: int) -> int {
    if v + r + 1 > n {
        n
    } else {
        v + r + 1
    }
}

/// The larger of two integers.
pub open spec fn max_i(a: int, b: int) -> int {
    if a < b {
        b
    } else {
        a
    }
}

/// The smaller of two integers.
pub open spec fn min_i(a: int, b: int) -> int {
    if a < b {
        a
    } else {
        b
    }
}

/// Sum of channel `c` over the column segment `{x} x [y0, y1)`.
pub open spec fn col_sum(img: &PixelBuffer, c: int, x: int, y0: int, y1: int) -> int
    decreases y1 - y0,
{
    if y1 <= y0 {
        0
    } else {
        col_sum(img, c, x, y0, y1 - 1) + channel(img.pix_at(x, y1 - 1), c)
    }
}

/// Sum of channel `c` over the rectangle `[x0, x1) x [y0, y1)`.
pub open spec fn rect_sum(img: &PixelBuffer, c: int, x0: int, x1: int, y0: int, y1: int) -> int
    decreases x1 - x0,
{
    if x1 <= x0 {
        0
    } else {
        rect_sum(img, c, x0, x1 - 1, y0, y1) + col_sum(img, c, x1 - 1, y0, y1)
    }
}

/// Maximum of channel `c` over the column segment `{x} x [y0, y1)`;
/// 0 when the segment is empty.
pub open spec fn col_max(img: &PixelBuffer, c: int, x: int, y0: int, y1: int) -> int
    decreases y1 - y0,
{
    if y1 <= y0 {
        0
    } else {
        max_i(col_max(img, c, x, y0, y1 - 1), channel(img.pix_at(x, y1 - 1), c) as int)
    }
}

/// Maximum of channel `c` over the rectangle `[x0, x1) x [y0, y1)`;
/// 0 when the rectangle is empty.
pub open spec fn rect_max(img: &PixelBuffer, c: int, x0: int, x1: int, y0: int, y1: int) -> int
    decreases x1 - x0,
{
    if x1 <= x0 {
        0
    } else {
        max_i(rect_max(img, c, x0, x1 - 1, y0, y1), col_max(img, c, x1 - 1, y0, y1))
    }
}

/// Minimum of channel `c` over the column segment `{x} x [y0, y1)`;
/// 255 when the segment is empty.
pub open spec fn col_min(img: &PixelBuffer, c: int, x: int, y0: int, y1: int) -> int
    decreases y1 - y0,
{
    if y1 <= y0 {
        255
    } else {
        min_i(col_min(img, c, x, y0, y1 - 1), channel(img.pix_at(x, y1 - 1), c) as int)
    }
}

/// Minimum of channel `c` over the rectangle `[x0, x1) x [y0, y1)`;
/// 255 when the rectangle is empty.
pub open spec fn rect_min(img: &PixelBuffer, c: int, x0: int, x1: int, y0: int, y1: int) -> int
    decreases x1 - x0,
{
    if x1 <= x0 {
        255
    } else {
        min_i(rect_min(img, c, x0, x1 - 1, y0, y1), col_min(img, c, x1 - 1, y0, y1))
    }
}

/// A column sum lies between 0 and 255 per pixel.
pub proof fn lemma_col_sum_bounds(img: &PixelBuffer, c: int, x: int, y0: int, y1: int)
    requires
        y0 <= y1,
    ensures
        0 <= col_sum(img, c, x, y0, y1) <= 255 * (y1 - y0),
    decreases y1 - y0,
{
    if y1 > y0 {
        lemma_col_sum_bounds(img, c, x, y0, y1 - 1);
    }
}

/// A rectangle sum lies between 0 and 255 per pixel.
pub proof fn lemma_rect_sum_bounds(img: &PixelBuffer, c: int, x0: int, x1: int, y0: int, y1: int)
    requires
        x0 <= x1,
        y0 <= y1,
    ensures
        0 <= rect_sum(img, c, x0, x1, y0, y1) <= 255 * (x1 - x0) * (y1 - y0),
    decreases x1 - x0,
{
    if x1 > x0 {
        lemma_rect_sum_bounds(img, c, x0, x1 - 1, y0, y1);
        lemma_col_sum_bounds(img, c, x1 - 1, y0, y1);
        assert(255 * (x1 - 1 - x0) * (y1 - y0) + 255 * (y1 - y0) == 255 * (x1 - x0) * (y1 - y0))
            by (nonlinear_arith);
    } else {
        assert(255 * (x1 - x0) * (y1 - y0) == 0) by (nonlinear_arith)
            requires
                x1 == x0,
        ;
    }
}

/// Column sums are additive in the row range.
pub proof fn lemma_col_sum_split(img: &PixelBuffer, c: int, x: int, y0: int, ym: int, y1: int)
    requires
        y0 <= ym <= y1,
    ensures
        col_sum(img, c, x, y0, y1) == col_sum(img, c, x, y0, ym) + col_sum(img, c, x, ym, y1),
    decreases y1 - ym,
{
    if ym < y1 {
        lemma_col_sum_split(img, c, x, y0, ym, y1 - 1);
    }
}

/// Rectangle sums are additive in the column range.
pub proof fn lemma_rect_sum_split_x(
    img: &PixelBuffer,
    c: int,
    x0: int,
    xm: int,
    x1: int,
    y0: int,
    y1: int,
)
    requires
        x0 <= xm <= x1,
    ensures
        rect_sum(img, c, x0, x1, y0, y1) == rect_sum(img, c, x0, xm, y0, y1) + rect_sum(
            img,
            c,
            xm,
            x1,
            y0,
            y1,
        ),
    decreases x1 - xm,
{
    if xm < x1 {
        lemma_rect_sum_split_x(img, c, x0, xm, x1 - 1, y0, y1);
    }
}

/// Rectangle sums are additive in the row range.
pub proof fn lemma_rect_sum_split_y(
    img: &PixelBuffer,
    c: int,
    x0: int,
    x1: int,
    y0: int,
    ym: int,
    y1: int,
)
    requires
        x0 <= x1,
        y0 <= ym <= y1,
    ensures
        rect_sum(img, c, x0, x1, y0, y1) == rect_sum(img, c, x0, x1, y0, ym) + rect_sum(
            img,
            c,
            x0,
            x1,
            ym,
            y1,
        ),
    decreases x1 - x0,
{
    if x0 < x1 {
        lemma_rect_sum_split_y(img, c, x0, x1 - 1, y0, ym, y1);
        lemma_col_sum_split(img, c, x1 - 1, y0, ym, y1);
    }
}

/// A one-column rectangle sums to its column sum.
pub proof fn lemma_rect_sum_single_col(img: &PixelBuffer, c: int, x: int, y0: int, y1: int)
    ensures
        rect_sum(img, c, x, x + 1, y0, y1) == col_sum(img, c, x, y0, y1),
{
    assert(rect_sum(img, c, x, x, y0, y1) == 0);
}

/// Over a rectangle whose pixels all equal `p`, the channel sum is the
/// channel value times the pixel count.
pub proof fn lemma_rect_sum_uniform(
    img: &PixelBuffer,
    c: int,
    x0: int,
    x1: int,
    y0: int,
    y1: int,
    p: crate::pixel::Pixel,
)
    requires
        0 <= x0 <= x1 <= img.width,
        0 <= y0 <= y1 <= img.height,
        forall|x: int, y: int| 0 <= x < img.width && 0 <= y < img.height ==> img.pix_at(x, y) == p,
    ensures
        rect_sum(img, c, x0, x1, y0, y1) == (x1 - x0) * (y1 - y0) * channel(p, c),
    decreases x1 - x0,
{
    if x1 <= x0 {
        assert((x1 - x0) * (y1 - y0) * channel(p, c) == 0) by (nonlinear_arith)
            requires
                x1 == x0,
        ;
    } else {
        lemma_rect_sum_uniform(img, c, x0, x1 - 1, y0, y1, p);
        lemma_col_sum_uniform(img, c, x1 - 1, y0, y1, p);
        assert((x1 - 1 - x0) * (y1 - y0) * channel(p, c) + (y1 - y0) * channel(p, c) == (x1 - x0)
            * (y1 - y0) * channel(p, c)) by (nonlinear_arith);
    }
}

/// Over a column segment whose pixels all equal `p`, the channel sum is the
/// channel value times the segment length.
pub proof fn lemma_col_sum_uniform(
    img: &PixelBuffer,
    c: int,
    x: int,
    y0: int,
    y1: int,
    p: crate::pixel::Pixel,
)
    requires
        0 <= x < img.width,
        0 <= y0 <= y1 <= img.height,
        forall|xx: int, yy: int|
            0 <= xx < img.width && 0 <= yy < img.height ==> img.pix_at(xx, yy) == p,
    ensures
        col_sum(img, c, x, y0, y1) == (y1 - y0) * channel(p, c),
    decreases y1 - y0,
{
    if y1 <= y0 {
        assert((y1 - y0) * channel(p, c) == 0) by (nonlinear_arith)
            requires
                y1 == y0,
        ;
    } else {
        lemma_col_sum_uniform(img, c, x, y0, y1 - 1, p);
        assert(img.pix_at(x, y1 - 1) == p);
        assert((y1 - 1 - y0) * channel(p, c) + channel(p, c) == (y1 - y0) * channel(p, c))
            by (nonlinear_arith);
    }
}

/// Channel maxima over columns stay in the channel range once the segment
/// is nonempty; over an empty segment the maximum is the neutral 0.
pub proof fn lemma_col_max_bounds(img: &PixelBuffer, c: int, x: int, y0: int, y1: int)
    ensures
        0 <= col_max(img, c, x, y0, y1) <= 255,
    decreases y1 - y0,
{
    if y1 > y0 {
        lemma_col_max_bounds(img, c, x, y0, y1 - 1);
    }
}

/// Channel maxima over rectangles stay in the channel range.
pub proof fn lemma_rect_max_bounds(img: &PixelBuffer, c: int, x0: int, x1: int, y0: int, y1: int)
    ensures
        0 <= rect_max(img, c, x0, x1, y0, y1) <= 255,
    decreases x1 - x0,
{
    if x1 > x0 {
        lemma_rect_max_bounds(img, c, x0, x1 - 1, y0, y1);
        lemma_col_max_bounds(img, c, x1 - 1, y0, y1);
    }
}

/// Channel minima over columns stay in the channel range.
pub proof fn lemma_col_min_bounds(img: &PixelBuffer, c: int, x: int, y0: int, y1: int)
    ensures
        0 <= col_min(img, c, x, y0, y1) <= 255,
    decreases y1 - y0,
{
    if y1 > y0 {
        lemma_col_min_bounds(img, c, x, y0, y1 - 1);
    }
}

/// Channel minima over rectangles stay in the channel range.
pub proof fn lemma_rect_min_bounds(img: &PixelBuffer, c: int, x0: int, x1: int, y0: int, y1: int)
    ensures
        0 <= rect_min(img, c, x0, x1, y0, y1) <= 255,
    decreases x1 - x0,
{
    if x1 > x0 {
        lemma_rect_min_bounds(img, c, x0, x1 - 1, y0, y1);
        lemma_col_min_bounds(img, c, x1 - 1, y0, y1);
    }
}


/// An empty rectangle sums to 0.
pub proof fn lemma_rect_sum_empty(img: &PixelBuffer, c: int, x0: int, x1: int, y0: int, y1: int)
    requires
        x0 == x1 || y0 == y1,
    ensures
        rect_sum(img, c, x0, x1, y0, y1) == 0,
    decreases x1 - x0,
{
    if x0 < x1 {
        lemma_rect_sum_empty(img, c, x0, x1 - 1, y0, y1);
    }
}

/// The channel maximum over an empty rectangle is the neutral 0.
pub proof fn lemma_rect_max_empty(img: &PixelBuffer, c: int, x0: int, x1: int, y0: int, y1: int)
    requires
        x0 == x1 || y0 == y1,
    ensures
        rect_max(img, c, x0, x1, y0, y1) == 0,
    decreases x1 - x0,
{
    if x0 < x1 {
        lemma_rect_max_empty(img, c, x0, x1 - 1, y0, y1);
    }
}

/// The channel minimum over an empty rectangle is the neutral 255.
pub proof fn lemma_rect_min_empty(img: &PixelBuffer, c: int, x0: int, x1: int, y0: int, y1: int)
    requires
        x0 == x1 || y0 == y1,
    ensures
        rect_min(img, c, x0, x1, y0, y1) == 255,
    decreases x1 - x0,
{
    if x0 < x1 {
        lemma_rect_min_empty(img, c, x0, x1 - 1, y0, y1);
    }
}

/// A one-column rectangle's channel maximum is its column maximum.
pub proof fn lemma_rect_max_single_col(img: &PixelBuffer, c: int, x: int, y0: int, y1: int)
    ensures
        rect_max(img, c, x, x + 1, y0, y1) == col_max(img, c, x, y0, y1),
{
    lemma_col_max_bounds(img, c, x, y0, y1);
    assert(rect_max(img, c, x, x, y0, y1) == 0);
}

/// A one-column rectangle's channel minimum is its column minimum.
pub proof fn lemma_rect_min_single_col(img: &PixelBuffer, c: int, x: int, y0: int, y1: int)
    ensures
        rect_min(img, c, x, x + 1, y0, y1) == col_min(img, c, x, y0, y1),
{
    lemma_col_min_bounds(img, c, x, y0, y1);
    assert(rect_min(img, c, x, x, y0, y1) == 255);
}

/// Channel sums over rectangles of a well-formed raster fit the canonical
/// 64-bit accumulator: they never exceed `255 * width * height`, which is
/// at most `u64::MAX`.
pub proof fn lemma_rect_sum_fits(img: &PixelBuffer, c: int, x0: int, x1: int, y0: int, y1: int)
    requires
        img.wf(),
        0 <= x0 <= x1 <= img.width,
        0 <= y0 <= y1 <= img.height,
    ensures
        0 <= rect_sum(img, c, x0, x1, y0, y1) <= u64::MAX,
{
    lemma_rect_sum_bounds(img, c, x0, x1, y0, y1);
    assert(255 * (x1 - x0) * (y1 - y0) <= 255 * (img.width as int * img.height as int))
        by (nonlinear_arith)
        requires
            0 <= x1 - x0 <= img.width as int,
            0 <= y1 - y0 <= img.height as int,
    ;
}


/// Every channel value in a column segment is at most the segment maximum.
pub proof fn lemma_col_max_ge_elem(img: &PixelBuffer, c: int, x: int, y0: int, y1: int, j: int)
    requires
        y0 <= j < y1,
    ensures
        channel(img.pix_at(x, j), c) as int <= col_max(img, c, x, y0, y1),
    decreases y1 - y0,
{
    if j < y1 - 1 {
        lemma_col_max_ge_elem(img, c, x, y0, y1 - 1, j);
    }
}

/// Every channel value in a rectangle is at most the rectangle maximum.
pub proof fn lemma_rect_max_ge_elem(
    img: &PixelBuffer,
    c: int,
    x0: int,
    x1: int,
    y0: int,
    y1: int,
    i: int,
    j: int,
)
    requires
        x0 <= i < x1,
        y0 <= j < y1,
    ensures
        channel(img.pix_at(i, j), c) as int <= rect_max(img, c, x0, x1, y0, y1),
    decreases x1 - x0,
{
    if i == x1 - 1 {
        lemma_col_max_ge_elem(img, c, i, y0, y1, j);
    } else {
        lemma_rect_max_ge_elem(img, c, x0, x1 - 1, y0, y1, i, j);
    }
}

/// A nonempty column segment attains its maximum at some row.
pub proof fn lemma_col_max_attained(img: &PixelBuffer, c: int, x: int, y0: int, y1: int)
    requires
        y0 < y1,
    ensures
        exists|j: int|
            y0 <= j < y1 && col_max(img, c, x, y0, y1) == #[trigger] channel(img.pix_at(x, j), c),
    decreases y1 - y0,
{
    if y1 - 1 == y0 {
        assert(col_max(img, c, x, y0, y0) == 0);
        assert(col_max(img, c, x, y0, y1) == channel(img.pix_at(x, y0), c));
    } else {
        lemma_col_max_attained(img, c, x, y0, y1 - 1);
        if col_max(img, c, x, y0, y1 - 1) < channel(img.pix_at(x, y1 - 1), c) as int {
            assert(col_max(img, c, x, y0, y1) == channel(img.pix_at(x, y1 - 1), c));
        } else {
            let j0 = choose|j: int|
                y0 <= j < y1 - 1 && col_max(img, c, x, y0, y1 - 1) == #[trigger] channel(
                    img.pix_at(x, j),
                    c,
                );
            assert(col_max(img, c, x, y0, y1) == channel(img.pix_at(x, j0), c));
        }
    }
}

/// A nonempty rectangle attains its channel maximum at some pixel.
pub proof fn lemma_rect_max_attained(img: &PixelBuffer, c: int, x0: int, x1: int, y0: int, y1: int)
    requires
        x0 < x1,
        y0 < y1,
    ensures
        exists|i: int, j: int|
            x0 <= i < x1 && y0 <= j < y1 && rect_max(img, c, x0, x1, y0, y1) == #[trigger] channel(
                img.pix_at(i, j),
                c,
            ),
    decreases x1 - x0,
{
    lemma_col_max_attained(img, c, x1 - 1, y0, y1);
    let jc = choose|j: int|
        y0 <= j < y1 && col_max(img, c, x1 - 1, y0, y1) == #[trigger] channel(
            img.pix_at(x1 - 1, j),
            c,
        );
    if x1 - 1 == x0 {
        lemma_col_max_bounds(img, c, x1 - 1, y0, y1);
        assert(rect_max(img, c, x0, x0, y0, y1) == 0);
        assert(rect_max(img, c, x0, x1, y0, y1) == channel(img.pix_at(x1 - 1, jc), c));
    } else {
        lemma_rect_max_attained(img, c, x0, x1 - 1, y0, y1);
        if rect_max(img, c, x0, x1 - 1, y0, y1) < col_max(img, c, x1 - 1, y0, y1) {
            assert(rect_max(img, c, x0, x1, y0, y1) == channel(img.pix_at(x1 - 1, jc), c));
        } else {
            let (i0, j0) = choose|i: int, j: int|
                x0 <= i < x1 - 1 && y0 <= j < y1 && rect_max(img, c, x0, x1 - 1, y0, y1) == #[trigger] channel(
                    img.pix_at(i, j),
                    c,
                );
            assert(rect_max(img, c, x0, x1, y0, y1) == channel(img.pix_at(i0, j0), c));
        }
    }
}

/// A nested rectangle's channel maximum never exceeds the outer one's.
pub proof fn lemma_rect_max_monotone(
    img: &PixelBuffer,
    c: int,
    x0: int,
    x1: int,
    y0: int,
    y1: int,
    ox0: int,
    ox1: int,
    oy0: int,
    oy1: int,
)
    requires
        ox0 <= x0 < x1 <= ox1,
        oy0 <= y0 < y1 <= oy1,
    ensures
        rect_max(img, c, x0, x1, y0, y1) <= rect_max(img, c, ox0, ox1, oy0, oy1),
{
    lemma_rect_max_attained(img, c, x0, x1, y0, y1);
    let (i0, j0) = choose|i: int, j: int|
        x0 <= i < x1 && y0 <= j < y1 && rect_max(img, c, x0, x1, y0, y1) == #[trigger] channel(
            img.pix_at(i, j),
            c,
        );
    lemma_rect_max_ge_elem(img, c, ox0, ox1, oy0, oy1, i0, j0);
}

/// Every channel value in a column segment is at least the segment minimum.
pub proof fn lemma_col_min_le_elem(img: &PixelBuffer, c: int, x: int, y0: int, y1: int, j: int)
    requires
        y0 <= j < y1,
    ensures
        col_min(img, c, x, y0, y1) <= channel(img.pix_at(x, j), c) as int,
    decreases y1 - y0,
{
    if j < y1 - 1 {
        lemma_col_min_le_elem(img, c, x, y0, y1 - 1, j);
    }
}

/// Every channel value in a rectangle is at least the rectangle minimum.
pub proof fn lemma_rect_min_le_elem(
    img: &PixelBuffer,
    c: int,
    x0: int,
    x1: int,
    y0: int,
    y1: int,
    i: int,
    j: int,
)
    requires
        x0 <= i < x1,
        y0 <= j < y1,
    ensures
        rect_min(img, c, x0, x1, y0, y1) <= channel(img.pix_at(i, j), c) as int,
    decreases x1 - x0,
{
    if i == x1 - 1 {
        lemma_col_min_le_elem(img, c, i, y0, y1, j);
    } else {
        lemma_rect_min_le_elem(img, c, x0, x1 - 1, y0, y1, i, j);
    }
}

/// A nonempty column segment attains its minimum at some row.
pub proof fn lemma_col_min_attained(img: &PixelBuffer, c: int, x: int, y0: int, y1: int)
    requires
        y0 < y1,
    ensures
        exists|j: int|
            y0 <= j < y1 && col_min(img, c, x, y0, y1) == #[trigger] channel(img.pix_at(x, j), c),
    decreases y1 - y0,
{
    if y1 - 1 == y0 {
        assert(col_min(img, c, x, y0, y0) == 255);
        assert(col_min(img, c, x, y0, y1) == channel(img.pix_at(x, y0), c));
    } else {
        lemma_col_min_attained(img, c, x, y0, y1 - 1);
        if (channel(img.pix_at(x, y1 - 1), c) as int) < col_min(img, c, x, y0, y1 - 1) {
            assert(col_min(img, c, x, y0, y1) == channel(img.pix_at(x, y1 - 1), c));
        } else {
            let j0 = choose|j: int|
                y0 <= j < y1 - 1 && col_min(img, c, x, y0, y1 - 1) == #[trigger] channel(
                    img.pix_at(x, j),
                    c,
                );
            assert(col_min(img, c, x, y0, y1) == channel(img.pix_at(x, j0), c));
        }
    }
}

/// A nonempty rectangle attains its channel minimum at some pixel.
pub proof fn lemma_rect_min_attained(img: &PixelBuffer, c: int, x0: int, x1: int, y0: int, y1: int)
    requires
        x0 < x1,
        y0 < y1,
    ensures
        exists|i: int, j: int|
            x0 <= i < x1 && y0 <= j < y1 && rect_min(img, c, x0, x1, y0, y1) == #[trigger] channel(
                img.pix_at(i, j),
                c,
            ),
    decreases x1 - x0,
{
    lemma_col_min_attained(img, c, x1 - 1, y0, y1);
    let jc = choose|j: int|
        y0 <= j < y1 && col_min(img, c, x1 - 1, y0, y1) == #[trigger] channel(
            img.pix_at(x1 - 1, j),
            c,
        );
    if x1 - 1 == x0 {
        lemma_col_min_bounds(img, c, x1 - 1, y0, y1);
        assert(rect_min(img, c, x0, x0, y0, y1) == 255);
        assert(rect_min(img, c, x0, x1, y0, y1) == channel(img.pix_at(x1 - 1, jc), c));
    } else {
        lemma_rect_min_attained(img, c, x0, x1 - 1, y0, y1);
        if col_min(img, c, x1 - 1, y0, y1) < rect_min(img, c, x0, x1 - 1, y0, y1) {
            assert(rect_min(img, c, x0, x1, y0, y1) == channel(img.pix_at(x1 - 1, jc), c));
        } else {
            let (i0, j0) = choose|i: int, j: int|
                x0 <= i < x1 - 1 && y0 <= j < y1 && rect_min(img, c, x0, x1 - 1, y0, y1) == #[trigger] channel(
                    img.pix_at(i, j),
                    c,
                );
            assert(rect_min(img, c, x0, x1, y0, y1) == channel(img.pix_at(i0, j0), c));
        }
    }
}

/// A nested rectangle's channel minimum never falls below the outer one's.
pub proof fn lemma_rect_min_monotone(
    img: &PixelBuffer,
    c: int,
    x0: int,
    x1: int,
    y0: int,
    y1: int,
    ox0: int,
    ox1: int,
    oy0: int,
    oy1: int,
)
    requires
        ox0 <= x0 < x1 <= ox1,
        oy0 <= y0 < y1 <= oy1,
    ensures
        rect_min(img, c, ox0, ox1, oy0, oy1) <= rect_min(img, c, x0, x1, y0, y1),
{
    lemma_rect_min_attained(img, c, x0, x1, y0, y1);
    let (i0, j0) = choose|i: int, j: int|
        x0 <= i < x1 && y0 <= j < y1 && rect_min(img, c, x0, x1, y0, y1) == #[trigger] channel(
            img.pix_at(i, j),
            c,
        );
    lemma_rect_min_le_elem(img, c, ox0, ox1, oy0, oy1, i0, j0);
}

} // verus!
