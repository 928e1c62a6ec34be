//! Laws the filters obey, stated over the same specification functions
//! their contracts use and proved once and for all.

use vstd::prelude::*;

use crate::blur::{blur_pix, mean_channel};
use crate::compare::compare_pix;
use crate::dilate::dilate_pix;
use crate::erode::erode_pix;
use crate::min_max::{
    lemma_win_max_excl_ge_elem, lemma_win_min_excl_le_elem, min_max_channel, win_max_excl,
    win_min_excl,
};
use crate::pixel::{channel, luma, Pixel};
use crate::pixel_buffer::PixelBuffer;
use crate::rect::{
    lemma_rect_max_bounds, lemma_rect_max_monotone, lemma_rect_min_bounds,
    lemma_rect_min_monotone, lemma_rect_sum_single_col, lemma_rect_sum_uniform, whi, wlo,
};

verus! {

/// Blur with radius 0 is the identity transform: each pixel's only
/// neighbour is itself, so the mean over the window is the pixel.
pub proof fn lemma_blur_zero_radius_identity(img: &PixelBuffer)
    requires
        img.wf(),
    ensures
        forall|x: int, y: int|
            0 <= x < img.width && 0 <= y < img.height ==> #[trigger] blur_pix(img, 0, x, y)
                == img.pix_at(x, y),
{
    assert forall|x: int, y: int| 0 <= x < img.width && 0 <= y < img.height implies #[trigger]
    blur_pix(img, 0, x, y) == img.pix_at(x, y) by {
        let p = img.pix_at(x, y);
        assert(wlo(x, 0) == x);
        assert(whi(x, 0, img.width as int) == x + 1);
        assert(wlo(y, 0) == y);
        assert(whi(y, 0, img.height as int) == y + 1);
        assert((x + 1 - x) * (y + 1 - y) == 1) by (nonlinear_arith);
        assert(crate::rect::col_sum(img, 0, x, y, y) == 0);
        assert(crate::rect::col_sum(img, 1, x, y, y) == 0);
        assert(crate::rect::col_sum(img, 2, x, y, y) == 0);
        assert(crate::rect::col_sum(img, 3, x, y, y) == 0);
        lemma_rect_sum_single_col(img, 0, x, y, y + 1);
        lemma_rect_sum_single_col(img, 1, x, y, y + 1);
        lemma_rect_sum_single_col(img, 2, x, y, y + 1);
        lemma_rect_sum_single_col(img, 3, x, y, y + 1);
        vstd::arithmetic::div_mod::lemma_div_basics(channel(img.pix_at(x, y), 0) as int);
        vstd::arithmetic::div_mod::lemma_div_basics(channel(img.pix_at(x, y), 1) as int);
        vstd::arithmetic::div_mod::lemma_div_basics(channel(img.pix_at(x, y), 2) as int);
        vstd::arithmetic::div_mod::lemma_div_basics(channel(img.pix_at(x, y), 3) as int);
        assert(crate::rect::rect_sum(img, 0, x, x + 1, y, y + 1) == channel(p, 0) as int);
        assert(crate::rect::rect_sum(img, 1, x, x + 1, y, y + 1) == channel(p, 1) as int);
        assert(crate::rect::rect_sum(img, 2, x, x + 1, y, y + 1) == channel(p, 2) as int);
        assert(crate::rect::rect_sum(img, 3, x, x + 1, y, y + 1) == channel(p, 3) as int);
        assert(mean_channel(img, 0, x, x + 1, y, y + 1) == channel(p, 0) as int);
        assert(mean_channel(img, 1, x, x + 1, y, y + 1) == channel(p, 1) as int);
        assert(mean_channel(img, 2, x, x + 1, y, y + 1) == channel(p, 2) as int);
        assert(mean_channel(img, 3, x, x + 1, y, y + 1) == channel(p, 3) as int);
    }
}

/// Dilation is monotonic non-decreasing in the radius: enlarging the
/// window can only raise (or keep) every output channel.
pub proof fn lemma_dilate_monotone_radius(img: &PixelBuffer, r1: u32, r2: u32)
    requires
        img.wf(),
        r1 <= r2,
    ensures
        forall|x: int, y: int|
            0 <= x < img.width && 0 <= y < img.height ==> {
                let small = #[trigger] dilate_pix(img, r1 as int, x, y);
                let large = dilate_pix(img, r2 as int, x, y);
                small.r <= large.r && small.g <= large.g && small.b <= large.b && small.a
                    <= large.a
            },
{
    let w = img.width as int;
    let h = img.height as int;
    assert forall|x: int, y: int| 0 <= x < img.width && 0 <= y < img.height implies {
        let small = #[trigger] dilate_pix(img, r1 as int, x, y);
        let large = dilate_pix(img, r2 as int, x, y);
        small.r <= large.r && small.g <= large.g && small.b <= large.b && small.a <= large.a
    } by {
        lemma_rect_max_monotone(
            img,
            0,
            wlo(x, r1 as int),
            whi(x, r1 as int, w),
            wlo(y, r1 as int),
            whi(y, r1 as int, h),
            wlo(x, r2 as int),
            whi(x, r2 as int, w),
            wlo(y, r2 as int),
            whi(y, r2 as int, h),
        );
        lemma_rect_max_monotone(
            img,
            1,
            wlo(x, r1 as int),
            whi(x, r1 as int, w),
            wlo(y, r1 as int),
            whi(y, r1 as int, h),
            wlo(x, r2 as int),
            whi(x, r2 as int, w),
            wlo(y, r2 as int),
            whi(y, r2 as int, h),
        );
        lemma_rect_max_monotone(
            img,
            2,
            wlo(x, r1 as int),
            whi(x, r1 as int, w),
            wlo(y, r1 as int),
            whi(y, r1 as int, h),
            wlo(x, r2 as int),
            whi(x, r2 as int, w),
            wlo(y, r2 as int),
            whi(y, r2 as int, h),
        );
        lemma_rect_max_monotone(
            img,
            3,
            wlo(x, r1 as int),
            whi(x, r1 as int, w),
            wlo(y, r1 as int),
            whi(y, r1 as int, h),
            wlo(x, r2 as int),
            whi(x, r2 as int, w),
            wlo(y, r2 as int),
            whi(y, r2 as int, h),
        );
        lemma_rect_max_bounds(img, 0, wlo(x, r1 as int), whi(x, r1 as int, w), wlo(y, r1 as int), whi(y, r1 as int, h));
        lemma_rect_max_bounds(img, 1, wlo(x, r1 as int), whi(x, r1 as int, w), wlo(y, r1 as int), whi(y, r1 as int, h));
        lemma_rect_max_bounds(img, 2, wlo(x, r1 as int), whi(x, r1 as int, w), wlo(y, r1 as int), whi(y, r1 as int, h));
        lemma_rect_max_bounds(img, 3, wlo(x, r1 as int), whi(x, r1 as int, w), wlo(y, r1 as int), whi(y, r1 as int, h));
        lemma_rect_max_bounds(img, 0, wlo(x, r2 as int), whi(x, r2 as int, w), wlo(y, r2 as int), whi(y, r2 as int, h));
        lemma_rect_max_bounds(img, 1, wlo(x, r2 as int), whi(x, r2 as int, w), wlo(y, r2 as int), whi(y, r2 as int, h));
        lemma_rect_max_bounds(img, 2, wlo(x, r2 as int), whi(x, r2 as int, w), wlo(y, r2 as int), whi(y, r2 as int, h));
        lemma_rect_max_bounds(img, 3, wlo(x, r2 as int), whi(x, r2 as int, w), wlo(y, r2 as int), whi(y, r2 as int, h));
    }
}

/// Erosion is monotonic non-increasing in the radius: enlarging the
/// window can only lower (or keep) every output channel.
pub proof fn lemma_erode_monotone_radius(img: &PixelBuffer, r1: u32, r2: u32)
    requires
        img.wf(),
        r1 <= r2,
    ensures
        forall|x: int, y: int|
            0 <= x < img.width && 0 <= y < img.height ==> {
                let small = #[trigger] erode_pix(img, r1 as int, x, y);
                let large = erode_pix(img, r2 as int, x, y);
                large.r <= small.r && large.g <= small.g && large.b <= small.b && large.a
                    <= small.a
            },
{
    let w = img.width as int;
    let h = img.height as int;
    assert forall|x: int, y: int| 0 <= x < img.width && 0 <= y < img.height implies {
        let small = #[trigger] erode_pix(img, r1 as int, x, y);
        let large = erode_pix(img, r2 as int, x, y);
        large.r <= small.r && large.g <= small.g && large.b <= small.b && large.a <= small.a
    } by {
        lemma_rect_min_monotone(
            img,
            0,
            wlo(x, r1 as int),
            whi(x, r1 as int, w),
            wlo(y, r1 as int),
            whi(y, r1 as int, h),
            wlo(x, r2 as int),
            whi(x, r2 as int, w),
            wlo(y, r2 as int),
            whi(y, r2 as int, h),
        );
        lemma_rect_min_monotone(
            img,
            1,
            wlo(x, r1 as int),
            whi(x, r1 as int, w),
            wlo(y, r1 as int),
            whi(y, r1 as int, h),
            wlo(x, r2 as int),
            whi(x, r2 as int, w),
            wlo(y, r2 as int),
            whi(y, r2 as int, h),
        );
        lemma_rect_min_monotone(
            img,
            2,
            wlo(x, r1 as int),
            whi(x, r1 as int, w),
            wlo(y, r1 as int),
            whi(y, r1 as int, h),
            wlo(x, r2 as int),
            whi(x, r2 as int, w),
            wlo(y, r2 as int),
            whi(y, r2 as int, h),
        );
        lemma_rect_min_monotone(
            img,
            3,
            wlo(x, r1 as int),
            whi(x, r1 as int, w),
            wlo(y, r1 as int),
            whi(y, r1 as int, h),
            wlo(x, r2 as int),
            whi(x, r2 as int, w),
            wlo(y, r2 as int),
            whi(y, r2 as int, h),
        );
        lemma_rect_min_bounds(img, 0, wlo(x, r1 as int), whi(x, r1 as int, w), wlo(y, r1 as int), whi(y, r1 as int, h));
        lemma_rect_min_bounds(img, 1, wlo(x, r1 as int), whi(x, r1 as int, w), wlo(y, r1 as int), whi(y, r1 as int, h));
        lemma_rect_min_bounds(img, 2, wlo(x, r1 as int), whi(x, r1 as int, w), wlo(y, r1 as int), whi(y, r1 as int, h));
        lemma_rect_min_bounds(img, 3, wlo(x, r1 as int), whi(x, r1 as int, w), wlo(y, r1 as int), whi(y, r1 as int, h));
        lemma_rect_min_bounds(img, 0, wlo(x, r2 as int), whi(x, r2 as int, w), wlo(y, r2 as int), whi(y, r2 as int, h));
        lemma_rect_min_bounds(img, 1, wlo(x, r2 as int), whi(x, r2 as int, w), wlo(y, r2 as int), whi(y, r2 as int, h));
        lemma_rect_min_bounds(img, 2, wlo(x, r2 as int), whi(x, r2 as int, w), wlo(y, r2 as int), whi(y, r2 as int, h));
        lemma_rect_min_bounds(img, 3, wlo(x, r2 as int), whi(x, r2 as int, w), wlo(y, r2 as int), whi(y, r2 as int, h));
    }
}

/// Min-max clamping never moves a channel outside the `[min, max]` range
/// of its self-excluded neighborhood, and leaves values already inside
/// that range unchanged. Stated for pixels whose self-excluded
/// neighborhood is nonempty; when nothing is scanned — radius 0, or a
/// one-pixel raster — the range is empty and the filter is the identity
/// by its contract.
pub proof fn lemma_min_max_within_neighborhood(img: &PixelBuffer, radius: u32, x: int, y: int)
    requires
        img.wf(),
        0 <= x < img.width,
        0 <= y < img.height,
        (whi(x, radius as int, img.width as int) - wlo(x, radius as int)) * (whi(
            y,
            radius as int,
            img.height as int,
        ) - wlo(y, radius as int)) > 1,
    ensures
        forall|c: int|
            0 <= c < 4 ==> {
                let x0 = wlo(x, radius as int);
                let x1 = whi(x, radius as int, img.width as int);
                let y0 = wlo(y, radius as int);
                let y1 = whi(y, radius as int, img.height as int);
                let mn = win_min_excl(img, c, x0, x1, y0, y1, x, y);
                let mx = win_max_excl(img, c, x0, x1, y0, y1, x, y);
                let v = channel(img.pix_at(x, y), c) as int;
                &&& mn <= #[trigger] min_max_channel(img, c, radius as int, x, y) <= mx
                &&& (mn <= v <= mx ==> min_max_channel(img, c, radius as int, x, y) == v)
            },
{
    let x0 = wlo(x, radius as int);
    let x1 = whi(x, radius as int, img.width as int);
    let y0 = wlo(y, radius as int);
    let y1 = whi(y, radius as int, img.height as int);
    // Pick one scanned neighbour: some window pixel other than the center.
    let (i, j): (int, int) = if x0 < x {
        (x0, y)
    } else if x + 1 < x1 {
        (x + 1, y)
    } else if y0 < y {
        (x, y0)
    } else {
        (x, y + 1)
    };
    assert(x0 <= i < x1 && y0 <= j < y1 && !(i == x && j == y)) by {
        if x0 == x && x + 1 >= x1 {
            assert(x1 - x0 == 1);
            assert((x1 - x0) * (y1 - y0) == y1 - y0) by (nonlinear_arith)
                requires
                    x1 - x0 == 1,
            ;
        }
    }
    assert(!(x1 - x0 == 1 && y1 - y0 == 1)) by {
        if x1 - x0 == 1 && y1 - y0 == 1 {
            assert((x1 - x0) * (y1 - y0) == 1) by (nonlinear_arith)
                requires
                    x1 - x0 == 1,
                    y1 - y0 == 1,
            ;
        }
    }
    assert forall|c: int| 0 <= c < 4 implies {
        let mn = win_min_excl(img, c, x0, x1, y0, y1, x, y);
        let mx = win_max_excl(img, c, x0, x1, y0, y1, x, y);
        let v = channel(img.pix_at(x, y), c) as int;
        &&& mn <= #[trigger] min_max_channel(img, c, radius as int, x, y) <= mx
        &&& (mn <= v <= mx ==> min_max_channel(img, c, radius as int, x, y) == v)
    } by {
        lemma_win_min_excl_le_elem(img, c, x0, x1, y0, y1, x, y, i, j);
        lemma_win_max_excl_ge_elem(img, c, x0, x1, y0, y1, x, y, i, j);
    }
}

/// Comparing a raster against itself marks every pixel as equal: the
/// output is opaque black everywhere.
pub proof fn lemma_compare_identical(img: &PixelBuffer)
    ensures
        forall|x: int, y: int|
            0 <= x < img.width && 0 <= y < img.height ==> #[trigger] compare_pix(img, img, x, y)
                == (Pixel { r: 0, g: 0, b: 0, a: 255 }),
{
}

/// Adaptive threshold with bias 0 blacks out a uniform raster completely:
/// every window mean equals the pixel itself, so no pixel's brightness
/// strictly exceeds its threshold.
pub proof fn lemma_adaptive_threshold_uniform(img: &PixelBuffer, radius: u32, p: Pixel)
    requires
        img.wf(),
        forall|x: int, y: int|
            0 <= x < img.width && 0 <= y < img.height ==> img.pix_at(x, y) == p,
    ensures
        forall|x: int, y: int|
            0 <= x < img.width && 0 <= y < img.height ==> #[trigger] crate::adaptive_threshold::adaptive_threshold_pix(
                img,
                radius as int,
                0,
                x,
                y,
            ) == (Pixel { r: 0, g: 0, b: 0, a: 255 }),
{
    let w = img.width as int;
    let h = img.height as int;
    assert forall|x: int, y: int| 0 <= x < img.width && 0 <= y < img.height implies #[trigger]
    crate::adaptive_threshold::adaptive_threshold_pix(img, radius as int, 0, x, y) == (Pixel {
        r: 0,
        g: 0,
        b: 0,
        a: 255,
    }) by {
        let x0 = wlo(x, radius as int);
        let x1 = whi(x, radius as int, w);
        let y0 = wlo(y, radius as int);
        let y1 = whi(y, radius as int, h);
        let n = (x1 - x0) * (y1 - y0);
        assert(n >= 1) by (nonlinear_arith)
            requires
                n == (x1 - x0) * (y1 - y0),
                x1 - x0 >= 1,
                y1 - y0 >= 1,
        ;
        lemma_rect_sum_uniform(img, 0, x0, x1, y0, y1, p);
        lemma_rect_sum_uniform(img, 1, x0, x1, y0, y1, p);
        lemma_rect_sum_uniform(img, 2, x0, x1, y0, y1, p);
        vstd::arithmetic::div_mod::lemma_div_multiples_vanish(channel(p, 0) as int, n);
        vstd::arithmetic::div_mod::lemma_div_multiples_vanish(channel(p, 1) as int, n);
        vstd::arithmetic::div_mod::lemma_div_multiples_vanish(channel(p, 2) as int, n);
        assert(n * (channel(p, 0) as int) == (x1 - x0) * (y1 - y0) * (channel(p, 0) as int))
            by (nonlinear_arith)
            requires
                n == (x1 - x0) * (y1 - y0),
        ;
        assert(n * (channel(p, 1) as int) == (x1 - x0) * (y1 - y0) * (channel(p, 1) as int))
            by (nonlinear_arith)
            requires
                n == (x1 - x0) * (y1 - y0),
        ;
        assert(n * (channel(p, 2) as int) == (x1 - x0) * (y1 - y0) * (channel(p, 2) as int))
            by (nonlinear_arith)
            requires
                n == (x1 - x0) * (y1 - y0),
        ;
        assert(mean_channel(img, 0, x0, x1, y0, y1) == channel(p, 0) as int);
        assert(mean_channel(img, 1, x0, x1, y0, y1) == channel(p, 1) as int);
        assert(mean_channel(img, 2, x0, x1, y0, y1) == channel(p, 2) as int);
        assert(!(luma(img.pix_at(x, y)) > crate::adaptive_threshold::threshold_at(
            img,
            radius as int,
            0,
            x,
            y,
        )));
    }
}

} // verus!
