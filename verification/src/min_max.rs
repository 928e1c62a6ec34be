//! Min-max clamping: each channel is clamped into the range spanned by its
//! neighborhood, the center pixel itself excluded from the scan. A pixel
//! whose self-excluded neighborhood is empty — radius 0, or a one-pixel
//! raster — has nothing to be clamped against and passes unchanged.

use vstd::prelude::*;

use crate::pixel::{channel, max, min, Pixel};
use crate::pixel_buffer::{lemma_grid, lemma_grid_push, lemma_row_major_bounds, PixelBuffer};
use crate::rect::{max_i, min_i, whi, wlo};

verus! {

/// Minimum of channel `c` over the row segment `[x0, x1) x {y}`, skipping
/// the center `(cx, cy)`; 255 when nothing is scanned.
pub open spec fn row_min_excl(
    img: &PixelBuffer,
    c: int,
    y: int,
    x0: int,
    x1: int,
    cx: int,
    cy: int,
) -> int
    decreases x1 - x0,
{
    if x1 <= x0 {
        255
    } else {
        let rest = row_min_excl(img, c, y, x0, x1 - 1, cx, cy);
        if x1 - 1 == cx && y == cy {
            rest
        } else {
            min_i(rest, channel(img.pix_at(x1 - 1, y), c) as int)
        }
    }
}

/// Maximum of channel `c` over the row segment `[x0, x1) x {y}`, skipping
/// the center `(cx, cy)`; 0 when nothing is scanned.
pub open spec fn row_max_excl(
    img: &PixelBuffer,
    c: int,
    y: int,
    x0: int,
    x1: int,
    cx: int,
    cy: int,
) -> int
    decreases x1 - x0,
{
    if x1 <= x0 {
        0
    } else {
        let rest = row_max_excl(img, c, y, x0, x1 - 1, cx, cy);
        if x1 - 1 == cx && y == cy {
            rest
        } else {
            max_i(rest, channel(img.pix_at(x1 - 1, y), c) as int)
        }
    }
}

/// Minimum of channel `c` over `[x0, x1) x [y0, y1)` minus the center
/// `(cx, cy)`, scanned row by row.
pub open spec fn win_min_excl(
    img: &PixelBuffer,
    c: int,
    x0: int,
    x1: int,
    y0: int,
    y1: int,
    cx: int,
    cy: int,
) -> int
    decreases y1 - y0,
{
    if y1 <= y0 {
        255
    } else {
        min_i(
            win_min_excl(img, c, x0, x1, y0, y1 - 1, cx, cy),
            row_min_excl(img, c, y1 - 1, x0, x1, cx, cy),
        )
    }
}

/// Maximum of channel `c` over `[x0, x1) x [y0, y1)` minus the center
/// `(cx, cy)`, scanned row by row.
pub open spec fn win_max_excl(
    img: &PixelBuffer,
    c: int,
    x0: int,
    x1: int,
    y0: int,
    y1: int,
    cx: int,
    cy: int,
) -> int
    decreases y1 - y0,
{
    if y1 <= y0 {
        0
    } else {
        max_i(
            win_max_excl(img, c, x0, x1, y0, y1 - 1, cx, cy),
            row_max_excl(img, c, y1 - 1, x0, x1, cx, cy),
        )
    }
}

/// One clamped output channel: a value below the neighborhood minimum is
/// pulled up to it; one not below the maximum is pulled down; values in
/// between pass unchanged. When the window holds only the center — so the
/// self-excluded scan is empty — the value passes through unchanged.
pub open spec fn min_max_channel(img: &PixelBuffer, c: int, radius: int, x: int, y: int) -> int {
    let x0 = wlo(x, radius);
    let x1 = whi(x, radius, img.width as int);
    let y0 = wlo(y, radius);
    let y1 = whi(y, radius, img.height as int);
    let mn = win_min_excl(img, c, x0, x1, y0, y1, x, y);
    let mx = win_max_excl(img, c, x0, x1, y0, y1, x, y);
    let v = channel(img.pix_at(x, y), c) as int;
    if x1 - x0 == 1 && y1 - y0 == 1 {
        v
    } else if v < mn {
        mn
    } else if v < mx {
        v
    } else {
        mx
    }
}

/// The min-max-clamped pixel at `(x, y)`.
pub open spec fn min_max_pix(img: &PixelBuffer, radius: int, x: int, y: int) -> Pixel {
    Pixel {
        r: min_max_channel(img, 0, radius, x, y) as u8,
        g: min_max_channel(img, 1, radius, x, y) as u8,
        b: min_max_channel(img, 2, radius, x, y) as u8,
        a: min_max_channel(img, 3, radius, x, y) as u8,
    }
}

/// Min-max clamping with the given radius: per channel, each pixel is
/// clamped into the `[min, max]` range of its clamped neighborhood with the
/// center pixel itself excluded; a pixel whose self-excluded neighborhood
/// is empty is left unchanged.
#[verifier::rlimit(60)]
pub fn min_max(img: &PixelBuffer, radius: u32) -> (out: PixelBuffer)
    requires
        img.wf(),
    ensures
        out.wf(),
        out.width == img.width,
        out.height == img.height,
        forall|x: int, y: int|
            0 <= x < img.width && 0 <= y < img.height ==> out.pix_at(x, y) == min_max_pix(
                img,
                radius as int,
                x,
                y,
            ),
{
    let w = img.width;
    let h = img.height;
    let mut data: Vec<Pixel> = Vec::new();
    proof {
        assert(0 * (w as int) == 0) by (nonlinear_arith);
    }
    for y in 0..h
        invariant
            img.wf(),
            w == img.width,
            h == img.height,
            data.len() == y * (w as int),
            forall|k: int|
                0 <= k < data.len() ==> #[trigger] data@[k] == min_max_pix(
                    img,
                    radius as int,
                    k % (w as int),
                    k / (w as int),
                ),
    {
        for x in 0..w
            invariant
                img.wf(),
                w == img.width,
                h == img.height,
                y < h,
                data.len() == y * (w as int) + x,
                forall|k: int|
                    0 <= k < data.len() ==> #[trigger] data@[k] == min_max_pix(
                        img,
                        radius as int,
                        k % (w as int),
                        k / (w as int),
                    ),
        {
            let x0: u32 = if x > radius {
                x - radius
            } else {
                0
            };
            let xb: u64 = x as u64 + radius as u64 + 1;
            let x1: u32 = if xb >= w as u64 {
                w
            } else {
                xb as u32
            };
            let y0: u32 = if y > radius {
                y - radius
            } else {
                0
            };
            let yb: u64 = y as u64 + radius as u64 + 1;
            let y1: u32 = if yb >= h as u64 {
                h
            } else {
                yb as u32
            };
            assert(x0 as int == wlo(x as int, radius as int));
            assert(x1 as int == whi(x as int, radius as int, w as int));
            assert(y0 as int == wlo(y as int, radius as int));
            assert(y1 as int == whi(y as int, radius as int, h as int));
            let mut mn = Pixel { r: 255, g: 255, b: 255, a: 255 };
            let mut mx = Pixel { r: 0, g: 0, b: 0, a: 0 };
            let mut yy: u32 = y0;
            while yy < y1
                invariant
                    img.wf(),
                    w == img.width,
                    h == img.height,
                    x < w,
                    y < h,
                    x0 <= x < x1 <= w,
                    y0 <= yy <= y1 <= h,
                    mn.r == win_min_excl(
                        img,
                        0,
                        x0 as int,
                        x1 as int,
                        y0 as int,
                        yy as int,
                        x as int,
                        y as int,
                    ),
                    mn.g == win_min_excl(
                        img,
                        1,
                        x0 as int,
                        x1 as int,
                        y0 as int,
                        yy as int,
                        x as int,
                        y as int,
                    ),
                    mn.b == win_min_excl(
                        img,
                        2,
                        x0 as int,
                        x1 as int,
                        y0 as int,
                        yy as int,
                        x as int,
                        y as int,
                    ),
                    mn.a == win_min_excl(
                        img,
                        3,
                        x0 as int,
                        x1 as int,
                        y0 as int,
                        yy as int,
                        x as int,
                        y as int,
                    ),
                    mx.r == win_max_excl(
                        img,
                        0,
                        x0 as int,
                        x1 as int,
                        y0 as int,
                        yy as int,
                        x as int,
                        y as int,
                    ),
                    mx.g == win_max_excl(
                        img,
                        1,
                        x0 as int,
                        x1 as int,
                        y0 as int,
                        yy as int,
                        x as int,
                        y as int,
                    ),
                    mx.b == win_max_excl(
                        img,
                        2,
                        x0 as int,
                        x1 as int,
                        y0 as int,
                        yy as int,
                        x as int,
                        y as int,
                    ),
                    mx.a == win_max_excl(
                        img,
                        3,
                        x0 as int,
                        x1 as int,
                        y0 as int,
                        yy as int,
                        x as int,
                        y as int,
                    ),
                decreases y1 - yy,
            {
                proof {
                    lemma_win_min_excl_bounds(img, 0, x0 as int, x1 as int, y0 as int, yy as int, x as int, y as int);
                    lemma_win_min_excl_bounds(img, 1, x0 as int, x1 as int, y0 as int, yy as int, x as int, y as int);
                    lemma_win_min_excl_bounds(img, 2, x0 as int, x1 as int, y0 as int, yy as int, x as int, y as int);
                    lemma_win_min_excl_bounds(img, 3, x0 as int, x1 as int, y0 as int, yy as int, x as int, y as int);
                    lemma_win_max_excl_bounds(img, 0, x0 as int, x1 as int, y0 as int, yy as int, x as int, y as int);
                    lemma_win_max_excl_bounds(img, 1, x0 as int, x1 as int, y0 as int, yy as int, x as int, y as int);
                    lemma_win_max_excl_bounds(img, 2, x0 as int, x1 as int, y0 as int, yy as int, x as int, y as int);
                    lemma_win_max_excl_bounds(img, 3, x0 as int, x1 as int, y0 as int, yy as int, x as int, y as int);
                }
                let mut xx: u32 = x0;
                while xx < x1
                    invariant
                        img.wf(),
                        w == img.width,
                        h == img.height,
                        x < w,
                        y < h,
                        x0 <= x < x1 <= w,
                        y0 <= yy < y1 <= h,
                        x0 <= xx <= x1,
                        mn.r == min_i(
                            win_min_excl(
                                img,
                                0,
                                x0 as int,
                                x1 as int,
                                y0 as int,
                                yy as int,
                                x as int,
                                y as int,
                            ),
                            row_min_excl(
                                img,
                                0,
                                yy as int,
                                x0 as int,
                                xx as int,
                                x as int,
                                y as int,
                            ),
                        ),
                        mn.g == min_i(
                            win_min_excl(
                                img,
                                1,
                                x0 as int,
                                x1 as int,
                                y0 as int,
                                yy as int,
                                x as int,
                                y as int,
                            ),
                            row_min_excl(
                                img,
                                1,
                                yy as int,
                                x0 as int,
                                xx as int,
                                x as int,
                                y as int,
                            ),
                        ),
                        mn.b == min_i(
                            win_min_excl(
                                img,
                                2,
                                x0 as int,
                                x1 as int,
                                y0 as int,
                                yy as int,
                                x as int,
                                y as int,
                            ),
                            row_min_excl(
                                img,
                                2,
                                yy as int,
                                x0 as int,
                                xx as int,
                                x as int,
                                y as int,
                            ),
                        ),
                        mn.a == min_i(
                            win_min_excl(
                                img,
                                3,
                                x0 as int,
                                x1 as int,
                                y0 as int,
                                yy as int,
                                x as int,
                                y as int,
                            ),
                            row_min_excl(
                                img,
                                3,
                                yy as int,
                                x0 as int,
                                xx as int,
                                x as int,
                                y as int,
                            ),
                        ),
                        mx.r == max_i(
                            win_max_excl(
                                img,
                                0,
                                x0 as int,
                                x1 as int,
                                y0 as int,
                                yy as int,
                                x as int,
                                y as int,
                            ),
                            row_max_excl(
                                img,
                                0,
                                yy as int,
                                x0 as int,
                                xx as int,
                                x as int,
                                y as int,
                            ),
                        ),
                        mx.g == max_i(
                            win_max_excl(
                                img,
                                1,
                                x0 as int,
                                x1 as int,
                                y0 as int,
                                yy as int,
                                x as int,
                                y as int,
                            ),
                            row_max_excl(
                                img,
                                1,
                                yy as int,
                                x0 as int,
                                xx as int,
                                x as int,
                                y as int,
                            ),
                        ),
                        mx.b == max_i(
                            win_max_excl(
                                img,
                                2,
                                x0 as int,
                                x1 as int,
                                y0 as int,
                                yy as int,
                                x as int,
                                y as int,
                            ),
                            row_max_excl(
                                img,
                                2,
                                yy as int,
                                x0 as int,
                                xx as int,
                                x as int,
                                y as int,
                            ),
                        ),
                        mx.a == max_i(
                            win_max_excl(
                                img,
                                3,
                                x0 as int,
                                x1 as int,
                                y0 as int,
                                yy as int,
                                x as int,
                                y as int,
                            ),
                            row_max_excl(
                                img,
                                3,
                                yy as int,
                                x0 as int,
                                xx as int,
                                x as int,
                                y as int,
                            ),
                        ),
                    decreases x1 - xx,
                {
                    if !(xx == x && yy == y) {
                        let p = img.get(xx, yy);
                        min(&p, &mut mn);
                        max(&p, &mut mx);
                    }
                    xx = xx + 1;
                }
                yy = yy + 1;
            }
            let p = img.get(x, y);
            let px = if x1 - x0 == 1 && y1 - y0 == 1 {
                p
            } else {
                Pixel {
                    r: clamp_between(p.r, mn.r, mx.r),
                    g: clamp_between(p.g, mn.g, mx.g),
                    b: clamp_between(p.b, mn.b, mx.b),
                    a: clamp_between(p.a, mn.a, mx.a),
                }
            };
            let ghost fcl = |xx: int, yy: int| min_max_pix(img, radius as int, xx, yy);
            let ghost prev = data@;
            proof {
                assert(px == fcl(x as int, y as int));
                lemma_grid_push(prev, w as int, x as int, y as int, fcl);
            }
            data.push(px);
            proof {
                assert(data@ == prev.push(fcl(x as int, y as int)));
                assert forall|k: int| 0 <= k < data.len() implies #[trigger] data@[k]
                    == min_max_pix(img, radius as int, k % (w as int), k / (w as int)) by {
                    assert(data@[k] == fcl(k % (w as int), k / (w as int)));
                }
            }
        }
        proof {
            assert((y as int + 1) * (w as int) == y as int * (w as int) + (w as int))
                by (nonlinear_arith);
        }
    }
    let out = PixelBuffer { width: w, height: h, data };
    proof {
        assert((w as int) * (h as int) == (h as int) * (w as int)) by (nonlinear_arith);
        let fcl = |xx: int, yy: int| min_max_pix(img, radius as int, xx, yy);
        lemma_grid(out.data@, w as int, h as int, fcl);
        assert forall|x: int, y: int| 0 <= x < w && 0 <= y < h implies out.pix_at(x, y)
            == min_max_pix(img, radius as int, x, y) by {
            lemma_row_major_bounds(w as int, h as int, x, y);
            assert(out.data@[y * (w as int) + x] == fcl(x, y));
        }
    }
    out
}

/// Clamp `v` into `[mn, mx]` the way the filter does.
fn clamp_between(v: u8, mn: u8, mx: u8) -> (r: u8)
    ensures
        v < mn ==> r == mn,
        mn <= v && v < mx ==> r == v,
        mn <= v && mx <= v ==> r == mx,
{
    if v < mn {
        mn
    } else if v < mx {
        v
    } else {
        mx
    }
}

/// Row minima with exclusion stay in the channel range.
pub proof fn lemma_row_min_excl_bounds(
    img: &PixelBuffer,
    c: int,
    y: int,
    x0: int,
    x1: int,
    cx: int,
    cy: int,
)
    ensures
        0 <= row_min_excl(img, c, y, x0, x1, cx, cy) <= 255,
    decreases x1 - x0,
{
    if x0 < x1 {
        lemma_row_min_excl_bounds(img, c, y, x0, x1 - 1, cx, cy);
    }
}

/// Row maxima with exclusion stay in the channel range.
pub proof fn lemma_row_max_excl_bounds(
    img: &PixelBuffer,
    c: int,
    y: int,
    x0: int,
    x1: int,
    cx: int,
    cy: int,
)
    ensures
        0 <= row_max_excl(img, c, y, x0, x1, cx, cy) <= 255,
    decreases x1 - x0,
{
    if x0 < x1 {
        lemma_row_max_excl_bounds(img, c, y, x0, x1 - 1, cx, cy);
    }
}

/// Window minima with exclusion stay in the channel range.
pub proof fn lemma_win_min_excl_bounds(
    img: &PixelBuffer,
    c: int,
    x0: int,
    x1: int,
    y0: int,
    y1: int,
    cx: int,
    cy: int,
)
    ensures
        0 <= win_min_excl(img, c, x0, x1, y0, y1, cx, cy) <= 255,
    decreases y1 - y0,
{
    if y0 < y1 {
        lemma_win_min_excl_bounds(img, c, x0, x1, y0, y1 - 1, cx, cy);
        lemma_row_min_excl_bounds(img, c, y1 - 1, x0, x1, cx, cy);
    }
}

/// Window maxima with exclusion stay in the channel range.
pub proof fn lemma_win_max_excl_bounds(
    img: &PixelBuffer,
    c: int,
    x0: int,
    x1: int,
    y0: int,
    y1: int,
    cx: int,
    cy: int,
)
    ensures
        0 <= win_max_excl(img, c, x0, x1, y0, y1, cx, cy) <= 255,
    decreases y1 - y0,
{
    if y0 < y1 {
        lemma_win_max_excl_bounds(img, c, x0, x1, y0, y1 - 1, cx, cy);
        lemma_row_max_excl_bounds(img, c, y1 - 1, x0, x1, cx, cy);
    }
}


/// Every scanned channel value in a row segment is at least the excluded
/// row minimum.
pub proof fn lemma_row_min_excl_le_elem(
    img: &PixelBuffer,
    c: int,
    y: int,
    x0: int,
    x1: int,
    cx: int,
    cy: int,
    i: int,
)
    requires
        x0 <= i < x1,
        !(i == cx && y == cy),
    ensures
        row_min_excl(img, c, y, x0, x1, cx, cy) <= channel(img.pix_at(i, y), c) as int,
    decreases x1 - x0,
{
    if i < x1 - 1 {
        lemma_row_min_excl_le_elem(img, c, y, x0, x1 - 1, cx, cy, i);
    }
}

/// Every scanned channel value in a row segment is at most the excluded
/// row maximum.
pub proof fn lemma_row_max_excl_ge_elem(
    img: &PixelBuffer,
    c: int,
    y: int,
    x0: int,
    x1: int,
    cx: int,
    cy: int,
    i: int,
)
    requires
        x0 <= i < x1,
        !(i == cx && y == cy),
    ensures
        channel(img.pix_at(i, y), c) as int <= row_max_excl(img, c, y, x0, x1, cx, cy),
    decreases x1 - x0,
{
    if i < x1 - 1 {
        lemma_row_max_excl_ge_elem(img, c, y, x0, x1 - 1, cx, cy, i);
    }
}

/// Every scanned channel value in the window is at least the excluded
/// window minimum.
pub proof fn lemma_win_min_excl_le_elem(
    img: &PixelBuffer,
    c: int,
    x0: int,
    x1: int,
    y0: int,
    y1: int,
    cx: int,
    cy: int,
    i: int,
    j: int,
)
    requires
        x0 <= i < x1,
        y0 <= j < y1,
        !(i == cx && j == cy),
    ensures
        win_min_excl(img, c, x0, x1, y0, y1, cx, cy) <= channel(img.pix_at(i, j), c) as int,
    decreases y1 - y0,
{
    if j == y1 - 1 {
        lemma_row_min_excl_le_elem(img, c, j, x0, x1, cx, cy, i);
    } else {
        lemma_win_min_excl_le_elem(img, c, x0, x1, y0, y1 - 1, cx, cy, i, j);
    }
}

/// Every scanned channel value in the window is at most the excluded
/// window maximum.
pub proof fn lemma_win_max_excl_ge_elem(
    img: &PixelBuffer,
    c: int,
    x0: int,
    x1: int,
    y0: int,
    y1: int,
    cx: int,
    cy: int,
    i: int,
    j: int,
)
    requires
        x0 <= i < x1,
        y0 <= j < y1,
        !(i == cx && j == cy),
    ensures
        channel(img.pix_at(i, j), c) as int <= win_max_excl(img, c, x0, x1, y0, y1, cx, cy),
    decreases y1 - y0,
{
    if j == y1 - 1 {
        lemma_row_max_excl_ge_elem(img, c, j, x0, x1, cx, cy, i);
    } else {
        lemma_win_max_excl_ge_elem(img, c, x0, x1, y0, y1 - 1, cx, cy, i, j);
    }
}

} // verus!
