use multy::{Pixel, PixelBuffer};

fn px(r: u8, g: u8, b: u8, a: u8) -> Pixel {
    Pixel { r, g, b, a }
}

fn gray(v: u8) -> Pixel {
    Pixel { r: v, g: v, b: v, a: 255 }
}

fn buffer(width: u32, height: u32, pixels: Vec<Pixel>) -> PixelBuffer {
    PixelBuffer::new(width, height, pixels).expect("valid raster")
}

fn at(img: &PixelBuffer, x: u32, y: u32) -> Pixel {
    img.data[(y * img.width + x) as usize]
}

#[test]
fn blur() {
    // Uniform 3x3: every window mean is the pixel itself, corners included,
    // because the divisor is the actual in-bounds neighbour count.
    let img = buffer(3, 3, vec![gray(100); 9]);
    let out = multy::blur(&img, 1);
    assert_eq!(out.width, 3);
    assert_eq!(out.height, 3);
    for y in 0..3 {
        for x in 0..3 {
            assert_eq!(at(&out, x, y), gray(100));
        }
    }

    // 2x1 black/white with radius 1: both windows cover both pixels, so
    // both outputs are the truncated mean (0 + 255) / 2 = 127.
    let img = buffer(2, 1, vec![px(0, 0, 0, 0), px(255, 255, 255, 255)]);
    let out = multy::blur(&img, 1);
    assert_eq!(at(&out, 0, 0), px(127, 127, 127, 127));
    assert_eq!(at(&out, 1, 0), px(127, 127, 127, 127));
}

#[test]
fn blur_zero_radius_is_identity() {
    let img = buffer(2, 2, vec![px(1, 2, 3, 4), px(5, 6, 7, 8), gray(9), px(250, 0, 128, 33)]);
    let out = multy::blur(&img, 0);
    for y in 0..2 {
        for x in 0..2 {
            assert_eq!(at(&out, x, y), at(&img, x, y));
        }
    }
}

#[test]
fn dilate() {
    // 2x1 black/white: with radius 1 each neighborhood spans both pixels,
    // so both outputs take the channelwise maximum: white.
    let img = buffer(2, 1, vec![px(0, 0, 0, 255), px(255, 255, 255, 255)]);
    let out = multy::dilate(&img, 1);
    assert_eq!(out.width, 2);
    assert_eq!(out.height, 1);
    assert_eq!(at(&out, 0, 0), px(255, 255, 255, 255));
    assert_eq!(at(&out, 1, 0), px(255, 255, 255, 255));
}

#[test]
fn erode() {
    // Same 2x1 image: erosion takes the channelwise minimum: black.
    let img = buffer(2, 1, vec![px(0, 0, 0, 255), px(255, 255, 255, 255)]);
    let out = multy::erode(&img, 1);
    assert_eq!(at(&out, 0, 0), px(0, 0, 0, 255));
    assert_eq!(at(&out, 1, 0), px(0, 0, 0, 255));
}

#[test]
fn dilate_and_erode_monotonic_in_radius() {
    let pixels = vec![
        px(10, 200, 30, 255),
        px(90, 40, 250, 255),
        px(0, 0, 0, 0),
        px(130, 130, 130, 255),
        px(255, 1, 77, 200),
        px(60, 60, 60, 60),
        px(20, 220, 10, 255),
        px(70, 70, 250, 255),
        px(5, 5, 5, 255),
        px(100, 110, 120, 130),
        px(200, 10, 10, 255),
        px(33, 44, 55, 66),
    ];
    let img = buffer(4, 3, pixels);
    let radii = [0u32, 1, 2, 3];
    for w in radii.windows(2) {
        let d_small = multy::dilate(&img, w[0]);
        let d_large = multy::dilate(&img, w[1]);
        let e_small = multy::erode(&img, w[0]);
        let e_large = multy::erode(&img, w[1]);
        for y in 0..3 {
            for x in 0..4 {
                let (ds, dl) = (at(&d_small, x, y), at(&d_large, x, y));
                assert!(ds.r <= dl.r && ds.g <= dl.g && ds.b <= dl.b && ds.a <= dl.a);
                let (es, el) = (at(&e_small, x, y), at(&e_large, x, y));
                assert!(el.r <= es.r && el.g <= es.g && el.b <= es.b && el.a <= es.a);
            }
        }
    }
}

#[test]
fn median_blur() {
    // 3x3 with nine distinct lumas: the center output is the true median,
    // the pixel at sorted-ascending-luma index 9 / 2 = 4.
    let vals = [10u8, 30, 50, 70, 90, 110, 130, 150, 170];
    let pixels: Vec<Pixel> = vals.iter().map(|&v| gray(v)).collect();
    let img = buffer(3, 3, pixels);
    let out = multy::median_blur(&img, 1);
    assert_eq!(out.width, 3);
    assert_eq!(out.height, 3);
    assert_eq!(at(&out, 1, 1), gray(90));
}

#[test]
fn median_blur_zero_radius_is_identity() {
    let img = buffer(2, 2, vec![gray(10), gray(200), gray(30), gray(90)]);
    let out = multy::median_blur(&img, 0);
    for y in 0..2 {
        for x in 0..2 {
            assert_eq!(at(&out, x, y), at(&img, x, y));
        }
    }
}

#[test]
fn median_blur_stable_tie_break() {
    // Both pixels fold to the same luma bucket; the stable sort keeps the
    // row-major order, so index 2 / 2 = 1 picks the second pixel.
    let a = px(10, 0, 0, 255);
    let b = px(19, 0, 0, 255);
    let img = buffer(2, 1, vec![a, b]);
    let out = multy::median_blur(&img, 1);
    assert_eq!(at(&out, 0, 0), b);
    assert_eq!(at(&out, 1, 0), b);
}

#[test]
fn min_max() {
    // A bright center among darker neighbours is pulled down to the
    // neighborhood maximum; its own value does not count.
    let mut pixels = vec![gray(50); 9];
    pixels[4] = gray(250);
    let img = buffer(3, 3, pixels);
    let out = multy::min_max(&img, 1);
    assert_eq!(out.width, 3);
    assert_eq!(out.height, 3);
    assert_eq!(at(&out, 1, 1), gray(50));
}

#[test]
fn min_max_keeps_values_inside_range() {
    let pixels = vec![
        gray(10),
        gray(60),
        gray(200),
        gray(90),
        gray(120),
        gray(30),
        gray(255),
        gray(0),
        gray(77),
    ];
    let img = buffer(3, 3, pixels);
    let out = multy::min_max(&img, 1);
    for y in 0..3u32 {
        for x in 0..3u32 {
            // Recompute the self-excluded neighborhood range.
            let mut mn = 255u8;
            let mut mx = 0u8;
            for yy in y.saturating_sub(1)..(y + 2).min(3) {
                for xx in x.saturating_sub(1)..(x + 2).min(3) {
                    if (xx, yy) != (x, y) {
                        let v = at(&img, xx, yy).r;
                        mn = mn.min(v);
                        mx = mx.max(v);
                    }
                }
            }
            let v = at(&img, x, y).r;
            let o = at(&out, x, y).r;
            assert!(mn <= o && o <= mx);
            if mn <= v && v <= mx {
                assert_eq!(o, v);
            }
        }
    }
}

#[test]
fn adaptive_threshold() {
    // Uniform image with zero bias: no pixel is strictly brighter than its
    // own window mean, so everything becomes opaque black.
    let img = buffer(3, 3, vec![gray(100); 9]);
    let out = multy::adaptive_threshold(&img, 1, 0);
    assert_eq!(out.width, 3);
    assert_eq!(out.height, 3);
    for y in 0..3 {
        for x in 0..3 {
            assert_eq!(at(&out, x, y), px(0, 0, 0, 255));
        }
    }

    // A negative bias lowers the threshold below the pixel's own
    // brightness, so a uniform image passes through unchanged.
    let out = multy::adaptive_threshold(&img, 1, -5);
    for y in 0..3 {
        for x in 0..3 {
            assert_eq!(at(&out, x, y), gray(100));
        }
    }

    // A bright pixel on a dark background survives, while the background
    // stays below its threshold and is blacked out.
    let mut pixels = vec![gray(10); 9];
    pixels[4] = gray(200);
    let img = buffer(3, 3, pixels);
    let out = multy::adaptive_threshold(&img, 1, 0);
    assert_eq!(at(&out, 1, 1), gray(200));
    assert_eq!(at(&out, 0, 0), px(0, 0, 0, 255));
}

#[test]
fn local_contrast() {
    // 1x2 with radius 1 and factor 1: both windows span both pixels, the
    // per-channel mean is 150, and each value is pushed away from it by
    // its own distance: 100 -> 50, 200 -> 250. Alpha stays at its mean.
    let img = buffer(1, 2, vec![gray(100), gray(200)]);
    let out = multy::local_contrast(&img, 1, 1);
    assert_eq!(out.width, 1);
    assert_eq!(out.height, 2);
    assert_eq!(at(&out, 0, 0), px(50, 50, 50, 255));
    assert_eq!(at(&out, 0, 1), px(250, 250, 250, 255));
}

#[test]
fn local_contrast_uniform_is_unchanged() {
    let img = buffer(2, 2, vec![gray(140); 4]);
    for factor in [-3i32, 0, 1, 7] {
        let out = multy::local_contrast(&img, 1, factor);
        for y in 0..2 {
            for x in 0..2 {
                assert_eq!(at(&out, x, y), gray(140));
            }
        }
    }
}

#[test]
fn filters_keep_dimensions() {
    let img = buffer(4, 3, vec![gray(80); 12]);
    let outputs = [
        multy::blur(&img, 2),
        multy::dilate(&img, 2),
        multy::erode(&img, 2),
        multy::median_blur(&img, 2),
        multy::min_max(&img, 2),
        multy::adaptive_threshold(&img, 2, 1),
        multy::local_contrast(&img, 2, 2),
    ];
    for out in outputs.iter() {
        assert_eq!(out.width, img.width);
        assert_eq!(out.height, img.height);
        assert_eq!(out.data.len(), 12);
    }
}

#[test]
fn radius_larger_than_image_degrades_to_whole_image() {
    let img = buffer(2, 2, vec![gray(0), gray(100), gray(200), gray(40)]);
    let out = multy::blur(&img, 100);
    // Every window is the whole image: mean = (0 + 100 + 200 + 40) / 4 = 85.
    for y in 0..2 {
        for x in 0..2 {
            assert_eq!(at(&out, x, y), px(85, 85, 85, 255));
        }
    }
    let out = multy::dilate(&img, 100);
    for y in 0..2 {
        for x in 0..2 {
            assert_eq!(at(&out, x, y), gray(200));
        }
    }
}

#[test]
fn blur_matches_naive_window_means() {
    let vals: [u8; 20] = [
        3, 250, 17, 99, 41, 120, 7, 200, 65, 33, 88, 11, 140, 255, 0, 76, 54, 190, 22, 101,
    ];
    let pixels: Vec<Pixel> = vals.iter().map(|&v| px(v, v.wrapping_mul(3), 255 - v, 255)).collect();
    let img = buffer(5, 4, pixels);
    for radius in 0..4u32 {
        let out = multy::blur(&img, radius);
        for y in 0..4u32 {
            for x in 0..5u32 {
                let x0 = x.saturating_sub(radius);
                let x1 = (x + radius + 1).min(5);
                let y0 = y.saturating_sub(radius);
                let y1 = (y + radius + 1).min(4);
                let mut sums = [0u64; 4];
                for yy in y0..y1 {
                    for xx in x0..x1 {
                        let p = at(&img, xx, yy);
                        sums[0] += p.r as u64;
                        sums[1] += p.g as u64;
                        sums[2] += p.b as u64;
                        sums[3] += p.a as u64;
                    }
                }
                let count = ((x1 - x0) * (y1 - y0)) as u64;
                let expected = px(
                    (sums[0] / count) as u8,
                    (sums[1] / count) as u8,
                    (sums[2] / count) as u8,
                    (sums[3] / count) as u8,
                );
                assert_eq!(at(&out, x, y), expected);
            }
        }
    }
}

#[test]
fn dilate_matches_naive_window_maxima() {
    let vals: [u8; 12] = [9, 140, 3, 77, 210, 0, 255, 31, 68, 150, 42, 96];
    let pixels: Vec<Pixel> = vals.iter().map(|&v| px(v, 255 - v, v / 2, 255)).collect();
    let img = buffer(4, 3, pixels);
    for radius in 0..3u32 {
        let out = multy::dilate(&img, radius);
        for y in 0..3u32 {
            for x in 0..4u32 {
                let x0 = x.saturating_sub(radius);
                let x1 = (x + radius + 1).min(4);
                let y0 = y.saturating_sub(radius);
                let y1 = (y + radius + 1).min(3);
                let mut expected = px(0, 0, 0, 0);
                for yy in y0..y1 {
                    for xx in x0..x1 {
                        let p = at(&img, xx, yy);
                        expected.r = expected.r.max(p.r);
                        expected.g = expected.g.max(p.g);
                        expected.b = expected.b.max(p.b);
                        expected.a = expected.a.max(p.a);
                    }
                }
                assert_eq!(at(&out, x, y), expected);
            }
        }
    }
}

#[test]
fn raster_limit_rejects_oversized_dimensions() {
    assert!(PixelBuffer::new(u32::MAX, u32::MAX, Vec::new()).is_none());
    assert!(PixelBuffer::new_filled(u32::MAX, u32::MAX, Pixel { r: 0, g: 0, b: 0, a: 0 })
        .is_none());
}

#[test]
fn min_max_empty_neighborhood_is_identity() {
    // Radius 0: the window is only the center, which the scan excludes, so
    // every pixel passes through unchanged.
    let img = buffer(2, 2, vec![gray(0), gray(255), gray(7), gray(130)]);
    let out = multy::min_max(&img, 0);
    for y in 0..2 {
        for x in 0..2 {
            assert_eq!(at(&out, x, y), at(&img, x, y));
        }
    }
    // A one-pixel raster has no neighbours at any radius.
    let img = buffer(1, 1, vec![px(200, 3, 255, 0)]);
    let out = multy::min_max(&img, 5);
    assert_eq!(at(&out, 0, 0), px(200, 3, 255, 0));
}
