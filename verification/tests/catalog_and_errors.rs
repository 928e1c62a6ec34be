use multy::{Algorithms, CompareError, FilterError, Pixel, PixelBuffer};

fn rgba(r: u8, g: u8, b: u8, a: u8) -> Pixel {
    Pixel { r, g, b, a }
}

fn solid(width: u32, height: u32, p: Pixel) -> PixelBuffer {
    PixelBuffer::new(width, height, vec![p; (width * height) as usize]).expect("valid raster")
}

fn pixel_at(img: &PixelBuffer, x: u32, y: u32) -> Pixel {
    img.data[(y * img.width + x) as usize]
}

#[test]
fn get_algo_maps_every_known_name() {
    assert_eq!(
        Algorithms::get_algo("adaptive_threshold"),
        Some(Algorithms::AdaptiveThreshold(0, 0))
    );
    assert_eq!(Algorithms::get_algo("blur"), Some(Algorithms::Blur(0)));
    assert_eq!(Algorithms::get_algo("dilate"), Some(Algorithms::Dilate(0)));
    assert_eq!(Algorithms::get_algo("erode"), Some(Algorithms::Erode(0)));
    assert_eq!(
        Algorithms::get_algo("local_contrast"),
        Some(Algorithms::LocalContrast(0, 0))
    );
    assert_eq!(Algorithms::get_algo("median_blur"), Some(Algorithms::MedianBlur(0)));
    assert_eq!(Algorithms::get_algo("min_max"), Some(Algorithms::MinMax(0)));
}

#[test]
fn get_algo_rejects_unknown_names() {
    assert_eq!(Algorithms::get_algo("sharpen"), None);
    assert_eq!(Algorithms::get_algo(""), None);
    assert_eq!(Algorithms::get_algo("Blur"), None);
    assert_eq!(Algorithms::get_algo("blurx"), None);
}

#[test]
fn set_radius_and_factor() {
    let mut algo = Algorithms::get_algo("local_contrast").unwrap();
    assert!(algo.need_radius());
    assert!(algo.need_factor());
    algo.set_radius(32);
    algo.set_factor(120);
    assert_eq!(algo, Algorithms::LocalContrast(32, 120));

    let mut algo = Algorithms::get_algo("blur").unwrap();
    assert!(algo.need_radius());
    assert!(!algo.need_factor());
    algo.set_radius(5);
    algo.set_factor(9);
    assert_eq!(algo, Algorithms::Blur(5));
    assert_eq!(algo.name(), "blur");
    assert_eq!(Algorithms::MinMax(1).name(), "min max");
}

#[test]
fn run_algo_dispatches_to_each_filter() {
    let img = PixelBuffer::new(
        2,
        2,
        vec![rgba(10, 20, 30, 255), rgba(200, 210, 220, 255), rgba(40, 50, 60, 255), rgba(
            90, 100, 110, 255,
        )],
    )
    .expect("valid raster");
    let cases = [
        Algorithms::AdaptiveThreshold(1, 0),
        Algorithms::Blur(1),
        Algorithms::Dilate(1),
        Algorithms::Erode(1),
        Algorithms::LocalContrast(1, 2),
        Algorithms::MedianBlur(1),
        Algorithms::MinMax(1),
    ];
    for algo in cases.iter() {
        let out = multy::run_algo(&img, algo);
        assert_eq!(out.width, 2);
        assert_eq!(out.height, 2);
    }
    let direct = multy::blur(&img, 1);
    let via_catalog = multy::run_algo(&img, &Algorithms::Blur(1));
    assert_eq!(direct.data, via_catalog.data);
}

#[test]
fn compare_equal_images_is_all_black() {
    let img = solid(3, 2, rgba(7, 8, 9, 255));
    let out = multy::compare(&img, &img).expect("same dimensions");
    assert_eq!(out.width, 3);
    assert_eq!(out.height, 2);
    for y in 0..2 {
        for x in 0..3 {
            assert_eq!(pixel_at(&out, x, y), rgba(0, 0, 0, 255));
        }
    }
}

#[test]
fn compare_highlights_differences() {
    let left = solid(2, 1, rgba(1, 2, 3, 255));
    let right = PixelBuffer::new(2, 1, vec![rgba(1, 2, 3, 255), rgba(1, 2, 4, 255)])
        .expect("valid raster");
    let out = multy::compare(&left, &right).expect("same dimensions");
    assert_eq!(pixel_at(&out, 0, 0), rgba(0, 0, 0, 255));
    assert_eq!(pixel_at(&out, 1, 0), rgba(190, 0, 0, 255));
}

#[test]
fn compare_mismatched_sizes_fails() {
    let a = solid(2, 2, rgba(0, 0, 0, 255));
    let b = solid(2, 3, rgba(0, 0, 0, 255));
    match multy::compare(&a, &b) {
        Err(CompareError::MismatchSize) => {},
        _ => panic!("expected a size mismatch"),
    }
}

#[test]
fn get_new_image_file_builds_destination_path() {
    let dest = multy::get_new_image_file("photos/cat.png", "_blur.").expect("valid path");
    assert_eq!(dest, "images/cat_blur.png");

    let dest = multy::get_new_image_file("lena.jpg", "_median.").expect("valid path");
    assert_eq!(dest, "images/lena_median.jpg");

    // Trailing separators are ignored when locating the file name.
    let dest = multy::get_new_image_file("a/b.png/", "_x.").expect("valid path");
    assert_eq!(dest, "images/b_x.png");
    let dest = multy::get_new_image_file("b.png//", "_x.").expect("valid path");
    assert_eq!(dest, "images/b_x.png");
}

#[test]
fn get_new_image_file_rejects_bad_paths() {
    // No file name at all.
    match multy::get_new_image_file("photos/", "_blur.") {
        Err(e) => assert!(matches!(e, FilterError::DestImgError(_))),
        Ok(_) => panic!("expected an error for a directory path"),
    }
    // A name without an extension.
    match multy::get_new_image_file("photos/cat", "_blur.") {
        Err(e) => assert!(matches!(e, FilterError::DestImgError(_))),
        Ok(_) => panic!("expected an error for a missing extension"),
    }
    // A leading dot does not count as an extension separator.
    assert!(multy::get_new_image_file("photos/.hidden", "_x.").is_err());
    // Dot-only names have neither stem nor extension.
    assert!(multy::get_new_image_file(".", "_x.").is_err());
    assert!(multy::get_new_image_file("..", "_x.").is_err());
    assert!(multy::get_new_image_file("photos/..", "_x.").is_err());
    // An empty path has no file name.
    assert!(multy::get_new_image_file("", "_x.").is_err());
}

#[test]
fn orig_filename_extension_splits_stem_and_extension() {
    let (stem, ext) = multy::orig_filename_extension("a/b/photo.tar.png").expect("valid path");
    assert_eq!(stem, "photo.tar");
    assert_eq!(ext, "png");

    let (stem, ext) = multy::orig_filename_extension("a/b.png/").expect("valid path");
    assert_eq!(stem, "b");
    assert_eq!(ext, "png");
}

#[test]
fn filter_error_exposes_its_message() {
    let e = FilterError::ImageError(String::from("decode failed"));
    assert_eq!(e.get_ref_error_string(), "decode failed");
    assert_eq!(e.get_error_string(), "decode failed");
}

#[test]
fn pixel_arithmetic_helpers() {
    let p = rgba(123, 45, 67, 89);
    assert_eq!(Pixel::new(123, 45, 67, 89), p);
    let wide = p.into();
    assert_eq!(wide.r, 123);
    assert_eq!(wide.a, 89);
    assert_eq!(p.clamp(50, 100), rgba(100, 50, 67, 89));
    // Luma weights: 123/10*3 + 45/10*6 + 67/10 = 36 + 24 + 6 = 66.
    assert_eq!(p.as_gray(), 66);

    let mut running_min = rgba(255, 0, 255, 0);
    multy::min(&p, &mut running_min);
    assert_eq!(running_min, rgba(123, 0, 67, 0));
    let mut running_max = rgba(255, 0, 255, 0);
    multy::max(&p, &mut running_max);
    assert_eq!(running_max, rgba(255, 45, 255, 89));

    let wide = multy::pix_as_u32(p);
    assert_eq!(wide, [123, 45, 67, 89]);
    assert_eq!(multy::add_pix([1, 2, 3, 4], [10, 20, 30, 40]), [11, 22, 33, 44]);
    assert_eq!(multy::sub_pix([10, 20, 30, 40], [1, 2, 3, 4]), [9, 18, 27, 36]);
}

#[test]
fn pixel_buffer_rejects_bad_dimensions() {
    assert!(PixelBuffer::new(2, 2, vec![rgba(0, 0, 0, 0); 3]).is_none());
    assert!(PixelBuffer::new(2, 2, vec![rgba(0, 0, 0, 0); 4]).is_some());
}

#[test]
fn parse_u32_accepts_exactly_in_range_digit_strings() {
    assert_eq!(multy::parse_u32("0"), Some(0));
    assert_eq!(multy::parse_u32("32"), Some(32));
    assert_eq!(multy::parse_u32("007"), Some(7));
    assert_eq!(multy::parse_u32("4294967295"), Some(u32::MAX));
    assert_eq!(multy::parse_u32("4294967296"), None);
    assert_eq!(multy::parse_u32(""), None);
    assert_eq!(multy::parse_u32("12a"), None);
    assert_eq!(multy::parse_u32("-3"), None);
    assert_eq!(multy::parse_u32(" 3"), None);
}

#[test]
fn parse_i32_accepts_exactly_in_range_signed_numbers() {
    assert_eq!(multy::parse_i32("120"), Some(120));
    assert_eq!(multy::parse_i32("-120"), Some(-120));
    assert_eq!(multy::parse_i32("2147483647"), Some(i32::MAX));
    assert_eq!(multy::parse_i32("2147483648"), None);
    assert_eq!(multy::parse_i32("-2147483648"), Some(i32::MIN));
    assert_eq!(multy::parse_i32("-2147483649"), None);
    assert_eq!(multy::parse_i32("-"), None);
    assert_eq!(multy::parse_i32(""), None);
    assert_eq!(multy::parse_i32("1.5"), None);
}
