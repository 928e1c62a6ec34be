//! Neighborhood-based spatial filters over RGBA rasters.
//!
//! Every filter reads a read-only input raster and allocates a fresh output
//! raster of identical dimensions. Per-pixel aggregates are taken over a
//! rectangular neighborhood of a given radius, clamped at the image borders:
//! only in-bounds pixels count, and divisions and medians always use the
//! actual number of in-bounds neighbours.

mod adaptive_threshold;
mod blur;
mod catalog;
mod compare;
mod dilate;
mod erode;
mod file;
mod integral;
mod laws;
mod local_contrast;
mod median_blur;
mod min_max;
mod pixel;
mod pixel_buffer;
mod pixel_ops;
mod rect;
mod sort;
mod window;

pub use adaptive_threshold::adaptive_threshold;
pub use blur::blur;
pub use catalog::{parse_i32, parse_u32, run_algo, Algorithms};
pub use compare::{compare, CompareError};
pub use dilate::dilate;
pub use erode::erode;
pub use file::{get_new_image_file, orig_filename_extension, FilterError};
pub use integral::IntegralTable;
pub use laws::{
    lemma_adaptive_threshold_uniform, lemma_blur_zero_radius_identity, lemma_compare_identical,
    lemma_dilate_monotone_radius, lemma_erode_monotone_radius, lemma_min_max_within_neighborhood,
};
pub use local_contrast::local_contrast;
pub use median_blur::median_blur;
pub use min_max::min_max;
pub use pixel::{max, min, Pixel, WidePixel};
pub use pixel_buffer::{PixelBuffer, AREA_LIMIT};
pub use pixel_ops::{add_pix, pix_as_u32, sub_pix};
