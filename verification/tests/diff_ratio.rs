use diffimg::diff_ratio::{calculate_diff_ratio, get_raw_pixels, DiffRatio};
use diffimg::error::DiffError;
use diffimg::pixel::Pixel;
use diffimg::raster::Image;

fn plain(width: u32, height: u32, pixel: Pixel) -> Image {
    Image::new(width, height, vec![pixel; (width * height) as usize]).unwrap()
}

fn value(ratio: DiffRatio) -> f64 {
    ratio.total_diff as f64 / ratio.total_possible as f64
}

#[test]
fn ratio_of_an_image_with_itself_is_zero() {
    let mut pixels = Vec::new();
    for k in 0..20u8 {
        pixels.push(Pixel::new(k, 255 - k, 3 * k, k));
    }
    let a = Image::new(5, 4, pixels).unwrap();
    let b = a.duplicate();
    let ratio = calculate_diff_ratio(a, b).unwrap();
    assert_eq!(ratio, DiffRatio { total_diff: 0, total_possible: 255 * 60 });
    assert_eq!(value(ratio), 0.0);
}

#[test]
fn ratio_is_symmetric() {
    let a = plain(3, 2, Pixel::new(10, 20, 30, 255));
    let b = plain(3, 2, Pixel::new(40, 5, 30, 0));
    let ab = calculate_diff_ratio(a.duplicate(), b.duplicate()).unwrap();
    let ba = calculate_diff_ratio(b, a).unwrap();
    assert_eq!(ab, ba);
    assert_eq!(ab.total_diff, 6 * (30 + 15));
    assert_eq!(ab.total_possible, 255 * 18);
}

#[test]
fn ratio_of_black_against_white_is_one() {
    let black = plain(7, 3, Pixel::new(0, 0, 0, 255));
    let white = plain(7, 3, Pixel::new(255, 255, 255, 255));
    let ratio = calculate_diff_ratio(black, white).unwrap();
    assert_eq!(ratio.total_diff, ratio.total_possible);
    assert_eq!(value(ratio), 1.0);
}

#[test]
fn ratio_leaves_alpha_out() {
    let a = plain(2, 2, Pixel::new(1, 1, 1, 0));
    let b = plain(2, 2, Pixel::new(1, 1, 1, 255));
    assert_eq!(calculate_diff_ratio(a, b).unwrap().total_diff, 0);
}

#[test]
fn ratio_of_one_changed_channel() {
    let a = plain(1, 1, Pixel::new(0, 0, 0, 255));
    let b = plain(1, 1, Pixel::new(0, 51, 0, 255));
    let ratio = calculate_diff_ratio(a, b).unwrap();
    assert_eq!(ratio, DiffRatio { total_diff: 51, total_possible: 765 });
    assert_eq!(value(ratio), 51.0 / 765.0);
}

#[test]
fn ratio_refuses_images_of_different_sizes() {
    let a = plain(2, 3, Pixel::new(0, 0, 0, 0));
    let b = plain(3, 2, Pixel::new(0, 0, 0, 0));
    assert_eq!(calculate_diff_ratio(a, b), Err(DiffError::DimensionMismatch));
}

#[test]
fn ratio_of_two_empty_images_has_no_value() {
    let a = Image::new(0, 0, Vec::new()).unwrap();
    let b = Image::new(0, 0, Vec::new()).unwrap();
    let ratio = calculate_diff_ratio(a, b).unwrap();
    assert_eq!(ratio, DiffRatio { total_diff: 0, total_possible: 0 });
    assert!(value(ratio).is_nan());
}

#[test]
fn raw_pixels_are_the_colour_bytes_in_scan_order() {
    let img = Image::new(
        2,
        1,
        vec![Pixel::new(1, 2, 3, 4), Pixel::new(5, 6, 7, 8)],
    )
    .unwrap();
    assert_eq!(get_raw_pixels(&img), vec![1, 2, 3, 5, 6, 7]);
}
