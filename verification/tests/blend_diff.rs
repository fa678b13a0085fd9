use diffimg::blend_diff::{
    biased_channel, blend_channel, blend_images, blend_pixel, blend_rgb_pixels,
    create_overlayed_pixel, get_bias_from_diff, get_diff_from_images, mix_channel, BlendMode,
};
use diffimg::error::DiffError;
use diffimg::fraction::Fraction;
use diffimg::pixel::Pixel;
use diffimg::raster::Image;

fn frac(num: i32, den: u32) -> Fraction {
    Fraction::new(num, den).unwrap()
}

fn checker(width: u32, height: u32, seed: u8) -> Image {
    let mut pixels = Vec::new();
    for y in 0..height {
        for x in 0..width {
            let v = (x * 7 + y * 13) as u8;
            pixels.push(Pixel::new(
                v.wrapping_add(seed),
                v.wrapping_mul(3),
                seed.wrapping_sub(v),
                255,
            ));
        }
    }
    Image::new(width, height, pixels).unwrap()
}

#[test]
fn mod_test_blend_rgb_pixels_no_bias() {
    let pixel_x = (100, 150, 200);
    let pixel_y = (50, 100, 150);
    let rgb_bias = (frac(0, 1), frac(0, 1), frac(0, 1));
    let result = blend_rgb_pixels(pixel_x, pixel_y, rgb_bias);
    assert_eq!(result, (75, 125, 175)); // Calculated expected result with no bias
}

#[test]
fn mod_test_blend_rgb_pixels_min_values() {
    let pixel_x = (0, 0, 0);
    let pixel_y = (0, 0, 0);
    let rgb_bias = (frac(1, 10), frac(1, 10), frac(1, 10));
    let result = blend_rgb_pixels(pixel_x, pixel_y, rgb_bias);
    assert_eq!(result, (0, 0, 0)); // Both pixels are black, result should be black
}

#[test]
fn mod_test_blend_rgb_pixels_max_values() {
    let pixel_x = (255, 255, 255);
    let pixel_y = (255, 255, 255);
    let rgb_bias = (frac(1, 10), frac(1, 10), frac(1, 10));
    let result = blend_rgb_pixels(pixel_x, pixel_y, rgb_bias);
    assert_eq!(result, (255, 255, 255)); // Both pixels are white, result should be white
}

#[test]
fn mod_test_blend_rgb_pixels_bias_clamping() {
    let pixel_x = (0, 0, 0);
    let pixel_y = (255, 255, 255);
    let rgb_bias = (frac(10, 1), frac(10, 1), frac(10, 1)); // High bias to test clamping
    let result = blend_rgb_pixels(pixel_x, pixel_y, rgb_bias);
    assert_eq!(result, (127, 127, 127)); // pixel_y will be clamped to (255, 255, 255), average is (127.5, 127.5, 127.5) -> (127, 127, 127)
}

#[test]
fn diff_img_test_blend_rgb_pixels_no_bias() {
    let pixel_x = (100, 150, 200);
    let pixel_y = (50, 100, 150);
    let rgb_bias = (Fraction::zero(), Fraction::zero(), Fraction::zero());
    let result = blend_rgb_pixels(pixel_x, pixel_y, rgb_bias);
    assert_eq!(result, (75, 125, 175)); // Calculated expected result with no bias
}

#[test]
fn diff_img_test_blend_rgb_pixels_min_values() {
    let pixel_x = (0, 0, 0);
    let pixel_y = (0, 0, 0);
    let rgb_bias = (frac(1, 10), frac(1, 10), frac(1, 10));
    let result = blend_rgb_pixels(pixel_x, pixel_y, rgb_bias);
    assert_eq!(result, (0, 0, 0)); // Both pixels are black, result should be black
}

#[test]
fn diff_img_test_blend_rgb_pixels_max_values() {
    let pixel_x = (255, 255, 255);
    let pixel_y = (255, 255, 255);
    let rgb_bias = (frac(1, 10), frac(1, 10), frac(1, 10));
    let result = blend_rgb_pixels(pixel_x, pixel_y, rgb_bias);
    assert_eq!(result, (255, 255, 255)); // Both pixels are white, result should be white
}

#[test]
fn diff_img_test_blend_rgb_pixels_bias_clamping() {
    let pixel_x = (0, 0, 0);
    let pixel_y = (255, 255, 255);
    let rgb_bias = (frac(10, 1), frac(10, 1), frac(10, 1)); // High bias to test clamping
    let result = blend_rgb_pixels(pixel_x, pixel_y, rgb_bias);
    assert_eq!(result, (127, 127, 127)); // pixel_y will be clamped to (255, 255, 255), average is (127.5, 127.5, 127.5) -> (127, 127, 127)
}

#[test]
fn test_create_overlayed_pixel() {
    let pixel_x = (100, 150, 200);
    let pixel_y = (50, 100, 150);
    let mut alpha = frac(0, 1);
    let mut result = create_overlayed_pixel(pixel_x, pixel_y, alpha);

    assert_eq!(result, pixel_y);

    alpha = frac(1, 1);
    result = create_overlayed_pixel(pixel_x, pixel_y, alpha);

    assert_eq!(result, pixel_x);

    alpha = frac(1, 2);
    result = create_overlayed_pixel(pixel_x, pixel_y, alpha);

    assert_eq!(result, (75, 125, 175));
}

#[test]
fn test_get_diff_from_images() {
    let image1 = checker(6, 4, 10);
    let image2 = checker(6, 4, 90);
    let blend_mode = BlendMode::Identity;
    let result = get_diff_from_images(image1, image2, blend_mode);
    assert_eq!(result.is_ok(), true);
}

#[test]
fn test_get_diff_from_images_overlay() {
    let image1 = checker(6, 4, 10);
    let image2 = checker(6, 4, 90);
    let blend_mode = BlendMode::Overlay;
    let result = blend_images(image1, image2, blend_mode);
    assert_eq!(result.is_ok(), true);
}

#[test]
fn fraction_needs_a_denominator() {
    assert!(Fraction::new(1, 0).is_none());
    let f = Fraction::new(-3, 10).unwrap();
    assert_eq!(f.numerator(), -3);
    assert_eq!(f.denominator(), 10);
    assert_eq!((Fraction::zero().numerator(), Fraction::zero().denominator()), (0, 1));
    assert_eq!((Fraction::half().numerator(), Fraction::half().denominator()), (1, 2));
    assert_eq!((Fraction::one().numerator(), Fraction::one().denominator()), (1, 1));
}

#[test]
fn equal_colours_blend_to_the_first_pixel_in_every_mode() {
    let a = Pixel::new(12, 200, 33, 97);
    let b = Pixel::new(12, 200, 33, 4);
    for mode in [
        BlendMode::BIAS,
        BlendMode::HUE,
        BlendMode::Overlay,
        BlendMode::Identity,
    ] {
        let out = blend_pixel((3, 9, a), (8, 1, b), mode);
        assert_eq!(out, (3, 9, Pixel::new(12, 200, 33, 0)));
    }
}

#[test]
fn zero_bias_is_the_truncated_average_for_all_channel_values() {
    for x in 0..=255u8 {
        for y in 0..=255u8 {
            let expected = ((x as u16 + y as u16) / 2) as u8;
            assert_eq!(blend_channel(x, y, Fraction::zero()), expected);
            assert_eq!(blend_channel(x, y, frac(0, 7)), expected);
        }
    }
}

#[test]
fn identity_mode_averages_and_clears_alpha() {
    let a = Pixel::new(100, 150, 200, 255);
    let b = Pixel::new(50, 101, 150, 255);
    let out = blend_pixel((0, 0, a), (0, 0, b), BlendMode::Identity);
    assert_eq!(out.2, Pixel::new(75, 125, 175, 0));
}

#[test]
fn overlay_mode_weighs_both_pixels_equally() {
    let a = Pixel::new(255, 0, 9, 255);
    let b = Pixel::new(0, 255, 10, 255);
    let out = blend_pixel((4, 5, a), (0, 0, b), BlendMode::Overlay);
    assert_eq!(out, (4, 5, Pixel::new(127, 127, 9, 0)));
}

#[test]
fn hue_mode_scales_the_second_pixel() {
    // red and blue of the second pixel grow by three tenths, green shrinks
    let a = Pixel::new(0, 0, 0, 255);
    let b = Pixel::new(100, 100, 250, 255);
    let out = blend_pixel((0, 0, a), (0, 0, b), BlendMode::HUE);
    // 100 * 1.3 = 130 -> 65; 100 * 0.7 = 70 -> 35; 250 * 1.3 = 325 -> 255 -> 127
    assert_eq!(out.2, Pixel::new(65, 35, 127, 0));
}

#[test]
fn bias_mode_pushes_by_the_difference() {
    // red: diff 10, current 20, target 128: 20 * (1 + 10 / 20 * 128) = 1300 -> 255
    // green: target 0: no bias, (40 + 50) / 2
    // blue: diff 1, current 100: 100 * (1 + 1 / 100 * 128) = 228 -> (101 + 228) / 2
    let a = Pixel::new(30, 40, 101, 255);
    let b = Pixel::new(20, 50, 100, 255);
    let out = blend_pixel((0, 0, a), (0, 0, b), BlendMode::BIAS);
    assert_eq!(out.2, Pixel::new(142, 45, 164, 0));
}

#[test]
fn bias_mode_treats_a_zero_channel_as_no_bias() {
    let a = Pixel::new(200, 100, 50, 255);
    let b = Pixel::new(0, 0, 0, 255);
    let out = blend_pixel((0, 0, a), (0, 0, b), BlendMode::BIAS);
    assert_eq!(out.2, Pixel::new(100, 50, 25, 0));
    let bias = get_bias_from_diff(200, 0, 128);
    assert_eq!((bias.numerator(), bias.denominator()), (0, 1));
    let bias = get_bias_from_diff(3, 7, 128);
    assert_eq!((bias.numerator(), bias.denominator()), (384, 7));
}

#[test]
fn extreme_biases_stay_in_range() {
    assert_eq!(biased_channel(255, frac(i32::MAX, 1)), 255);
    assert_eq!(biased_channel(255, frac(i32::MIN, 1)), 0);
    assert_eq!(biased_channel(1, frac(i32::MIN, u32::MAX)), 0);
    assert_eq!(biased_channel(200, frac(-1, 1)), 0);
    assert_eq!(biased_channel(200, frac(-1, 2)), 100);
    assert_eq!(biased_channel(0, frac(i32::MAX, 1)), 0);
    assert_eq!(blend_channel(255, 255, frac(i32::MAX, 1)), 255);
    assert_eq!(blend_channel(0, 255, frac(-2, 1)), 0);
}

#[test]
fn overlay_weights_outside_the_unit_interval_are_clamped() {
    assert_eq!(mix_channel(200, 100, frac(2, 1)), 255);
    assert_eq!(mix_channel(200, 100, frac(-1, 1)), 0);
    assert_eq!(mix_channel(10, 20, frac(1, 3)), 16);
    assert_eq!(mix_channel(255, 0, frac(100, 256)), 99);
}

#[test]
fn overlay_end_points_hold_for_all_channel_values() {
    for x in (0..=255u8).step_by(5) {
        for y in (0..=255u8).step_by(3) {
            assert_eq!(mix_channel(x, y, frac(0, 9)), y);
            assert_eq!(mix_channel(x, y, frac(9, 9)), x);
            assert_eq!(mix_channel(x, y, frac(4, 8)), ((x as u16 + y as u16) / 2) as u8);
        }
    }
}

#[test]
fn blended_image_is_pixel_by_pixel() {
    let image1 = checker(5, 3, 1);
    let image2 = checker(5, 3, 77);
    let expected: Vec<Pixel> = image1
        .pixels()
        .iter()
        .zip(image2.pixels().iter())
        .map(|(a, b)| blend_pixel((0, 0, *a), (0, 0, *b), BlendMode::HUE).2)
        .collect();
    let out = blend_images(image1, image2, BlendMode::HUE).unwrap();
    assert_eq!(out.dimensions(), (5, 3));
    assert_eq!(out.pixels(), &expected);
}

#[test]
fn blending_refuses_images_of_different_sizes() {
    let out = blend_images(checker(5, 3, 1), checker(3, 5, 1), BlendMode::BIAS);
    assert_eq!(out.err(), Some(DiffError::DimensionMismatch));
    let out = get_diff_from_images(checker(5, 3, 1), checker(5, 4, 1), BlendMode::BIAS);
    assert_eq!(out.err(), Some(DiffError::DimensionMismatch));
}
