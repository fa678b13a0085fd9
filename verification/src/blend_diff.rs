use vstd::prelude::*;
use crate::error::DiffError;
use crate::fraction::{Fraction, Ratio};
use crate::pixel::Pixel;
use crate::raster::{Grid, Image};
use crate::utils::{abs_diff, abs_diff_spec};

verus! {

/// How two corresponding pixels that differ are combined into one.
#[derive(Copy, Clone, Debug, PartialEq, Eq, Structural)]
pub enum BlendMode {
    /// The second pixel is pushed toward purple by how much it differs.
    BIAS,
    /// The second pixel is pushed toward purple by a fixed amount.
    HUE,
    /// The two pixels are laid over each other at equal weight.
    Overlay,
    /// The two pixels are averaged.
    Identity,
}

/// A value narrowed to the channel range `0..=255`.
pub open spec fn clamp_channel(v: int) -> int {
    if v < 0 {
        0
    } else if v > 255 {
        255
    } else {
        v
    }
}

/// The quotient `n / d` rounded toward zero, for a positive `d`.
pub open spec fn trunc_div(n: int, d: int) -> int {
    if n >= 0 {
        n / d
    } else {
        -((-n) / d)
    }
}

/// A channel value `y` scaled by `1 + bias`, rounded toward zero and
/// narrowed to the channel range.
pub open spec fn biased_channel_spec(y: int, bias: Ratio) -> int {
    clamp_channel(trunc_div(y * (bias.den + bias.num), bias.den))
}

/// The blend of one channel: the average, rounded down, of `x` and of `y`
/// scaled by `1 + bias`.
pub open spec fn blend_channel_spec(x: int, y: int, bias: Ratio) -> int {
    clamp_channel((x + biased_channel_spec(y, bias)) / 2)
}

/// The weighted sum `alpha * x + (1 - alpha) * y` of one channel, rounded
/// toward zero and narrowed to the channel range.
pub open spec fn mix_channel_spec(x: int, y: int, alpha: Ratio) -> int {
    clamp_channel(trunc_div(alpha.num * x + (alpha.den - alpha.num) * y, alpha.den))
}

/// The bias that a channel difference gives: `diff / current * target`.
/// Where `current` is zero nothing can be derived, and the bias is zero.
pub open spec fn bias_from_diff_spec(diff: int, current: int, target: int) -> Ratio {
    if current == 0 {
        Ratio::zero()
    } else {
        Ratio { num: diff * target, den: current }
    }
}

/// The channel-wise blend of two colours under three biases.
pub open spec fn blend_rgb_spec(
    x: (u8, u8, u8),
    y: (u8, u8, u8),
    bias: (Ratio, Ratio, Ratio),
) -> (int, int, int) {
    (
        blend_channel_spec(x.0 as int, y.0 as int, bias.0),
        blend_channel_spec(x.1 as int, y.1 as int, bias.1),
        blend_channel_spec(x.2 as int, y.2 as int, bias.2),
    )
}

/// The channel-wise weighted sum of two colours.
pub open spec fn overlay_spec(x: (u8, u8, u8), y: (u8, u8, u8), alpha: Ratio) -> (int, int, int) {
    (
        mix_channel_spec(x.0 as int, y.0 as int, alpha),
        mix_channel_spec(x.1 as int, y.1 as int, alpha),
        mix_channel_spec(x.2 as int, y.2 as int, alpha),
    )
}

/// The sum of the three channel differences of two colours.
pub open spec fn total_diff_spec(x: (u8, u8, u8), y: (u8, u8, u8)) -> int {
    abs_diff_spec(x.0 as int, y.0 as int) + abs_diff_spec(x.1 as int, y.1 as int) + abs_diff_spec(
        x.2 as int,
        y.2 as int,
    )
}

/// The three biases that a mode applies to the second colour.
/// `Overlay` applies none: it weighs the two colours instead.
pub open spec fn mode_bias_spec(x: (u8, u8, u8), y: (u8, u8, u8), mode: BlendMode) -> (
    Ratio,
    Ratio,
    Ratio,
) {
    match mode {
        BlendMode::BIAS => (
            bias_from_diff_spec(abs_diff_spec(x.0 as int, y.0 as int), y.0 as int, 128),
            bias_from_diff_spec(abs_diff_spec(x.1 as int, y.1 as int), y.1 as int, 0),
            bias_from_diff_spec(abs_diff_spec(x.2 as int, y.2 as int), y.2 as int, 128),
        ),
        BlendMode::HUE => (
            Ratio { num: 3, den: 10 },
            Ratio { num: -3, den: 10 },
            Ratio { num: 3, den: 10 },
        ),
        _ => (Ratio::zero(), Ratio::zero(), Ratio::zero()),
    }
}

/// The colour that a mode gives for two colours.
pub open spec fn blend_mode_rgb_spec(x: (u8, u8, u8), y: (u8, u8, u8), mode: BlendMode) -> (
    int,
    int,
    int,
) {
    match mode {
        BlendMode::Overlay => overlay_spec(x, y, Ratio::half()),
        _ => blend_rgb_spec(x, y, mode_bias_spec(x, y, mode)),
    }
}

/// The blend of two pixels. Two pixels of the same colour give the first
/// one; otherwise the mode decides. Alpha is zero either way.
pub open spec fn blend_pixel_spec(a: Pixel, b: Pixel, mode: BlendMode) -> Pixel {
    if total_diff_spec(a.rgb(), b.rgb()) == 0 {
        Pixel { r: a.r, g: a.g, b: a.b, a: 0 }
    } else {
        let c = blend_mode_rgb_spec(a.rgb(), b.rgb(), mode);
        Pixel { r: c.0 as u8, g: c.1 as u8, b: c.2 as u8, a: 0 }
    }
}

/// The quotient `v / den`, rounded toward zero and narrowed to the channel
/// range.
fn narrow_quotient(v: i64, den: u32) -> (c: u8)
    requires
        den > 0,
    ensures
        c as int == clamp_channel(trunc_div(v as int, den as int)),
{
    if v <= 0 {
        proof {
            let m = -(v as int);
            assert(m / (den as int) >= 0) by (nonlinear_arith)
                requires
                    m >= 0,
                    den > 0,
            ;
            assert(0int / (den as int) == 0) by (nonlinear_arith)
                requires
                    den > 0,
            ;
        }
        0
    } else {
        let q: u64 = (v as u64) / (den as u64);
        if q > 255 {
            255
        } else {
            q as u8
        }
    }
}

/// One channel of the second colour after its bias.
pub fn biased_channel(y: u8, bias: Fraction) -> (c: u8)
    ensures
        c as int == biased_channel_spec(y as int, bias@),
{
    let den: u32 = bias.denominator();
    let weight: i64 = den as i64 + bias.numerator() as i64;
    assert(-0x8000_0000 <= weight <= 0x1_8000_0000);
    assert(-0x80_0000_0000 <= (y as int) * (weight as int) <= 0x1_80_0000_0000)
        by (nonlinear_arith)
        requires
            0 <= y <= 255,
            -0x8000_0000 <= weight <= 0x1_8000_0000,
    ;
    let scaled: i64 = (y as i64) * weight;
    narrow_quotient(scaled, den)
}

/// One channel of a blend: the average of `x` and the biased `y`.
pub fn blend_channel(x: u8, y: u8, bias: Fraction) -> (c: u8)
    ensures
        c as int == blend_channel_spec(x as int, y as int, bias@),
{
    let biased: u8 = biased_channel(y, bias);
    let sum: u16 = x as u16 + biased as u16;
    (sum / 2) as u8
}

/// One channel of an overlay: `alpha * x + (1 - alpha) * y`.
pub fn mix_channel(x: u8, y: u8, alpha: Fraction) -> (c: u8)
    ensures
        c as int == mix_channel_spec(x as int, y as int, alpha@),
{
    let den: u32 = alpha.denominator();
    let num: i64 = alpha.numerator() as i64;
    let rest: i64 = den as i64 - num;
    assert(-0x80_0000_0000 <= (num as int) * (x as int) <= 0x80_0000_0000) by (nonlinear_arith)
        requires
            0 <= x <= 255,
            -0x8000_0000 <= num <= 0x8000_0000,
    ;
    assert(-0x80_0000_0000 <= (rest as int) * (y as int) <= 0x1_80_0000_0000) by (nonlinear_arith)
        requires
            0 <= y <= 255,
            -0x8000_0000 <= rest <= 0x1_8000_0000,
    ;
    let v: i64 = num * (x as i64) + rest * (y as i64);
    narrow_quotient(v, den)
}

/// The bias for a colour channel, from the difference between two pixels.
pub fn get_bias_from_diff(diff: u8, current: u8, target: u8) -> (bias: Fraction)
    ensures
        bias@ == bias_from_diff_spec(diff as int, current as int, target as int),
{
    if current == 0 {
        Fraction::zero()
    } else {
        assert(0 <= (diff as int) * (target as int) <= 255 * 255) by (nonlinear_arith)
            requires
                0 <= diff <= 255,
                0 <= target <= 255,
        ;
        let num: i32 = (diff as i32) * (target as i32);
        Fraction::new(num, current as u32).unwrap()
    }
}

/// Blends two RGB colours: each channel of the second is scaled by one
/// plus its bias, and averaged with the first.
pub fn blend_rgb_pixels(
    pixel_x: (u8, u8, u8),
    pixel_y: (u8, u8, u8),
    rgb_bias: (Fraction, Fraction, Fraction),
) -> (c: (u8, u8, u8))
    ensures
        (c.0 as int, c.1 as int, c.2 as int) == blend_rgb_spec(
            pixel_x,
            pixel_y,
            (rgb_bias.0@, rgb_bias.1@, rgb_bias.2@),
        ),
{
    let (red_x, green_x, blue_x) = pixel_x;
    let (red_y, green_y, blue_y) = pixel_y;
    (
        blend_channel(red_x, red_y, rgb_bias.0),
        blend_channel(green_x, green_y, rgb_bias.1),
        blend_channel(blue_x, blue_y, rgb_bias.2),
    )
}

/// Lays the first colour over the second with weight `alpha`.
pub fn create_overlayed_pixel(
    pixel_x: (u8, u8, u8),
    pixel_y: (u8, u8, u8),
    alpha: Fraction,
) -> (c: (u8, u8, u8))
    ensures
        (c.0 as int, c.1 as int, c.2 as int) == overlay_spec(pixel_x, pixel_y, alpha@),
{
    let (red_x, green_x, blue_x) = pixel_x;
    let (red_y, green_y, blue_y) = pixel_y;
    (
        mix_channel(red_x, red_y, alpha),
        mix_channel(green_x, green_y, alpha),
        mix_channel(blue_x, blue_y, alpha),
    )
}

/// Blends two pixels that share a coordinate. The result keeps the first
/// pixel's coordinate.
pub fn blend_pixel(
    pixel_x: (u32, u32, Pixel),
    pixel_y: (u32, u32, Pixel),
    blend_mode: BlendMode,
) -> (out: (u32, u32, Pixel))
    ensures
        out.0 == pixel_x.0,
        out.1 == pixel_x.1,
        out.2 == blend_pixel_spec(pixel_x.2, pixel_y.2, blend_mode),
{
    let a_rgb = pixel_x.2.to_rgb();
    let b_rgb = pixel_y.2.to_rgb();

    let red_diff = abs_diff(a_rgb.0, b_rgb.0);
    let green_diff = abs_diff(a_rgb.1, b_rgb.1);
    let blue_diff = abs_diff(a_rgb.2, b_rgb.2);

    let total_diff: u16 = red_diff as u16 + green_diff as u16 + blue_diff as u16;

    if total_diff == 0 {
        return (pixel_x.0, pixel_x.1, Pixel { r: a_rgb.0, g: a_rgb.1, b: a_rgb.2, a: 0 });
    }
    let blended = match blend_mode {
        BlendMode::Identity => blend_rgb_pixels(
            a_rgb,
            b_rgb,
            (Fraction::zero(), Fraction::zero(), Fraction::zero()),
        ),
        BlendMode::BIAS => {
            let red_bias = get_bias_from_diff(red_diff, b_rgb.0, 128);
            let green_bias = get_bias_from_diff(green_diff, b_rgb.1, 0);
            let blue_bias = get_bias_from_diff(blue_diff, b_rgb.2, 128);
            blend_rgb_pixels(a_rgb, b_rgb, (red_bias, green_bias, blue_bias))
        },
        BlendMode::HUE => {
            // make more purple
            let up = Fraction::new(3, 10).unwrap();
            let down = Fraction::new(-3, 10).unwrap();
            blend_rgb_pixels(a_rgb, b_rgb, (up, down, up))
        },
        BlendMode::Overlay => create_overlayed_pixel(a_rgb, b_rgb, Fraction::half()),
    };
    (pixel_x.0, pixel_x.1, Pixel { r: blended.0, g: blended.1, b: blended.2, a: 0 })
}

/// The blend of two grids of the same size: pixel by pixel.
pub open spec fn blend_images_spec(a: Grid, b: Grid, mode: BlendMode) -> Grid {
    Grid {
        width: a.width,
        height: a.height,
        pixels: Seq::new(a.pixels.len(), |k: int| blend_pixel_spec(a.pixels[k], b.pixels[k], mode)),
    }
}

/// Blends two images pixel by pixel into a diff image. Images of different
/// sizes are refused.
pub fn blend_images(image1: Image, image2: Image, blend_mode: BlendMode) -> (out: Result<
    Image,
    DiffError,
>)
    ensures
        out is Ok <==> image1@.same_size(image2@),
        out matches Ok(img) ==> img@ == blend_images_spec(
            image1@,
            image2@,
            blend_mode,
        ),
        out matches Err(e) ==> e == DiffError::DimensionMismatch,
{
    if image1.width() != image2.width() || image1.height() != image2.height() {
        return Err(DiffError::DimensionMismatch);
    }
    let a = image1.pixels();
    let b = image2.pixels();
    let count: usize = a.len();
    let mut result: Vec<Pixel> = Vec::new();
    let mut k: usize = 0;
    while k < count
        invariant
            k <= count,
            count == a@.len(),
            count == b@.len(),
            result@.len() == k,
            forall|t: int| 0 <= t < k ==> result@[t] == blend_pixel_spec(a@[t], b@[t], blend_mode),
        decreases count - k,
    {
        let blended = blend_pixel((0, 0, a[k]), (0, 0, b[k]), blend_mode);
        result.push(blended.2);
        k += 1;
    }
    assert(result@ =~= blend_images_spec(image1@, image2@, blend_mode).pixels);
    Ok(Image::new(image1.width(), image1.height(), result).unwrap())
}

/// Blends two images pixel by pixel; the same diff image as
/// [`blend_images`].
pub fn get_diff_from_images(image1: Image, image2: Image, blend_mode: BlendMode) -> (out: Result<
    Image,
    DiffError,
>)
    ensures
        out is Ok <==> image1@.same_size(image2@),
        out matches Ok(img) ==> img@ == blend_images_spec(
            image1@,
            image2@,
            blend_mode,
        ),
        out matches Err(e) ==> e == DiffError::DimensionMismatch,
{
    blend_images(image1, image2, blend_mode)
}

/// Two pixels of one colour blend to the first pixel with alpha zero,
/// whatever the mode.
pub proof fn lemma_equal_colours_blend_to_first(a: Pixel, b: Pixel, mode: BlendMode)
    requires
        total_diff_spec(a.rgb(), b.rgb()) == 0,
    ensures
        a.rgb() == b.rgb(),
        blend_pixel_spec(a, b, mode) == (Pixel { r: a.r, g: a.g, b: a.b, a: 0 }),
{
}

/// A blended pixel has alpha zero, whatever the pixels and the mode.
pub proof fn lemma_blend_clears_alpha(a: Pixel, b: Pixel, mode: BlendMode)
    ensures
        blend_pixel_spec(a, b, mode).a == 0,
{
}

/// The total difference of two colours is zero exactly when they are equal.
pub proof fn lemma_total_diff_zero_iff_equal(x: (u8, u8, u8), y: (u8, u8, u8))
    ensures
        total_diff_spec(x, y) == 0 <==> x == y,
{
}

/// A quotient by itself: `(d * v) / d == v` for a positive `d`.
proof fn lemma_exact_quotient(v: int, d: int)
    requires
        d > 0,
        v >= 0,
    ensures
        (d * v) / d == v,
        (v * d) / d == v,
        d * v >= 0,
{
    assert((d * v) / d == v) by (nonlinear_arith)
        requires
            d > 0,
            v >= 0,
    ;
    assert(v * d == d * v) by (nonlinear_arith);
    assert(d * v >= 0) by (nonlinear_arith)
        requires
            d > 0,
            v >= 0,
    ;
}

/// With a bias of zero a blend is the average of the two colours, each
/// channel rounded down.
pub proof fn lemma_zero_bias_is_average(x: (u8, u8, u8), y: (u8, u8, u8), den: int)
    requires
        den > 0,
    ensures
        blend_rgb_spec(
            x,
            y,
            (Ratio { num: 0, den }, Ratio { num: 0, den }, Ratio { num: 0, den }),
        ) == ((x.0 + y.0) / 2, (x.1 + y.1) / 2, (x.2 + y.2) / 2),
{
    lemma_exact_quotient(y.0 as int, den);
    lemma_exact_quotient(y.1 as int, den);
    lemma_exact_quotient(y.2 as int, den);
}

/// Every blended channel lies in `0..=255`, whatever the bias, and a
/// second channel that its bias scales to 255 or more counts as 255.
pub proof fn lemma_blend_channel_in_range(x: int, y: int, bias: Ratio)
    requires
        0 <= x <= 255,
        0 <= y <= 255,
        bias.den > 0,
    ensures
        0 <= biased_channel_spec(y, bias) <= 255,
        0 <= blend_channel_spec(x, y, bias) <= 255,
        blend_channel_spec(x, y, bias) == (x + biased_channel_spec(y, bias)) / 2,
        y * (bias.den + bias.num) >= 255 * bias.den ==> blend_channel_spec(x, y, bias) == (x + 255)
            / 2,
        y * (bias.den + bias.num) <= 0 ==> blend_channel_spec(x, y, bias) == x / 2,
{
    let n = y * (bias.den + bias.num);
    let d = bias.den;
    if n >= 255 * d {
        assert(n / d >= 255) by (nonlinear_arith)
            requires
                n >= 255 * d,
                d > 0,
        ;
    }
    if n <= 0 {
        let m = -n;
        assert(m / d >= 0) by (nonlinear_arith)
            requires
                m >= 0,
                d > 0,
        ;
        assert(0int / d == 0) by (nonlinear_arith)
            requires
                d > 0,
        ;
    }
}

/// Every overlaid channel lies in `0..=255`, whatever the weight.
pub proof fn lemma_mix_channel_in_range(x: int, y: int, alpha: Ratio)
    requires
        alpha.den > 0,
    ensures
        0 <= mix_channel_spec(x, y, alpha) <= 255,
{
}

/// An overlay with weight zero is the second colour, with weight one the
/// first, and with weight one half their average, each channel rounded
/// down.
pub proof fn lemma_overlay_weights(x: (u8, u8, u8), y: (u8, u8, u8), alpha: Ratio)
    requires
        alpha.den > 0,
    ensures
        alpha.num == 0 ==> overlay_spec(x, y, alpha) == (y.0 as int, y.1 as int, y.2 as int),
        alpha.num == alpha.den ==> overlay_spec(x, y, alpha) == (
            x.0 as int,
            x.1 as int,
            x.2 as int,
        ),
        2 * alpha.num == alpha.den ==> overlay_spec(x, y, alpha) == (
            (x.0 + y.0) / 2,
            (x.1 + y.1) / 2,
            (x.2 + y.2) / 2,
        ),
{
    lemma_mix_weights(x.0 as int, y.0 as int, alpha);
    lemma_mix_weights(x.1 as int, y.1 as int, alpha);
    lemma_mix_weights(x.2 as int, y.2 as int, alpha);
}

/// One channel of [`lemma_overlay_weights`].
pub proof fn lemma_mix_weights(x: int, y: int, alpha: Ratio)
    requires
        alpha.den > 0,
        0 <= x <= 255,
        0 <= y <= 255,
    ensures
        alpha.num == 0 ==> mix_channel_spec(x, y, alpha) == y,
        alpha.num == alpha.den ==> mix_channel_spec(x, y, alpha) == x,
        2 * alpha.num == alpha.den ==> mix_channel_spec(x, y, alpha) == (x + y) / 2,
{
    let n = alpha.num;
    let d = alpha.den;
    let v = n * x + (d - n) * y;
    if n == 0 {
        assert(v == d * y) by (nonlinear_arith)
            requires
                v == n * x + (d - n) * y,
                n == 0,
        ;
        lemma_exact_quotient(y, d);
    }
    if n == d {
        assert(v == d * x) by (nonlinear_arith)
            requires
                v == n * x + (d - n) * y,
                n == d,
        ;
        lemma_exact_quotient(x, d);
    }
    if 2 * n == d {
        assert(v == n * (x + y)) by (nonlinear_arith)
            requires
                v == n * x + (d - n) * y,
                2 * n == d,
        ;
        let s = x + y;
        assert((n * s) / (2 * n) == s / 2 && n * s >= 0) by (nonlinear_arith)
            requires
                n > 0,
                s >= 0,
        ;
    }
}

} // verus!
