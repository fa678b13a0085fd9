use vstd::prelude::*;
use crate::error::DiffError;
use crate::pixel::Pixel;
use crate::raster::{Grid, Image};
use crate::utils::{abs_diff, abs_diff_spec};

verus! {

/// How far two images are apart, as an exact quotient: the sum of all
/// channel differences over the largest sum that is possible.
///
/// The ratio is `total_diff / total_possible`. For two images without
/// pixels both are zero, and the ratio has no value.
#[derive(Copy, Clone, Debug, PartialEq, Eq, Structural)]
pub struct DiffRatio {
    pub total_diff: u128,
    pub total_possible: u128,
}

/// The red, green and blue bytes of a pixel sequence in scan order;
/// alpha is left out.
pub open spec fn raw_rgb(pixels: Seq<Pixel>) -> Seq<u8> {
    Seq::new(
        3 * pixels.len(),
        |k: int|
            if k % 3 == 0 {
                pixels[k / 3].r
            } else if k % 3 == 1 {
                pixels[k / 3].g
            } else {
                pixels[k / 3].b
            },
    )
}

/// The sum of `|a[k] - b[k]|` over the first `n` bytes.
pub open spec fn sum_abs_diff(a: Seq<u8>, b: Seq<u8>, n: int) -> int
    decreases n,
{
    if n <= 0 {
        0
    } else {
        sum_abs_diff(a, b, n - 1) + abs_diff_spec(a[n - 1] as int, b[n - 1] as int)
    }
}

/// The sum of all channel differences of two grids with as many pixels.
pub open spec fn total_diff_of(a: Grid, b: Grid) -> int {
    sum_abs_diff(raw_rgb(a.pixels), raw_rgb(b.pixels), (3 * a.pixels.len()) as int)
}

/// The largest sum of channel differences that a grid allows.
pub open spec fn total_possible_of(a: Grid) -> int {
    255 * ((3 * a.pixels.len()) as int)
}

/// A sum of differences is at most 255 a byte, and never negative.
pub proof fn lemma_sum_abs_diff_bound(a: Seq<u8>, b: Seq<u8>, n: int)
    requires
        0 <= n,
    ensures
        0 <= sum_abs_diff(a, b, n) <= 255 * n,
    decreases n,
{
    if n > 0 {
        lemma_sum_abs_diff_bound(a, b, n - 1);
    }
}

/// The colour bytes of an image, in scan order.
pub fn get_raw_pixels(image: &Image) -> (raw: Vec<u8>)
    ensures
        raw@ == raw_rgb(image@.pixels),
{
    let pixels = image.pixels();
    let mut raw: Vec<u8> = Vec::new();
    let mut k: usize = 0;
    while k < pixels.len()
        invariant
            k <= pixels.len(),
            raw@ == raw_rgb(pixels@.subrange(0, k as int)),
        decreases pixels.len() - k,
    {
        let rgb = pixels[k].to_rgb();
        raw.push(rgb.0);
        raw.push(rgb.1);
        raw.push(rgb.2);
        k += 1;
        assert(raw@ =~= raw_rgb(pixels@.subrange(0, k as int)));
    }
    assert(pixels@.subrange(0, k as int) =~= pixels@);
    raw
}

/// Measures how far two images of the same size are apart. Images of
/// different sizes are refused.
pub fn calculate_diff_ratio(image1: Image, image2: Image) -> (out: Result<DiffRatio, DiffError>)
    ensures
        out is Ok <==> image1@.same_size(image2@),
        out matches Ok(ratio) ==> {
            &&& ratio.total_diff == total_diff_of(image1@, image2@)
            &&& ratio.total_possible == total_possible_of(image1@)
            &&& ratio.total_diff <= ratio.total_possible
        },
        out matches Err(e) ==> e == DiffError::DimensionMismatch,
{
    if image1.width() != image2.width() || image1.height() != image2.height() {
        return Err(DiffError::DimensionMismatch);
    }
    proof {
        use_type_invariant(&image1);
        use_type_invariant(&image2);
        image1.lemma_wf();
        image2.lemma_wf();
    }
    let image1_raw = get_raw_pixels(&image1);
    let image2_raw = get_raw_pixels(&image2);
    let count: usize = image1_raw.len();
    // All channels hold an 8-bit value
    let total_possible: u128 = 255 * (count as u128);
    let mut total: u128 = 0;
    let mut k: usize = 0;
    while k < count
        invariant
            k <= count,
            count == image1_raw@.len(),
            count == image2_raw@.len(),
            total == sum_abs_diff(image1_raw@, image2_raw@, k as int),
        decreases count - k,
    {
        proof {
            lemma_sum_abs_diff_bound(image1_raw@, image2_raw@, k as int);
        }
        total = total + abs_diff(image1_raw[k], image2_raw[k]) as u128;
        k += 1;
    }
    proof {
        lemma_sum_abs_diff_bound(image1_raw@, image2_raw@, count as int);
    }
    Ok(DiffRatio { total_diff: total, total_possible })
}

/// An image is at no distance from itself.
pub proof fn lemma_ratio_of_same_image(a: Grid)
    ensures
        total_diff_of(a, a) == 0,
{
    lemma_same_bytes_sum(raw_rgb(a.pixels), (3 * a.pixels.len()) as int);
}

/// The differences of a byte sequence with itself sum to zero.
proof fn lemma_same_bytes_sum(a: Seq<u8>, n: int)
    ensures
        sum_abs_diff(a, a, n) == 0,
    decreases n,
{
    if n > 0 {
        lemma_same_bytes_sum(a, n - 1);
    }
}

/// The distance between two images does not depend on their order.
pub proof fn lemma_ratio_is_symmetric(a: Grid, b: Grid)
    requires
        a.pixels.len() == b.pixels.len(),
    ensures
        total_diff_of(a, b) == total_diff_of(b, a),
        total_possible_of(a) == total_possible_of(b),
{
    lemma_sum_is_symmetric(raw_rgb(a.pixels), raw_rgb(b.pixels), (3 * a.pixels.len()) as int);
}

/// A sum of differences does not depend on the order of the two sequences.
proof fn lemma_sum_is_symmetric(a: Seq<u8>, b: Seq<u8>, n: int)
    ensures
        sum_abs_diff(a, b, n) == sum_abs_diff(b, a, n),
    decreases n,
{
    if n > 0 {
        lemma_sum_is_symmetric(a, b, n - 1);
    }
}

/// Is every pixel of the grid of this colour, whatever its alpha?
pub open spec fn all_of_colour(a: Grid, colour: (u8, u8, u8)) -> bool {
    forall|k: int| 0 <= k < a.pixels.len() ==> (#[trigger] a.pixels[k]).rgb() == colour
}

/// An all-black and an all-white image of the same size are as far apart
/// as two images can be: the ratio is one.
pub proof fn lemma_black_against_white(a: Grid, b: Grid)
    requires
        a.pixels.len() == b.pixels.len(),
        all_of_colour(a, (0u8, 0u8, 0u8)),
        all_of_colour(b, (255u8, 255u8, 255u8)),
    ensures
        total_diff_of(a, b) == total_possible_of(a),
{
    lemma_extreme_bytes_sum(a.pixels, b.pixels, (3 * a.pixels.len()) as int);
}

/// The differences of black bytes and white bytes sum to 255 a byte.
proof fn lemma_extreme_bytes_sum(a: Seq<Pixel>, b: Seq<Pixel>, n: int)
    requires
        a.len() == b.len(),
        0 <= n <= 3 * a.len(),
        forall|k: int| 0 <= k < a.len() ==> (#[trigger] a[k]).rgb() == (0u8, 0u8, 0u8),
        forall|k: int| 0 <= k < b.len() ==> (#[trigger] b[k]).rgb() == (255u8, 255u8, 255u8),
    ensures
        sum_abs_diff(raw_rgb(a), raw_rgb(b), n) == 255 * n,
    decreases n,
{
    if n > 0 {
        lemma_extreme_bytes_sum(a, b, n - 1);
        let p = a[(n - 1) / 3];
        let q = b[(n - 1) / 3];
        assert(p.rgb() == (0u8, 0u8, 0u8));
        assert(q.rgb() == (255u8, 255u8, 255u8));
    }
}

} // verus!
