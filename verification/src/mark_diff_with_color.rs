use vstd::prelude::*;
use crate::error::DiffError;
use crate::pixel::Pixel;
use crate::raster::{Grid, Image};

verus! {

/// The highlighted pixel: the mark colour where the two source pixels
/// differ in red, green or blue, and the first pixel as it is where they
/// do not. Alpha plays no part in the comparison.
pub open spec fn highlight_pixel_spec(a: Pixel, b: Pixel, color: Pixel) -> Pixel {
    if a.rgb() != b.rgb() {
        color
    } else {
        a
    }
}

/// The highlighted image of two grids of the same size.
pub open spec fn highlight_spec(a: Grid, b: Grid, color: Pixel) -> Grid {
    Grid {
        width: a.width,
        height: a.height,
        pixels: Seq::new(
            a.pixels.len(),
            |k: int| highlight_pixel_spec(a.pixels[k], b.pixels[k], color),
        ),
    }
}

/// Marks every pixel of `before` that differs from the pixel of `after` at
/// the same place with `color`. Images of different sizes are refused.
pub fn highlight_changes_with_color(before: Image, after: Image, color: Pixel) -> (out: Result<
    Image,
    DiffError,
>)
    ensures
        out is Ok <==> before@.same_size(after@),
        out matches Ok(img) ==> img@ == highlight_spec(before@, after@, color),
        out matches Err(e) ==> e == DiffError::DimensionMismatch,
{
    if before.width() != after.width() || before.height() != after.height() {
        return Err(DiffError::DimensionMismatch);
    }
    let a = before.pixels();
    let b = after.pixels();
    let count: usize = a.len();
    let mut result: Vec<Pixel> = Vec::new();
    let mut k: usize = 0;
    while k < count
        invariant
            k <= count,
            count == a@.len(),
            count == b@.len(),
            result@.len() == k,
            forall|t: int|
                0 <= t < k ==> result@[t] == highlight_pixel_spec(a@[t], b@[t], color),
        decreases count - k,
    {
        let pa = a[k];
        let pb = b[k];
        let marked = if pa.r != pb.r || pa.g != pb.g || pa.b != pb.b {
            color
        } else {
            pa
        };
        result.push(marked);
        k += 1;
    }
    assert(result@ =~= highlight_spec(before@, after@, color).pixels);
    Ok(Image::new(before.width(), before.height(), result).unwrap())
}

/// Marks every changed pixel with `hue`; the same comparison as
/// [`highlight_changes_with_color`].
pub fn mark_diff_with_color(image1: Image, image2: Image, hue: Pixel) -> (out: Result<
    Image,
    DiffError,
>)
    ensures
        out is Ok <==> image1@.same_size(image2@),
        out matches Ok(img) ==> img@ == highlight_spec(image1@, image2@, hue),
        out matches Err(e) ==> e == DiffError::DimensionMismatch,
{
    highlight_changes_with_color(image1, image2, hue)
}

/// An image highlighted against itself is that image: no pixel is marked.
pub proof fn lemma_highlight_of_same_image(a: Grid, color: Pixel)
    ensures
        highlight_spec(a, a, color) == a,
{
    assert(highlight_spec(a, a, color).pixels =~= a.pixels);
}

} // verus!
