use vstd::prelude::*;
use crate::encoding::{base64_bytes, base64_text, encodable_len, encode};
use crate::error::DiffError;
use crate::lcs::{self, full_script, token_texts, EditOp};
use crate::pixel::Pixel;
use crate::raster::{lemma_position_in_grid, lemma_row_in_grid, Grid};

verus! {

/// The raw bytes of a run of pixels: four bytes a pixel, in storage order.
pub open spec fn pixel_bytes(pixels: Seq<Pixel>) -> Seq<u8> {
    Seq::new(4 * pixels.len(), |k: int| pixels[k / 4].channel(k % 4))
}

/// The raw bytes of every row of a grid, from the top row down.
pub open spec fn grid_rows(g: Grid) -> Seq<Seq<u8>> {
    Seq::new(g.height, |y: int| pixel_bytes(g.row(y)))
}

/// Can every row of a grid be encoded? A grid without rows always can.
pub open spec fn rows_encodable(g: Grid) -> bool {
    g.height > 0 ==> encodable_len(4 * g.width)
}

/// An image prepared for a row-by-row comparison: a size and pixels in
/// scan order. Nothing is asked of the pixel count until the rows are
/// encoded.
#[derive(Debug)]
pub struct CompareImage {
    dimensions: (u32, u32),
    pixels: Vec<Pixel>,
}

impl View for CompareImage {
    type V = Grid;

    closed spec fn view(&self) -> Grid {
        Grid {
            width: self.dimensions.0 as nat,
            height: self.dimensions.1 as nat,
            pixels: self.pixels@,
        }
    }
}

impl CompareImage {
    /// An image of the given width and height over the given pixels.
    pub fn new(dimensions: (u32, u32), pixels: Vec<Pixel>) -> (img: CompareImage)
        ensures
            img@ == (Grid {
                width: dimensions.0 as nat,
                height: dimensions.1 as nat,
                pixels: pixels@,
            }),
    {
        CompareImage { dimensions, pixels }
    }

    /// Encodes every row as a token: the base64 text of the row's raw
    /// bytes. Two rows get the same token exactly when their bytes are
    /// the same.
    ///
    /// Pixels that do not fill `width * height` are refused, and so is a
    /// row too long to be encoded.
    pub fn create_encoded_rows(&self) -> (out: Result<Vec<String>, DiffError>)
        ensures
            out is Ok <==> self@.wf() && rows_encodable(self@),
            out matches Err(e) ==> e == (if self@.wf() {
                DiffError::TooLarge
            } else {
                DiffError::MalformedRows
            }),
            out matches Ok(rows) ==> {
                &&& rows@.len() == self@.height
                &&& forall|y: int|
                    0 <= y < rows@.len() ==> {
                        &&& (#[trigger] rows@[y])@ == base64_text(grid_rows(self@)[y])
                        &&& base64_bytes(rows@[y]@) == Some(grid_rows(self@)[y])
                    }
            },
    {
        let width: u32 = self.dimensions.0;
        let height: u32 = self.dimensions.1;
        assert(width * height <= 0xffff_ffff * 0xffff_ffff) by (nonlinear_arith)
            requires
                0 <= width <= 0xffff_ffff,
                0 <= height <= 0xffff_ffff,
        ;
        if self.pixels.len() as u64 != (width as u64) * (height as u64) {
            return Err(DiffError::MalformedRows);
        }
        if height > 0 && (4 * (width as u64)) / 3 > ((isize::MAX as u64) - 4) / 4 {
            return Err(DiffError::TooLarge);
        }
        let ghost g = self@;
        let mut rows: Vec<String> = Vec::new();
        let mut start: usize = 0;
        let mut y: u32 = 0;
        while y < height
            invariant
                y <= height,
                g == self@,
                g.wf(),
                g.width == width,
                g.height == height,
                g.pixels == self.pixels@,
                rows_encodable(g),
                start == y * width,
                rows@.len() == y,
                forall|t: int|
                    0 <= t < y ==> {
                        &&& (#[trigger] rows@[t])@ == base64_text(grid_rows(g)[t])
                        &&& base64_bytes(rows@[t]@) == Some(grid_rows(g)[t])
                    },
            decreases height - y,
        {
            let mut row: Vec<u8> = Vec::new();
            let mut x: u32 = 0;
            while x < width
                invariant
                    x <= width,
                    y < height,
                    g == self@,
                    g.wf(),
                    g.width == width,
                    g.height == height,
                    g.pixels == self.pixels@,
                    start == y * width,
                    row@.len() == 4 * x,
                    forall|k: int|
                        0 <= k < 4 * x ==> #[trigger] row@[k] == g.pixels[start + k / 4].channel(
                            k % 4,
                        ),
                decreases width - x,
            {
                proof {
                    lemma_position_in_grid(g.width, g.height, x as int, y as int);
                    assert(self.pixels@.len() == self.pixels.len());
                }
                let pixel = self.pixels[start + x as usize];
                row.push(pixel.r);
                row.push(pixel.g);
                row.push(pixel.b);
                row.push(pixel.a);
                x += 1;
            }
            proof {
                lemma_row_in_grid(g.width, g.height, y as int);
                assert(self.pixels@.len() == self.pixels.len());
                assert(row@ =~= grid_rows(g)[y as int]);
            }
            rows.push(encode(&row));
            start += width as usize;
            y += 1;
        }
        Ok(rows)
    }
}

/// Computes the edit script that turns the rows of the first image into
/// the rows of the second. Rows are compared by their raw bytes.
///
/// Fails where either image cannot be encoded row by row; the first
/// image is looked at first.
pub fn diff(imga: CompareImage, imgb: CompareImage) -> (out: Result<Vec<EditOp>, DiffError>)
    ensures
        out is Ok <==> imga@.wf() && rows_encodable(imga@) && imgb@.wf() && rows_encodable(imgb@),
        out matches Ok(script) ==> script@ == full_script(grid_rows(imga@), grid_rows(imgb@)),
        out matches Err(e) ==> e == (if !imga@.wf() {
            DiffError::MalformedRows
        } else if !rows_encodable(imga@) {
            DiffError::TooLarge
        } else if !imgb@.wf() {
            DiffError::MalformedRows
        } else {
            DiffError::TooLarge
        }),
{
    let rows_a = match imga.create_encoded_rows() {
        Ok(rows) => rows,
        Err(e) => {
            return Err(e);
        },
    };
    let rows_b = match imgb.create_encoded_rows() {
        Ok(rows) => rows,
        Err(e) => {
            return Err(e);
        },
    };
    let script = lcs::diff(&rows_a, &rows_b);
    proof {
        lemma_tokens_compare_as_rows(rows_a@, grid_rows(imga@), rows_b@, grid_rows(imgb@));
    }
    Ok(script)
}

/// Tokens that decode to the rows they were made from are equal exactly
/// where the rows are, so that their script is the script of the rows.
pub proof fn lemma_tokens_compare_as_rows(
    tokens_a: Seq<String>,
    rows_a: Seq<Seq<u8>>,
    tokens_b: Seq<String>,
    rows_b: Seq<Seq<u8>>,
)
    requires
        tokens_a.len() == rows_a.len(),
        tokens_b.len() == rows_b.len(),
        forall|y: int|
            0 <= y < tokens_a.len() ==> {
                &&& (#[trigger] tokens_a[y])@ == base64_text(rows_a[y])
                &&& base64_bytes(tokens_a[y]@) == Some(rows_a[y])
            },
        forall|y: int|
            0 <= y < tokens_b.len() ==> {
                &&& (#[trigger] tokens_b[y])@ == base64_text(rows_b[y])
                &&& base64_bytes(tokens_b[y]@) == Some(rows_b[y])
            },
    ensures
        full_script(token_texts(tokens_a), token_texts(tokens_b)) == full_script(rows_a, rows_b),
{
    let ta = token_texts(tokens_a);
    let tb = token_texts(tokens_b);
    assert forall|p: int, q: int| 0 <= p < ta.len() && 0 <= q < tb.len() implies ((#[trigger] ta[p]
        == #[trigger] tb[q]) <==> rows_a[p] == rows_b[q]) by {
        assert(ta[p] == tokens_a[p]@);
        assert(tb[q] == tokens_b[q]@);
    }
    lcs::lemma_script_of_same_equalities(ta, tb, rows_a, rows_b, ta.len() as int, tb.len() as int);
}

} // verus!
