use vstd::prelude::*;
use crate::blend_diff::{lemma_mix_weights, mix_channel, mix_channel_spec};
use crate::diff::{
    grid_rows, lemma_tokens_compare_as_rows, pixel_bytes, rows_encodable, CompareImage,
};
use crate::encoding::{base64_bytes, decode};
use crate::error::DiffError;
use crate::fraction::{Fraction, Ratio};
use crate::lcs::{
    self, added_rows, all_unchanged, full_script, lemma_identical_rows_are_unchanged,
    lemma_one_inserted_row, lemma_script_is_sound, one_added, op_fits, removed_rows, run_start,
    EditOp,
};
use crate::pixel::Pixel;
use crate::raster::{lemma_position_in_grid, lemma_row_in_grid, Grid, Image};

verus! {

/// The colour that unchanged rows are mixed with, at rate zero.
pub const BLACK: (u8, u8, u8) = (0, 0, 0);

/// The colour that marks removed rows.
pub const RED: (u8, u8, u8) = (255, 119, 119);

/// The colour that marks added rows.
pub const GREEN: (u8, u8, u8) = (99, 195, 99);

/// The mix rate that is used where none is chosen: 100 / 256.
pub fn default_rate() -> (rate: Fraction)
    ensures
        rate@ == (Ratio { num: 100, den: 256 }),
{
    Fraction::new(100, 256).unwrap()
}

/// A pixel mixed toward a marker colour: each colour channel becomes
/// `pixel * (1 - rate) + marker * rate`; alpha stays.
pub open spec fn mark_pixel_spec(pixel: Pixel, color: (u8, u8, u8), rate: Ratio) -> Pixel {
    Pixel {
        r: mix_channel_spec(color.0 as int, pixel.r as int, rate) as u8,
        g: mix_channel_spec(color.1 as int, pixel.g as int, rate) as u8,
        b: mix_channel_spec(color.2 as int, pixel.b as int, rate) as u8,
        a: pixel.a,
    }
}

/// A grid with every pixel of row `y` marked.
pub open spec fn mark_row_spec(g: Grid, y: int, color: (u8, u8, u8), rate: Ratio) -> Grid {
    Grid {
        width: g.width,
        height: g.height,
        pixels: Seq::new(
            g.pixels.len(),
            |k: int|
                if y * g.width <= k < y * g.width + g.width {
                    mark_pixel_spec(g.pixels[k], color, rate)
                } else {
                    g.pixels[k]
                },
        ),
    }
}

/// A grid with the listed rows marked, one after the other. A row that is
/// listed twice is marked twice.
pub open spec fn mark_rows_spec(g: Grid, rows: Seq<usize>, color: (u8, u8, u8), rate: Ratio) -> Grid
    decreases rows.len(),
{
    if rows.len() == 0 {
        g
    } else {
        mark_row_spec(
            mark_rows_spec(g, rows.drop_last(), color, rate),
            rows.last() as int,
            color,
            rate,
        )
    }
}

/// Does every listed row exist in an image of this height?
pub open spec fn rows_exist(rows: Seq<usize>, height: nat) -> bool {
    forall|k: int| 0 <= k < rows.len() ==> #[trigger] rows[k] < height
}

/// Mixes a pixel toward a marker colour.
pub fn mark_pixel(pixel: Pixel, color: (u8, u8, u8), rate: Fraction) -> (out: Pixel)
    ensures
        out == mark_pixel_spec(pixel, color, rate@),
{
    Pixel {
        r: mix_channel(color.0, pixel.r, rate),
        g: mix_channel(color.1, pixel.g, rate),
        b: mix_channel(color.2, pixel.b, rate),
        a: pixel.a,
    }
}

/// Marks the listed rows of an image in place, by mixing every pixel of
/// each toward `color`. Where a listed row does not exist the image stays
/// as it is.
pub fn mark_org_image(
    base: &mut Image,
    color: (u8, u8, u8),
    rate: Fraction,
    indexes: &Vec<usize>,
) -> (out: Result<(), DiffError>)
    ensures
        out is Ok <==> rows_exist(indexes@, old(base)@.height),
        out is Ok ==> final(base)@ == mark_rows_spec(old(base)@, indexes@, color, rate@),
        out matches Err(e) ==> e == DiffError::InvalidScript && final(base)@ == old(base)@,
{
    let ghost initial = base@;
    let width: u32 = base.width();
    let height: u32 = base.height();
    let count: usize = indexes.len();
    let mut i: usize = 0;
    while i < count
        invariant
            i <= count,
            count == indexes@.len(),
            initial == base@,
            initial == old(base)@,
            initial.height == height,
            forall|k: int| 0 <= k < i ==> #[trigger] indexes@[k] < height,
        decreases count - i,
    {
        if indexes[i] >= height as usize {
            assert(!(indexes@[i as int] < initial.height));
            return Err(DiffError::InvalidScript);
        }
        i += 1;
    }
    proof {
        use_type_invariant(&*base);
        base.lemma_wf();
    }
    let mut i: usize = 0;
    while i < count
        invariant
            i <= count,
            count == indexes@.len(),
            rows_exist(indexes@, height as nat),
            initial == old(base)@,
            initial.wf(),
            initial.width == width,
            initial.height == height,
            base@ == mark_rows_spec(initial, indexes@.subrange(0, i as int), color, rate@),
            base@.width == width,
            base@.height == height,
            base@.pixels.len() == initial.pixels.len(),
        decreases count - i,
    {
        let row: u32 = indexes[i] as u32;
        let ghost above = base@;
        let mut x: u32 = 0;
        while x < width
            invariant
                x <= width,
                row < height,
                above.width == width,
                above.height == height,
                above.pixels.len() == width * height,
                base@.width == width,
                base@.height == height,
                base@.pixels =~= Seq::new(
                    above.pixels.len(),
                    |k: int|
                        if row * width <= k < row * width + x {
                            mark_pixel_spec(above.pixels[k], color, rate@)
                        } else {
                            above.pixels[k]
                        },
                ),
            decreases width - x,
        {
            proof {
                lemma_position_in_grid(width as nat, height as nat, x as int, row as int);
            }
            let pixel = base.get_pixel(x, row).unwrap();
            let marked = mark_pixel(pixel, color, rate);
            base.put_pixel(x, row, marked);
            x += 1;
        }
        proof {
            let listed = indexes@.subrange(0, i + 1);
            assert(listed.drop_last() =~= indexes@.subrange(0, i as int));
            assert(listed.last() == indexes@[i as int]);
            assert(base@.pixels =~= mark_row_spec(above, row as int, color, rate@).pixels);
        }
        i += 1;
    }
    assert(indexes@.subrange(0, count as int) =~= indexes@);
    Ok(())
}

/// The pixels that a byte string holds, four bytes a pixel.
pub open spec fn bytes_pixels(bytes: Seq<u8>) -> Seq<Pixel> {
    Seq::new(
        bytes.len() / 4,
        |k: int|
            Pixel {
                r: bytes[4 * k],
                g: bytes[4 * k + 1],
                b: bytes[4 * k + 2],
                a: bytes[4 * k + 3],
            },
    )
}

/// The row of `width` pixels that a token stands for; nothing where the
/// token is no base64 text, or does not hold `width` whole pixels.
pub open spec fn token_row(text: Seq<char>, width: nat) -> Option<Seq<Pixel>> {
    match base64_bytes(text) {
        Some(bytes) => if bytes.len() == 4 * width {
            Some(bytes_pixels(bytes))
        } else {
            None
        },
        None => None,
    }
}

/// The rows that a list of tokens stands for, each `width` pixels wide.
pub open spec fn token_rows(tokens: Seq<String>, width: nat) -> Seq<Option<Seq<Pixel>>> {
    Seq::new(tokens.len(), |k: int| token_row(tokens[k]@, width))
}

/// A row widened to `width` pixels; the pixels that it lacks are black
/// and fully transparent.
pub open spec fn padded_row(row: Seq<Pixel>, width: nat) -> Seq<Pixel> {
    Seq::new(
        width,
        |x: int|
            if x < row.len() {
                row[x]
            } else {
                Pixel { r: 0, g: 0, b: 0, a: 0 }
            },
    )
}

/// A row with every pixel marked.
pub open spec fn marked_row(row: Seq<Pixel>, color: (u8, u8, u8), rate: Ratio) -> Seq<Pixel> {
    Seq::new(row.len(), |x: int| mark_pixel_spec(row[x], color, rate))
}

/// The row of the diff image that one step of a script gives.
///
/// An unchanged row is shown as the old row. A removed row is the old
/// row marked red, an added row the new row marked green. A row that is
/// narrower than the diff image is widened first. A step that names a
/// missing row, or a row that could not be read, gives an error.
pub open spec fn step_row(
    op: EditOp,
    old_rows: Seq<Option<Seq<Pixel>>>,
    new_rows: Seq<Option<Seq<Pixel>>>,
    width: nat,
    rate: Ratio,
) -> Result<Seq<Pixel>, DiffError> {
    match op {
        EditOp::Unchanged(p, q) => if p >= old_rows.len() || q >= new_rows.len() {
            Err(DiffError::InvalidScript)
        } else {
            match old_rows[p as int] {
                Some(row) => Ok(padded_row(row, width)),
                None => Err(DiffError::MalformedRows),
            }
        },
        EditOp::Removed(p) => if p >= old_rows.len() {
            Err(DiffError::InvalidScript)
        } else {
            match old_rows[p as int] {
                Some(row) => Ok(marked_row(padded_row(row, width), RED, rate)),
                None => Err(DiffError::MalformedRows),
            }
        },
        EditOp::Added(q) => if q >= new_rows.len() {
            Err(DiffError::InvalidScript)
        } else {
            match new_rows[q as int] {
                Some(row) => Ok(marked_row(padded_row(row, width), GREEN, rate)),
                None => Err(DiffError::MalformedRows),
            }
        },
    }
}

/// The pixels of the first `n` rows of the diff image, in scan order, or
/// the error of the first step that has one.
pub open spec fn steps_pixels(
    script: Seq<EditOp>,
    n: int,
    old_rows: Seq<Option<Seq<Pixel>>>,
    new_rows: Seq<Option<Seq<Pixel>>>,
    width: nat,
    rate: Ratio,
) -> Result<Seq<Pixel>, DiffError>
    decreases n,
{
    if n <= 0 {
        Ok(Seq::empty())
    } else {
        match steps_pixels(script, n - 1, old_rows, new_rows, width, rate) {
            Err(e) => Err(e),
            Ok(above) => match step_row(script[n - 1], old_rows, new_rows, width, rate) {
                Err(e) => Err(e),
                Ok(row) => Ok(above + row),
            },
        }
    }
}

/// The larger of two widths.
pub open spec fn wider(a: nat, b: nat) -> nat {
    if a >= b {
        a
    } else {
        b
    }
}

/// Can a diff image of this width, with a row for every step, be held?
pub open spec fn diff_image_fits(width: nat, steps: nat) -> bool {
    steps <= u32::MAX && width * steps <= usize::MAX
}

/// Every row of a diff image is as wide as the image.
pub proof fn lemma_steps_pixels_len(
    script: Seq<EditOp>,
    n: int,
    old_rows: Seq<Option<Seq<Pixel>>>,
    new_rows: Seq<Option<Seq<Pixel>>>,
    width: nat,
    rate: Ratio,
)
    requires
        0 <= n <= script.len(),
    ensures
        steps_pixels(script, n, old_rows, new_rows, width, rate) matches Ok(pixels)
            ==> pixels.len() == width * n,
    decreases n,
{
    if n > 0 {
        lemma_steps_pixels_len(script, n - 1, old_rows, new_rows, width, rate);
        assert(width * n == width * (n - 1) + width) by (nonlinear_arith);
        lemma_step_row_len(script[n - 1], old_rows, new_rows, width, rate);
    } else {
        assert(width * n == 0) by (nonlinear_arith)
            requires
                n == 0,
        ;
    }
}

/// A row of a diff image is as wide as the image.
pub proof fn lemma_step_row_len(
    op: EditOp,
    old_rows: Seq<Option<Seq<Pixel>>>,
    new_rows: Seq<Option<Seq<Pixel>>>,
    width: nat,
    rate: Ratio,
)
    ensures
        step_row(op, old_rows, new_rows, width, rate) matches Ok(row) ==> row.len() == width,
{
}

/// Reads a row of `width` pixels back from its token.
pub fn decode_row(token: &String, width: u32) -> (out: Result<Vec<Pixel>, DiffError>)
    ensures
        out is Ok <==> token_row(token@, width as nat) is Some,
        out matches Ok(row) ==> Some(row@) == token_row(token@, width as nat),
        out matches Err(e) ==> e == DiffError::MalformedRows,
{
    let bytes = match decode(token.as_str()) {
        Ok(bytes) => bytes,
        Err(_) => {
            return Err(DiffError::MalformedRows);
        },
    };
    if bytes.len() as u64 != 4 * (width as u64) {
        return Err(DiffError::MalformedRows);
    }
    let mut row: Vec<Pixel> = Vec::new();
    let mut k: usize = 0;
    while k < width as usize
        invariant
            k <= width,
            bytes.len() == 4 * width,
            row@.len() == k,
            forall|t: int| 0 <= t < k ==> #[trigger] row@[t] == bytes_pixels(bytes@)[t],
        decreases width - k,
    {
        let at: usize = 4 * k;
        row.push(Pixel { r: bytes[at], g: bytes[at + 1], b: bytes[at + 2], a: bytes[at + 3] });
        k += 1;
    }
    assert(row@ =~= bytes_pixels(bytes@));
    Ok(row)
}

/// Appends one row of the diff image: `row` widened to `width` pixels,
/// each mixed toward `color`.
pub fn put_diff_pixels(
    pixels: &mut Vec<Pixel>,
    row: &Vec<Pixel>,
    width: u32,
    color: (u8, u8, u8),
    rate: Fraction,
)
    ensures
        final(pixels)@ == old(pixels)@ + marked_row(padded_row(row@, width as nat), color, rate@),
{
    let ghost target = marked_row(padded_row(row@, width as nat), color, rate@);
    let mut x: u32 = 0;
    while x < width
        invariant
            x <= width,
            target == marked_row(padded_row(row@, width as nat), color, rate@),
            pixels@ =~= old(pixels)@ + target.subrange(0, x as int),
        decreases width - x,
    {
        let pixel = if (x as usize) < row.len() {
            row[x as usize]
        } else {
            Pixel { r: 0, g: 0, b: 0, a: 0 }
        };
        pixels.push(mark_pixel(pixel, color, rate));
        x += 1;
    }
    assert(target.subrange(0, width as int) =~= target);
}

/// The diff image that a script gives over two lists of rows: as wide as
/// the wider of the two images, with one row for every step.
pub open spec fn diff_image_spec(
    script: Seq<EditOp>,
    old_rows: Seq<Option<Seq<Pixel>>>,
    new_rows: Seq<Option<Seq<Pixel>>>,
    before_width: nat,
    after_width: nat,
    rate: Ratio,
) -> Result<Grid, DiffError> {
    let width = wider(before_width, after_width);
    if !diff_image_fits(width, script.len()) {
        Err(DiffError::TooLarge)
    } else {
        match steps_pixels(script, script.len() as int, old_rows, new_rows, width, rate) {
            Err(e) => Err(e),
            Ok(pixels) => Ok(Grid { width, height: script.len(), pixels }),
        }
    }
}

/// Once a step has an error, every longer run of steps has that error.
pub proof fn lemma_steps_error_persists(
    script: Seq<EditOp>,
    m: int,
    n: int,
    old_rows: Seq<Option<Seq<Pixel>>>,
    new_rows: Seq<Option<Seq<Pixel>>>,
    width: nat,
    rate: Ratio,
)
    requires
        0 <= m <= n,
        steps_pixels(script, m, old_rows, new_rows, width, rate) is Err,
    ensures
        steps_pixels(script, n, old_rows, new_rows, width, rate) == steps_pixels(
            script,
            m,
            old_rows,
            new_rows,
            width,
            rate,
        ),
    decreases n - m,
{
    if n > m {
        lemma_steps_error_persists(script, m, n - 1, old_rows, new_rows, width, rate);
    }
}

/// A pixel marked at rate zero is the pixel itself, whatever the colour.
pub proof fn lemma_mark_at_rate_zero(pixel: Pixel, color: (u8, u8, u8))
    ensures
        mark_pixel_spec(pixel, color, Ratio::zero()) == pixel,
{
    lemma_mix_weights(color.0 as int, pixel.r as int, Ratio::zero());
    lemma_mix_weights(color.1 as int, pixel.g as int, Ratio::zero());
    lemma_mix_weights(color.2 as int, pixel.b as int, Ratio::zero());
}

/// A row marked at rate zero is the row itself.
pub proof fn lemma_row_marked_at_rate_zero(row: Seq<Pixel>, color: (u8, u8, u8))
    ensures
        marked_row(row, color, Ratio::zero()) == row,
{
    assert forall|x: int| 0 <= x < row.len() implies #[trigger] marked_row(
        row,
        color,
        Ratio::zero(),
    )[x] == row[x] by {
        lemma_mark_at_rate_zero(row[x], color);
    }
    assert(marked_row(row, color, Ratio::zero()) =~= row);
}

/// Builds the diff image of a script over the tokens of two images, the
/// old one `before_width` pixels wide and the new one `after_width`.
///
/// The image has a row for every step, in the order of the steps, and is
/// as wide as the wider of the two images. An unchanged row is the old
/// row as it is, a removed row the old row mixed toward red, an added row
/// the new row mixed toward green, each at `rate`. A row of the narrower
/// image is filled up with transparent black before it is mixed.
///
/// A script too long for an image is refused first; then the first step
/// that names a missing row, or a token that does not hold a row of its
/// image's width, decides the error.
pub fn get_diff_image(
    before_width: u32,
    after_width: u32,
    old_rows: &Vec<String>,
    new_rows: &Vec<String>,
    script: &Vec<EditOp>,
    rate: Fraction,
) -> (out: Result<Image, DiffError>)
    ensures
        match out {
            Ok(img) => diff_image_spec(
                script@,
                token_rows(old_rows@, before_width as nat),
                token_rows(new_rows@, after_width as nat),
                before_width as nat,
                after_width as nat,
                rate@,
            ) == Ok::<Grid, DiffError>(img@),
            Err(e) => diff_image_spec(
                script@,
                token_rows(old_rows@, before_width as nat),
                token_rows(new_rows@, after_width as nat),
                before_width as nat,
                after_width as nat,
                rate@,
            ) == Err::<Grid, DiffError>(e),
        },
{
    let width: u32 = if before_width >= after_width {
        before_width
    } else {
        after_width
    };
    let steps: usize = script.len();
    if steps as u64 > u32::MAX as u64 {
        return Err(DiffError::TooLarge);
    }
    assert(width * steps <= 0xffff_ffff * 0xffff_ffff) by (nonlinear_arith)
        requires
            0 <= width <= 0xffff_ffff,
            0 <= steps <= 0xffff_ffff,
    ;
    if (width as u64) * (steps as u64) > usize::MAX as u64 {
        return Err(DiffError::TooLarge);
    }
    let ghost olds = token_rows(old_rows@, before_width as nat);
    let ghost news = token_rows(new_rows@, after_width as nat);
    let mut pixels: Vec<Pixel> = Vec::new();
    let mut y: usize = 0;
    while y < steps
        invariant
            y <= steps,
            steps == script@.len(),
            olds == token_rows(old_rows@, before_width as nat),
            news == token_rows(new_rows@, after_width as nat),
            width == wider(before_width as nat, after_width as nat),
            diff_image_fits(width as nat, steps as nat),
            steps_pixels(script@, y as int, olds, news, width as nat, rate@) == Ok::<
                Seq<Pixel>,
                DiffError,
            >(pixels@),
        decreases steps - y,
    {
        let ghost above = pixels@;
        let op = script[y];
        let step: Result<(), DiffError> = match op {
            EditOp::Unchanged(p, q) => {
                if p >= old_rows.len() || q >= new_rows.len() {
                    Err(DiffError::InvalidScript)
                } else {
                    match decode_row(&old_rows[p], before_width) {
                        Ok(row) => {
                            proof {
                                lemma_row_marked_at_rate_zero(
                                    padded_row(row@, width as nat),
                                    BLACK,
                                );
                            }
                            put_diff_pixels(&mut pixels, &row, width, BLACK, Fraction::zero());
                            Ok(())
                        },
                        Err(e) => Err(e),
                    }
                }
            },
            EditOp::Removed(p) => {
                if p >= old_rows.len() {
                    Err(DiffError::InvalidScript)
                } else {
                    match decode_row(&old_rows[p], before_width) {
                        Ok(row) => {
                            put_diff_pixels(&mut pixels, &row, width, RED, rate);
                            Ok(())
                        },
                        Err(e) => Err(e),
                    }
                }
            },
            EditOp::Added(q) => {
                if q >= new_rows.len() {
                    Err(DiffError::InvalidScript)
                } else {
                    match decode_row(&new_rows[q], after_width) {
                        Ok(row) => {
                            put_diff_pixels(&mut pixels, &row, width, GREEN, rate);
                            Ok(())
                        },
                        Err(e) => Err(e),
                    }
                }
            },
        };
        match step {
            Err(e) => {
                proof {
                    assert(step_row(op, olds, news, width as nat, rate@) == Err::<
                        Seq<Pixel>,
                        DiffError,
                    >(e));
                    lemma_steps_error_persists(
                        script@,
                        y + 1,
                        steps as int,
                        olds,
                        news,
                        width as nat,
                        rate@,
                    );
                }
                return Err(e);
            },
            Ok(_) => {
                assert(step_row(op, olds, news, width as nat, rate@) matches Ok(row) && pixels@
                    == above + row);
            },
        }
        y += 1;
    }
    proof {
        lemma_steps_pixels_len(script@, steps as int, olds, news, width as nat, rate@);
    }
    Ok(Image::new(width, steps as u32, pixels).unwrap())
}

/// The rows of a grid, every one of them readable.
pub open spec fn grid_pixel_rows(g: Grid) -> Seq<Option<Seq<Pixel>>> {
    Seq::new(g.height, |y: int| Some(g.row(y)))
}

/// The edit script that turns the rows of one grid into the rows of
/// another. Rows are compared by their raw bytes.
pub open spec fn row_script(a: Grid, b: Grid) -> Seq<EditOp> {
    full_script(grid_rows(a), grid_rows(b))
}

/// Can two grids be compared row by row on this machine? Their rows must
/// be short enough to encode, and the diff image must not be too large.
pub open spec fn row_diff_fits(a: Grid, b: Grid) -> bool {
    &&& rows_encodable(a)
    &&& rows_encodable(b)
    &&& diff_image_fits(wider(a.width, b.width), row_script(a, b).len())
}

/// The diff image of two grids.
pub open spec fn row_diff_image(a: Grid, b: Grid, rate: Ratio) -> Result<Grid, DiffError> {
    diff_image_spec(
        row_script(a, b),
        grid_pixel_rows(a),
        grid_pixel_rows(b),
        a.width,
        b.width,
        rate,
    )
}

/// Reading the raw bytes of a row back gives the row.
pub proof fn lemma_bytes_of_pixels_round_trip(row: Seq<Pixel>)
    ensures
        pixel_bytes(row).len() == 4 * row.len(),
        bytes_pixels(pixel_bytes(row)) == row,
{
    assert(bytes_pixels(pixel_bytes(row)) =~= row);
}

/// Where every step of a script names rows that exist, and every row can
/// be read, the steps give pixels and no error.
pub proof fn lemma_sound_steps_give_pixels(
    script: Seq<EditOp>,
    n: int,
    a: Grid,
    b: Grid,
    width: nat,
    rate: Ratio,
)
    requires
        0 <= n <= script.len(),
        forall|t: int|
            0 <= t < script.len() ==> op_fits(#[trigger] script[t], grid_rows(a), grid_rows(b)),
    ensures
        steps_pixels(script, n, grid_pixel_rows(a), grid_pixel_rows(b), width, rate) is Ok,
    decreases n,
{
    if n > 0 {
        lemma_sound_steps_give_pixels(script, n - 1, a, b, width, rate);
        assert(op_fits(script[n - 1], grid_rows(a), grid_rows(b)));
    }
}

/// Lists the rows that a script removes and the rows that it adds.
pub fn changed_rows(script: &Vec<EditOp>) -> (out: (Vec<usize>, Vec<usize>))
    ensures
        out.0@ == removed_rows(script@),
        out.1@ == added_rows(script@),
{
    let mut added: Vec<usize> = Vec::new();
    let mut removed: Vec<usize> = Vec::new();
    let mut t: usize = 0;
    while t < script.len()
        invariant
            t <= script.len(),
            removed@ == removed_rows(script@.subrange(0, t as int)),
            added@ == added_rows(script@.subrange(0, t as int)),
        decreases script.len() - t,
    {
        proof {
            let next = script@.subrange(0, t + 1);
            assert(next.drop_last() =~= script@.subrange(0, t as int));
            assert(next.last() == script@[t as int]);
        }
        match script[t] {
            EditOp::Added(q) => added.push(q),
            EditOp::Removed(p) => removed.push(p),
            _ => (),
        }
        t += 1;
    }
    assert(script@.subrange(0, t as int) =~= script@);
    (removed, added)
}

/// The rows that a script removes are rows of the old sequence, and the
/// rows that it adds are rows of the new one, where its steps fit.
pub proof fn lemma_changed_rows_exist<T>(script: Seq<EditOp>, a: Seq<T>, b: Seq<T>)
    requires
        forall|t: int| 0 <= t < script.len() ==> op_fits(#[trigger] script[t], a, b),
    ensures
        rows_exist(removed_rows(script), a.len()),
        rows_exist(added_rows(script), b.len()),
    decreases script.len(),
{
    if script.len() > 0 {
        let rest = script.drop_last();
        assert forall|t: int| 0 <= t < rest.len() implies op_fits(#[trigger] rest[t], a, b) by {
            assert(rest[t] == script[t]);
        }
        lemma_changed_rows_exist(rest, a, b);
        assert(op_fits(script[script.len() - 1], a, b));
    }
}

/// Compares two images row by row.
///
/// The rows of both are encoded and an edit script is computed over them.
/// The rows that the script removes are marked red in `before`, the rows
/// that it adds are marked green in `after`, and the diff image of the
/// script is returned, all at mix rate `rate`.
///
/// Where the images cannot be compared on this machine both stay as they
/// were.
pub fn compare(before: &mut Image, after: &mut Image, rate: Fraction) -> (out: Result<
    Image,
    DiffError,
>)
    ensures
        out is Ok <==> row_diff_fits(old(before)@, old(after)@),
        out matches Err(e) ==> {
            &&& e == DiffError::TooLarge
            &&& final(before)@ == old(before)@
            &&& final(after)@ == old(after)@
        },
        out matches Ok(img) ==> {
            let script = row_script(old(before)@, old(after)@);
            &&& final(before)@ == mark_rows_spec(old(before)@, removed_rows(script), RED, rate@)
            &&& final(after)@ == mark_rows_spec(old(after)@, added_rows(script), GREEN, rate@)
            &&& row_diff_image(old(before)@, old(after)@, rate@) == Ok::<Grid, DiffError>(img@)
        },
{
    let ghost a = before@;
    let ghost b = after@;
    proof {
        use_type_invariant(&*before);
        use_type_invariant(&*after);
        before.lemma_wf();
        after.lemma_wf();
    }
    let before_width: u32 = before.width();
    let after_width: u32 = after.width();
    let compare_before = CompareImage::new(before.dimensions(), before.duplicate().into_pixels());
    let compare_after = CompareImage::new(after.dimensions(), after.duplicate().into_pixels());
    let rows_a = match compare_before.create_encoded_rows() {
        Ok(rows) => rows,
        Err(e) => {
            return Err(e);
        },
    };
    let rows_b = match compare_after.create_encoded_rows() {
        Ok(rows) => rows,
        Err(e) => {
            return Err(e);
        },
    };
    let script = lcs::diff(&rows_a, &rows_b);
    proof {
        lemma_tokens_compare_as_rows(rows_a@, grid_rows(a), rows_b@, grid_rows(b));
        lemma_script_is_sound(grid_rows(a), grid_rows(b), a.height as int, b.height as int);
        lemma_changed_rows_exist(script@, grid_rows(a), grid_rows(b));
    }
    let width: u32 = if before_width >= after_width {
        before_width
    } else {
        after_width
    };
    let steps: usize = script.len();
    if steps as u64 > u32::MAX as u64 {
        return Err(DiffError::TooLarge);
    }
    assert(width * steps <= 0xffff_ffff * 0xffff_ffff) by (nonlinear_arith)
        requires
            0 <= width <= 0xffff_ffff,
            0 <= steps <= 0xffff_ffff,
    ;
    if (width as u64) * (steps as u64) > usize::MAX as u64 {
        return Err(DiffError::TooLarge);
    }
    let (removed, added) = changed_rows(&script);

    // every row that the script names exists, so that neither marking fails
    if let Err(e) = mark_org_image(before, RED, rate, &removed) {
        return Err(e);
    }
    if let Err(e) = mark_org_image(after, GREEN, rate, &added) {
        return Err(e);
    }

    proof {
        assert(token_rows(rows_a@, before_width as nat) =~= grid_pixel_rows(a)) by {
            assert forall|y: int| 0 <= y < a.height implies token_row(
                #[trigger] rows_a@[y]@,
                before_width as nat,
            ) == Some(a.row(y)) by {
                lemma_bytes_of_pixels_round_trip(a.row(y));
            }
        }
        assert(token_rows(rows_b@, after_width as nat) =~= grid_pixel_rows(b)) by {
            assert forall|y: int| 0 <= y < b.height implies token_row(
                #[trigger] rows_b@[y]@,
                after_width as nat,
            ) == Some(b.row(y)) by {
                lemma_bytes_of_pixels_round_trip(b.row(y));
            }
        }
        lemma_sound_steps_give_pixels(script@, steps as int, a, b, width as nat, rate@);
    }
    get_diff_image(before_width, after_width, &rows_a, &rows_b, &script, rate)
}

/// Compares two images row by row; the same comparison as [`compare`].
pub fn lcs_diff(before: &mut Image, after: &mut Image, rate: Fraction) -> (out: Result<
    Image,
    DiffError,
>)
    ensures
        out is Ok <==> row_diff_fits(old(before)@, old(after)@),
        out matches Err(e) ==> {
            &&& e == DiffError::TooLarge
            &&& final(before)@ == old(before)@
            &&& final(after)@ == old(after)@
        },
        out matches Ok(img) ==> {
            let script = row_script(old(before)@, old(after)@);
            &&& final(before)@ == mark_rows_spec(old(before)@, removed_rows(script), RED, rate@)
            &&& final(after)@ == mark_rows_spec(old(after)@, added_rows(script), GREEN, rate@)
            &&& row_diff_image(old(before)@, old(after)@, rate@) == Ok::<Grid, DiffError>(img@)
        },
{
    compare(before, after, rate)
}

/// The first `n` rows of the diff image of a grid against itself are the
/// first `n` rows of the grid.
proof fn lemma_unchanged_steps_copy_rows(a: Grid, n: int, rate: Ratio)
    requires
        a.wf(),
        0 <= n <= a.height <= usize::MAX,
    ensures
        steps_pixels(
            all_unchanged(a.height),
            n,
            grid_pixel_rows(a),
            grid_pixel_rows(a),
            a.width,
            rate,
        ) == Ok::<Seq<Pixel>, DiffError>(a.pixels.subrange(0, n * a.width)),
    decreases n,
{
    let rows = grid_pixel_rows(a);
    if n > 0 {
        lemma_unchanged_steps_copy_rows(a, n - 1, rate);
        lemma_row_in_grid(a.width, a.height, n - 1);
        let above = a.pixels.subrange(0, (n - 1) * a.width);
        let row = padded_row(a.row(n - 1), a.width);
        assert(step_row(all_unchanged(a.height)[n - 1], rows, rows, a.width, rate) == Ok::<
            Seq<Pixel>,
            DiffError,
        >(row));
        assert(above + row =~= a.pixels.subrange(0, n * a.width));
    } else {
        assert(n * a.width == 0) by (nonlinear_arith)
            requires
                n == 0,
        ;
        assert(a.pixels.subrange(0, 0) =~= Seq::<Pixel>::empty());
    }
}

/// An image compared with itself row by row: the script holds `Unchanged`
/// steps only, no row of either image is marked, and the diff image is the
/// image itself.
pub proof fn lemma_row_diff_of_same_image(a: Grid, rate: Ratio)
    requires
        a.wf(),
        a.height <= u32::MAX,
        a.pixels.len() <= usize::MAX,
    ensures
        row_script(a, a) == all_unchanged(a.height),
        mark_rows_spec(a, removed_rows(row_script(a, a)), RED, rate) == a,
        mark_rows_spec(a, added_rows(row_script(a, a)), GREEN, rate) == a,
        row_diff_image(a, a, rate) == Ok::<Grid, DiffError>(a),
{
    lemma_identical_rows_are_unchanged(grid_rows(a));
    lemma_unchanged_steps_copy_rows(a, a.height as int, rate);
    assert(a.pixels.subrange(0, (a.height as int) * a.width) =~= a.pixels) by {
        assert(a.height * a.width == a.width * a.height) by (nonlinear_arith);
    }
    assert(a.width * a.height == a.pixels.len());
}

/// Where the second image is the first with one row put in before row
/// `k`, the script holds one `Added` step and `Unchanged` steps otherwise:
/// no row of the first image is marked, and one row of the second. That
/// row is the first of the run of rows equal to the new one that ends at
/// `k`; it is row `k` itself unless the row above equals the new one.
pub proof fn lemma_row_diff_of_inserted_row(a: Grid, b: Grid, k: int)
    requires
        0 <= k <= a.height,
        b.height == a.height + 1,
        grid_rows(b) == grid_rows(a).insert(k, grid_rows(b)[k]),
    ensures
        ({
            let p = run_start(grid_rows(a), grid_rows(b)[k], k);
            &&& 0 <= p <= k
            &&& row_script(a, b) == one_added(a.height, p as nat)
            &&& removed_rows(row_script(a, b)) == Seq::<usize>::empty()
            &&& added_rows(row_script(a, b)) == seq![p as usize]
            &&& grid_rows(b)[p] == grid_rows(b)[k]
            &&& (k == 0 || grid_rows(a)[k - 1] != grid_rows(b)[k]) ==> p == k
        }),
{
    lemma_one_inserted_row(grid_rows(a), grid_rows(b)[k], k);
}

} // verus!
