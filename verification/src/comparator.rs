use vstd::prelude::*;
use crate::blend_diff::{blend_images, blend_images_spec};
use crate::config::{Config, DiffMode};
use crate::diff_ratio::{calculate_diff_ratio, total_diff_of, total_possible_of, DiffRatio};
use crate::error::DiffError;
use crate::lcs_diff::{lcs_diff, row_diff_fits, row_diff_image};
use crate::mark_diff_with_color::{highlight_changes_with_color, highlight_spec};
use crate::raster::{Grid, Image};

verus! {

/// What a comparison gives: a diff image, or a ratio where no image was
/// asked for.
#[derive(Debug)]
pub enum Comparison {
    /// The diff image, to be written where the configuration says.
    Picture(Image),
    /// How far the two images are apart.
    Ratio(DiffRatio),
}

/// The mode of a run: the one that was named, or the row comparison.
pub open spec fn mode_or_default(mode: Option<DiffMode>) -> DiffMode {
    match mode {
        Some(m) => m,
        None => DiffMode::LCS,
    }
}

/// Can the comparison that a configuration asks for be made?
pub open spec fn comparison_possible(config: Config) -> bool {
    if config.filename is Some && mode_or_default(config.mode) == DiffMode::LCS {
        row_diff_fits(config.image1@, config.image2@)
    } else {
        config.image1@.same_size(config.image2@)
    }
}

/// The diff image that a configuration asks for, where one can be made.
pub open spec fn picture_of(config: Config) -> Result<Grid, DiffError> {
    match mode_or_default(config.mode) {
        DiffMode::MarkWithColor => Ok(
            highlight_spec(config.image1@, config.image2@, config.color),
        ),
        DiffMode::LCS => row_diff_image(config.image1@, config.image2@, config.rate@),
        DiffMode::Blend => Ok(
            blend_images_spec(config.image1@, config.image2@, config.blend_mode),
        ),
    }
}

/// Makes the comparison that a configuration asks for.
///
/// Without a file name the two images are measured against each other and
/// the ratio is returned. With one, the diff image of the chosen mode is
/// returned: changed pixels marked with the configured colour, the
/// row-by-row comparison at the configured mix rate, or the pixel-by-pixel
/// blend in the configured blend mode. Where no mode is named the images
/// are compared row by row.
pub fn run_comparison(config: Config) -> (out: Result<Comparison, DiffError>)
    ensures
        out is Ok <==> comparison_possible(config),
        out matches Err(e) ==> e == (if config.filename is Some && mode_or_default(config.mode)
            == DiffMode::LCS {
            DiffError::TooLarge
        } else {
            DiffError::DimensionMismatch
        }),
        out matches Ok(Comparison::Ratio(ratio)) ==> {
            &&& config.filename is None
            &&& ratio.total_diff == total_diff_of(config.image1@, config.image2@)
            &&& ratio.total_possible == total_possible_of(config.image1@)
            &&& ratio.total_diff <= ratio.total_possible
        },
        out matches Ok(Comparison::Picture(img)) ==> {
            &&& config.filename is Some
            &&& picture_of(config) == Ok::<Grid, DiffError>(img@)
        },
{
    let Config { image1, image2, filename, mode, blend_mode, color, rate } = config;
    if filename.is_none() {
        return match calculate_diff_ratio(image1, image2) {
            Ok(ratio) => Ok(Comparison::Ratio(ratio)),
            Err(e) => Err(e),
        };
    }
    let mode = match mode {
        Some(m) => m,
        None => DiffMode::LCS,
    };
    let picture = match mode {
        DiffMode::MarkWithColor => highlight_changes_with_color(image1, image2, color),
        DiffMode::LCS => {
            let mut before = image1;
            let mut after = image2;
            lcs_diff(&mut before, &mut after, rate)
        },
        DiffMode::Blend => blend_images(image1, image2, blend_mode),
    };
    match picture {
        Ok(img) => Ok(Comparison::Picture(img)),
        Err(e) => Err(e),
    }
}

} // verus!
