//! Image comparison: per-pixel blending, change highlighting, a row-level
//! longest-common-subsequence diff and a dissimilarity ratio, all stated
//! over an in-memory grid of 8-bit RGBA pixels.

pub mod blend_diff;
pub mod comparator;
pub mod config;
pub mod diff;
pub mod diff_ratio;
pub mod encoding;
pub mod error;
pub mod fraction;
pub mod lcs;
pub mod lcs_diff;
pub mod mark_diff_with_color;
pub mod pixel;
pub mod raster;
pub mod utils;
