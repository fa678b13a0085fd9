use vstd::prelude::*;
use vstd::string::*;

verus! {

/// Why a comparison could not be made.
#[derive(Copy, Clone, Debug, PartialEq, Eq, Structural)]
pub enum DiffError {
    /// Two images that must match pixel for pixel differ in width or height.
    DimensionMismatch,
    /// Pixel data does not fill its rows: a pixel count that is not width
    /// times height, or a row token that does not hold whole pixels.
    MalformedRows,
    /// A step of an edit script names a row that does not exist.
    InvalidScript,
    /// A row or a result is larger than this machine can hold.
    TooLarge,
}

impl DiffError {
    /// A sentence for the person who ran the comparison.
    pub fn message(&self) -> (text: String)
        ensures
            text@ == match *self {
                DiffError::DimensionMismatch => "the two images differ in width or height"@,
                DiffError::MalformedRows => "pixel data does not fill whole rows"@,
                DiffError::InvalidScript => "an edit step names a row that does not exist"@,
                DiffError::TooLarge => "the images are too large to compare"@,
            },
    {
        match self {
            DiffError::DimensionMismatch => String::from_str(
                "the two images differ in width or height",
            ),
            DiffError::MalformedRows => String::from_str("pixel data does not fill whole rows"),
            DiffError::InvalidScript => String::from_str(
                "an edit step names a row that does not exist",
            ),
            DiffError::TooLarge => String::from_str("the images are too large to compare"),
        }
    }
}

} // verus!
