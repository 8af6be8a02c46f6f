//! The four pixel encodings and the decoded pixel value.

use vstd::prelude::*;

use crate::error::DecodeError;

verus! {

/// The format code in a header block selecting the image's pixel encoding.
/// The wire codes are 0, 1, 2 and 3 in declaration order; any other code
/// byte is invalid.
#[derive(Clone, Copy, Debug, PartialEq, Eq, Structural)]
pub enum PixelType {
    BlackAndWhite,
    GrayLevels,
    Palette,
    TwentyFourBitsColors,
}

/// One decoded pixel.  The active variant matches the file's declared
/// pixel type: black and white files yield `Black` and `White`, gray files
/// yield `Gray`, palette files yield `Palette` indices, and 24-bit files
/// yield `TwentyFourBitsColors` triples.
#[derive(Clone, Copy, Debug, PartialEq, Eq, Structural)]
pub enum Pixel {
    Black,
    White,
    Gray(u8),
    Palette(u8),
    TwentyFourBitsColors(u8, u8, u8),
}

/// The pixel type a code byte in 0..=3 stands for.
pub open spec fn spec_pixel_type(code: u8) -> PixelType
    recommends
        code <= 3,
{
    if code == 0 {
        PixelType::BlackAndWhite
    } else if code == 1 {
        PixelType::GrayLevels
    } else if code == 2 {
        PixelType::Palette
    } else {
        PixelType::TwentyFourBitsColors
    }
}

/// The wire code of a pixel type; the inverse of `spec_pixel_type`.
pub open spec fn spec_pixel_type_code(t: PixelType) -> u8 {
    match t {
        PixelType::BlackAndWhite => 0,
        PixelType::GrayLevels => 1,
        PixelType::Palette => 2,
        PixelType::TwentyFourBitsColors => 3,
    }
}

/// Whether a decoded pixel's variant is the one the declared pixel type
/// calls for.
pub open spec fn pixel_matches_type(p: Pixel, t: PixelType) -> bool {
    match t {
        PixelType::BlackAndWhite => p is Black || p is White,
        PixelType::GrayLevels => p is Gray,
        PixelType::Palette => p is Palette,
        PixelType::TwentyFourBitsColors => p is TwentyFourBitsColors,
    }
}

impl PixelType {
    /// Decodes a pixel-type code byte, rejecting any code outside 0..=3.
    pub fn from_code(code: u8) -> (r: Result<PixelType, DecodeError>)
        ensures
            code <= 3 ==> r == Ok::<PixelType, DecodeError>(spec_pixel_type(code)),
            code > 3 ==> r == Err::<PixelType, DecodeError>(DecodeError::UnknownPixelType(code)),
    {
        match code {
            0 => Ok(PixelType::BlackAndWhite),
            1 => Ok(PixelType::GrayLevels),
            2 => Ok(PixelType::Palette),
            3 => Ok(PixelType::TwentyFourBitsColors),
            _ => Err(DecodeError::UnknownPixelType(code)),
        }
    }

    /// The wire code this pixel type is written as.
    pub fn code(&self) -> (r: u8)
        ensures
            r == spec_pixel_type_code(*self),
            r <= 3,
            spec_pixel_type(r) == *self,
    {
        match self {
            PixelType::BlackAndWhite => 0,
            PixelType::GrayLevels => 1,
            PixelType::Palette => 2,
            PixelType::TwentyFourBitsColors => 3,
        }
    }
}

} // verus!
