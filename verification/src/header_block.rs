//! The header block: image dimensions and pixel type.

use vstd::prelude::*;

use crate::error::DecodeError;
use crate::format::{spec_parse_header, spec_u32_be};
use crate::pixel::PixelType;

verus! {

/// The decoded header block.  Exactly one must exist per file; its
/// dimensions are always nonzero.
#[derive(Clone, Copy, Debug, PartialEq, Eq, Structural)]
pub struct HeaderBlock {
    pub image_width: u32,
    pub image_height: u32,
    pub pixel_type: PixelType,
}

/// Reads a 32-bit big-endian value from four bytes.
pub(crate) fn u32_from_be(b0: u8, b1: u8, b2: u8, b3: u8) -> (r: u32)
    ensures
        r == spec_u32_be(b0, b1, b2, b3),
{
    (b0 as u32) * 0x1000000 + (b1 as u32) * 0x10000 + (b2 as u32) * 0x100 + (b3 as u32)
}

impl HeaderBlock {
    /// Decodes a header payload: 4 bytes big-endian width, 4 bytes
    /// big-endian height, 1 byte pixel-type code.  Rejects any payload
    /// that is not exactly 9 bytes, declares a zero dimension, or carries
    /// an unknown pixel-type code.
    pub fn from_bytes(bytes: &[u8]) -> (r: Result<HeaderBlock, DecodeError>)
        ensures
            r == spec_parse_header(bytes@),
            r matches Ok(h) ==> h.image_width >= 1 && h.image_height >= 1,
    {
        if bytes.len() != 9 {
            return Err(DecodeError::BadHeaderSize);
        }
        let image_width = u32_from_be(bytes[0], bytes[1], bytes[2], bytes[3]);
        let image_height = u32_from_be(bytes[4], bytes[5], bytes[6], bytes[7]);
        if image_width == 0 || image_height == 0 {
            return Err(DecodeError::ZeroDimension);
        }
        let pixel_type = match PixelType::from_code(bytes[8]) {
            Ok(t) => t,
            Err(e) => {
                return Err(e);
            },
        };
        Ok(HeaderBlock { image_width, image_height, pixel_type })
    }

    /// The image width in pixels; always at least 1.
    pub fn get_image_width(&self) -> (r: u32)
        ensures
            r == self.image_width,
    {
        self.image_width
    }

    /// The image height in pixels; always at least 1.
    pub fn get_image_height(&self) -> (r: u32)
        ensures
            r == self.image_height,
    {
        self.image_height
    }

    /// The pixel encoding the data blocks use.
    pub fn get_pixel_type(&self) -> (r: PixelType)
        ensures
            r == self.pixel_type,
    {
        self.pixel_type
    }
}

} // verus!
