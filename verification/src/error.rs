//! The failure kinds a decode can end in.

use vstd::prelude::*;

verus! {

/// Every way a MiniPNG decode can fail.  A failure is terminal: the first
/// error anywhere in the scan or validation pipeline becomes the overall
/// decode failure, and no partial image is ever returned.
#[derive(Clone, Copy, Debug, PartialEq, Eq, Structural)]
pub enum DecodeError {
    /// Fewer than 8 bytes are available for the magic tag.
    TruncatedMagic,
    /// The first 8 bytes are not the literal magic tag.
    BadMagic,
    /// Fewer than 6 bytes remain where a block must start (1 type byte,
    /// 4 length bytes, and at least 1 payload byte).
    TruncatedHeader,
    /// The block type byte is not one of the four recognized ASCII tags.
    InvalidType(u8),
    /// A block declares a payload length of 0; no block may be empty.
    ZeroLength,
    /// A block declares more payload bytes than the stream still holds.
    LengthMismatch,
    /// A header payload is not exactly 9 bytes.
    BadHeaderSize,
    /// A header declares a width or height of 0.
    ZeroDimension,
    /// A header carries a pixel-type code outside 0..=3.
    UnknownPixelType(u8),
    /// A comment payload holds a byte outside the printable range 32..=127.
    NonAsciiComment,
    /// A palette payload length is not a multiple of 3.
    PaletteSizeNotMultipleOf3,
    /// A palette payload holds more than 256 entries.
    TooManyPaletteEntries,
    /// The file holds no header block.
    MissingHeader,
    /// The file holds more than one header block.
    MultipleHeaders,
    /// The file holds no data block.
    MissingData,
    /// The file holds more than one palette block.
    MultiplePalettes,
    /// The pixel type is palette-indexed but no palette block is present.
    MissingPalette,
    /// The concatenated data payloads do not hold exactly the byte count
    /// the declared dimensions and pixel type call for.
    PixelDataSizeMismatch,
    /// A palette-indexed pixel names an entry at or past the palette's
    /// entry count; the offending index is carried along.
    PaletteIndexOutOfRange(u8),
}

} // verus!
