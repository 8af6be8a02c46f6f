//! Mathematical model of the wire format.
//!
//! Everything the decoder promises is stated against the functions in this
//! module: a byte-level description of one block, of the scan over all
//! blocks, of the cross-block validation, and of the byte-to-pixel decode.
//! The executable decoder in `mini_png` is proved to return exactly what
//! `spec_decode` says.

use vstd::prelude::*;

use crate::error::DecodeError;
use crate::header_block::HeaderBlock;
use crate::pixel::{spec_pixel_type, Pixel, PixelType};

verus! {

/// One decoded block, classified by kind.
pub ghost enum SpecBlock {
    Header(HeaderBlock),
    Comment(Seq<char>),
    Data(Seq<u8>),
    Palette(Seq<(u8, u8, u8)>),
}

/// The fully assembled image value: exactly one header, the comment texts
/// in encounter order, an optional palette, and the row-major pixels.
#[verifier::ext_equal]
pub ghost struct ImageModel {
    pub header: HeaderBlock,
    pub comments: Seq<Seq<char>>,
    pub palette: Option<Seq<(u8, u8, u8)>>,
    pub pixels: Seq<Pixel>,
}

/// The ASCII tag byte of a header block, `H`.
pub const TAG_HEADER: u8 = 72;

/// The ASCII tag byte of a comment block, `C`.
pub const TAG_COMMENT: u8 = 67;

/// The ASCII tag byte of a data block, `D`.
pub const TAG_DATA: u8 = 68;

/// The ASCII tag byte of a palette block, `P`.
pub const TAG_PALETTE: u8 = 80;

/// The 8-byte literal magic tag that opens every MiniPNG file: the ASCII
/// bytes of `Mini-PNG`.
pub open spec fn spec_magic() -> Seq<u8> {
    seq![77u8, 105u8, 110u8, 105u8, 45u8, 80u8, 78u8, 71u8]
}

/// A 32-bit unsigned value read from four bytes, most significant first.
pub open spec fn spec_u32_be(b0: u8, b1: u8, b2: u8, b3: u8) -> u32 {
    ((b0 as int) * 0x1000000 + (b1 as int) * 0x10000 + (b2 as int) * 0x100 + (b3 as int)) as u32
}

/// Whether every byte of a comment payload is printable ASCII (32..=127).
pub open spec fn comment_bytes_ok(p: Seq<u8>) -> bool {
    forall|i: int| 0 <= i < p.len() ==> 32 <= #[trigger] p[i] <= 127
}

/// The text a comment payload decodes to: one character per byte.
pub open spec fn spec_comment_text(p: Seq<u8>) -> Seq<char> {
    p.map_values(|b: u8| b as char)
}

/// A header payload: 4 bytes big-endian width, 4 bytes big-endian height,
/// 1 byte pixel-type code; exactly 9 bytes, dimensions nonzero, code in
/// 0..=3.
pub open spec fn spec_parse_header(p: Seq<u8>) -> Result<HeaderBlock, DecodeError> {
    if p.len() != 9 {
        Err(DecodeError::BadHeaderSize)
    } else {
        let w = spec_u32_be(p[0], p[1], p[2], p[3]);
        let h = spec_u32_be(p[4], p[5], p[6], p[7]);
        if w == 0 || h == 0 {
            Err(DecodeError::ZeroDimension)
        } else if p[8] > 3 {
            Err(DecodeError::UnknownPixelType(p[8]))
        } else {
            Ok(HeaderBlock { image_width: w, image_height: h, pixel_type: spec_pixel_type(p[8]) })
        }
    }
}

/// A comment payload: printable ASCII, decoded to its text.
pub open spec fn spec_parse_comment(p: Seq<u8>) -> Result<Seq<char>, DecodeError> {
    if comment_bytes_ok(p) {
        Ok(spec_comment_text(p))
    } else {
        Err(DecodeError::NonAsciiComment)
    }
}

/// A palette payload: at most 256 RGB triples, one per 3-byte chunk, in
/// payload order.
pub open spec fn spec_parse_palette(p: Seq<u8>) -> Result<Seq<(u8, u8, u8)>, DecodeError> {
    if p.len() % 3 != 0 {
        Err(DecodeError::PaletteSizeNotMultipleOf3)
    } else if p.len() > 768 {
        Err(DecodeError::TooManyPaletteEntries)
    } else {
        Ok(Seq::new((p.len() / 3) as nat, |i: int| (p[3 * i], p[3 * i + 1], p[3 * i + 2])))
    }
}

/// One block at the front of `s`: a recognized ASCII type tag, a nonzero
/// big-endian length that the stream can still cover, and the payload
/// handed to the matching payload rule.  On success the second component
/// is the bytes consumed, always `5 + length`.
pub open spec fn spec_parse_block(s: Seq<u8>) -> Result<(SpecBlock, int), DecodeError> {
    if s.len() < 6 {
        Err(DecodeError::TruncatedHeader)
    } else {
        let tag = s[0];
        if tag != TAG_HEADER && tag != TAG_COMMENT && tag != TAG_DATA && tag != TAG_PALETTE {
            Err(DecodeError::InvalidType(tag))
        } else {
            let len = spec_u32_be(s[1], s[2], s[3], s[4]) as int;
            if len == 0 {
                Err(DecodeError::ZeroLength)
            } else if s.len() < 5 + len {
                Err(DecodeError::LengthMismatch)
            } else {
                let payload = s.subrange(5, 5 + len);
                if tag == TAG_HEADER {
                    match spec_parse_header(payload) {
                        Ok(h) => Ok((SpecBlock::Header(h), 5 + len)),
                        Err(e) => Err(e),
                    }
                } else if tag == TAG_COMMENT {
                    match spec_parse_comment(payload) {
                        Ok(c) => Ok((SpecBlock::Comment(c), 5 + len)),
                        Err(e) => Err(e),
                    }
                } else if tag == TAG_DATA {
                    Ok((SpecBlock::Data(payload), 5 + len))
                } else {
                    match spec_parse_palette(payload) {
                        Ok(es) => Ok((SpecBlock::Palette(es), 5 + len)),
                        Err(e) => Err(e),
                    }
                }
            }
        }
    }
}

/// The whole block sequence of a stream: blocks parsed left to right until
/// no bytes remain; the first failure aborts the scan.
pub open spec fn spec_scan(s: Seq<u8>) -> Result<Seq<SpecBlock>, DecodeError>
    decreases s.len(),
{
    if s.len() == 0 {
        Ok(Seq::empty())
    } else {
        match spec_parse_block(s) {
            Err(e) => Err(e),
            Ok((b, n)) => match spec_scan(s.subrange(n, s.len() as int)) {
                Err(e) => Err(e),
                Ok(rest) => Ok(seq![b] + rest),
            },
        }
    }
}

/// The header blocks of a block sequence, in encounter order.
pub open spec fn spec_headers(bs: Seq<SpecBlock>) -> Seq<HeaderBlock>
    decreases bs.len(),
{
    if bs.len() == 0 {
        Seq::empty()
    } else {
        spec_headers(bs.drop_last()) + (match bs.last() {
            SpecBlock::Header(h) => seq![h],
            _ => Seq::empty(),
        })
    }
}

/// The comment texts of a block sequence, in encounter order.
pub open spec fn spec_comments(bs: Seq<SpecBlock>) -> Seq<Seq<char>>
    decreases bs.len(),
{
    if bs.len() == 0 {
        Seq::empty()
    } else {
        spec_comments(bs.drop_last()) + (match bs.last() {
            SpecBlock::Comment(c) => seq![c],
            _ => Seq::empty(),
        })
    }
}

/// The data payloads of a block sequence, in encounter order.
pub open spec fn spec_datas(bs: Seq<SpecBlock>) -> Seq<Seq<u8>>
    decreases bs.len(),
{
    if bs.len() == 0 {
        Seq::empty()
    } else {
        spec_datas(bs.drop_last()) + (match bs.last() {
            SpecBlock::Data(d) => seq![d],
            _ => Seq::empty(),
        })
    }
}

/// The palettes of a block sequence, in encounter order.
pub open spec fn spec_palettes(bs: Seq<SpecBlock>) -> Seq<Seq<(u8, u8, u8)>>
    decreases bs.len(),
{
    if bs.len() == 0 {
        Seq::empty()
    } else {
        spec_palettes(bs.drop_last()) + (match bs.last() {
            SpecBlock::Palette(es) => seq![es],
            _ => Seq::empty(),
        })
    }
}

/// The concatenation of byte sequences, in order.
pub open spec fn spec_concat(ds: Seq<Seq<u8>>) -> Seq<u8>
    decreases ds.len(),
{
    if ds.len() == 0 {
        Seq::empty()
    } else {
        spec_concat(ds.drop_last()) + ds.last()
    }
}

/// The byte count the concatenated data payloads must hold for the given
/// pixel type and dimensions.
pub open spec fn spec_expected_len(t: PixelType, w: u32, h: u32) -> int {
    let n = (w as int) * (h as int);
    match t {
        PixelType::BlackAndWhite => (n + 7) / 8,
        PixelType::GrayLevels => n,
        PixelType::Palette => n,
        PixelType::TwentyFourBitsColors => 3 * n,
    }
}

/// The pixel bit `j` (0 = most significant) of a black-and-white data byte
/// decodes to: 1 is white, 0 is black.
pub open spec fn spec_bw_pixel(byte: u8, j: int) -> Pixel
    recommends
        0 <= j < 8,
{
    if (byte >> ((7 - j) as u8)) & 1 == 1 {
        Pixel::White
    } else {
        Pixel::Black
    }
}

/// The row-major pixel sequence a data buffer decodes to, for each pixel
/// type.  `n` is the pixel count `width * height`; only the black-and-white
/// decode needs it, to drop the padding bits of the final byte.
pub open spec fn spec_pixels(t: PixelType, data: Seq<u8>, n: int) -> Seq<Pixel> {
    match t {
        PixelType::BlackAndWhite => Seq::new(n as nat, |i: int| spec_bw_pixel(data[i / 8], i % 8)),
        PixelType::GrayLevels => Seq::new(data.len(), |i: int| Pixel::Gray(data[i])),
        PixelType::Palette => Seq::new(data.len(), |i: int| Pixel::Palette(data[i])),
        PixelType::TwentyFourBitsColors => Seq::new(
            (data.len() / 3) as nat,
            |i: int| Pixel::TwentyFourBitsColors(data[3 * i], data[3 * i + 1], data[3 * i + 2]),
        ),
    }
}

/// Scans the pixels from position `i` on for a palette index at or past
/// the entry count; the first offender decides the error.
pub open spec fn spec_palette_scan(pixels: Seq<Pixel>, count: int, i: int) -> Result<
    (),
    DecodeError,
>
    decreases pixels.len() - i,
{
    if i < 0 || i >= pixels.len() {
        Ok(())
    } else {
        match pixels[i] {
            Pixel::Palette(v) => if v as int >= count {
                Err(DecodeError::PaletteIndexOutOfRange(v))
            } else {
                spec_palette_scan(pixels, count, i + 1)
            },
            _ => spec_palette_scan(pixels, count, i + 1),
        }
    }
}

/// Cross-block validation and assembly of a scanned block sequence:
/// exactly one header, at least one data block, at most one palette; the
/// concatenated data must hold exactly the expected byte count; a
/// palette-typed image must have its palette present and every pixel index
/// within it.
pub open spec fn spec_assemble(blocks: Seq<SpecBlock>) -> Result<ImageModel, DecodeError> {
    let headers = spec_headers(blocks);
    let datas = spec_datas(blocks);
    let palettes = spec_palettes(blocks);
    if headers.len() == 0 {
        Err(DecodeError::MissingHeader)
    } else if headers.len() > 1 {
        Err(DecodeError::MultipleHeaders)
    } else if datas.len() == 0 {
        Err(DecodeError::MissingData)
    } else if palettes.len() > 1 {
        Err(DecodeError::MultiplePalettes)
    } else {
        let hdr = headers[0];
        let data = spec_concat(datas);
        let n = (hdr.image_width as int) * (hdr.image_height as int);
        if data.len() != spec_expected_len(hdr.pixel_type, hdr.image_width, hdr.image_height) {
            Err(DecodeError::PixelDataSizeMismatch)
        } else {
            let pixels = spec_pixels(hdr.pixel_type, data, n);
            if hdr.pixel_type is Palette {
                if palettes.len() == 0 {
                    Err(DecodeError::MissingPalette)
                } else {
                    match spec_palette_scan(pixels, palettes[0].len() as int, 0) {
                        Err(e) => Err(e),
                        Ok(()) => Ok(ImageModel {
                            header: hdr,
                            comments: spec_comments(blocks),
                            palette: Some(palettes[0]),
                            pixels,
                        }),
                    }
                }
            } else {
                Ok(ImageModel {
                    header: hdr,
                    comments: spec_comments(blocks),
                    palette: if palettes.len() == 1 {
                        Some(palettes[0])
                    } else {
                        None
                    },
                    pixels,
                })
            }
        }
    }
}

/// The decode of a whole byte stream: magic tag, block scan, validation
/// and assembly.  This is the single statement the executable decoder is
/// held to.
pub open spec fn spec_decode(bytes: Seq<u8>) -> Result<ImageModel, DecodeError> {
    if bytes.len() < 8 {
        Err(DecodeError::TruncatedMagic)
    } else if bytes.subrange(0, 8) != spec_magic() {
        Err(DecodeError::BadMagic)
    } else {
        match spec_scan(bytes.subrange(8, bytes.len() as int)) {
            Err(e) => Err(e),
            Ok(blocks) => spec_assemble(blocks),
        }
    }
}

impl ImageModel {
    /// Well-formedness of an assembled image: positive dimensions, a pixel
    /// for every coordinate, pixel variants matching the declared type,
    /// comments printable and block-sized, and every palette index backed
    /// by a present, bounded palette.
    pub open spec fn wf(self) -> bool {
        &&& self.header.image_width >= 1
        &&& self.header.image_height >= 1
        &&& self.pixels.len() == (self.header.image_width as int) * (self.header.image_height
            as int)
        &&& forall|i: int|
            0 <= i < self.pixels.len() ==> crate::pixel::pixel_matches_type(
                #[trigger] self.pixels[i],
                self.header.pixel_type,
            )
        &&& self.header.pixel_type is Palette ==> self.palette is Some
        &&& self.palette matches Some(es) ==> 1 <= es.len() <= 256
        &&& forall|i: int|
            0 <= i < self.pixels.len() ==> (#[trigger] self.pixels[i] matches Pixel::Palette(v)
                ==> self.palette matches Some(es) && (v as int) < es.len())
        &&& forall|k: int|
            0 <= k < self.comments.len() ==> comment_text_ok(#[trigger] self.comments[k])
    }
}

/// Whether a comment text could have come off the wire: nonempty, at most
/// a block's worth of characters, each printable ASCII.
pub open spec fn comment_text_ok(c: Seq<char>) -> bool {
    &&& 1 <= c.len() <= u32::MAX
    &&& forall|i: int| 0 <= i < c.len() ==> 32 <= (#[trigger] c[i]) as u32 <= 127
}

/// What any block coming out of a successful parse looks like: a header
/// with nonzero dimensions, a printable block-sized comment, a nonempty
/// data payload, or a palette of 1 to 256 entries.
pub open spec fn spec_block_wf(b: SpecBlock) -> bool {
    match b {
        SpecBlock::Header(h) => h.image_width >= 1 && h.image_height >= 1,
        SpecBlock::Comment(c) => comment_text_ok(c),
        SpecBlock::Data(d) => 1 <= d.len() <= u32::MAX,
        SpecBlock::Palette(es) => 1 <= es.len() <= 256,
    }
}

/// A block parsed off a stream is well formed, and consumes between 6
/// bytes and the whole stream.
pub proof fn lemma_parse_block_wf(s: Seq<u8>)
    ensures
        spec_parse_block(s) matches Ok((b, n)) ==> spec_block_wf(b) && 6 <= n <= s.len(),
{
    if spec_parse_block(s) matches Ok((b, n)) {
        let len = spec_u32_be(s[1], s[2], s[3], s[4]) as int;
        let payload = s.subrange(5, 5 + len);
        if s[0] == TAG_COMMENT {
            let c = spec_comment_text(payload);
            assert(c.len() == payload.len());
            assert forall|i: int| 0 <= i < c.len() implies 32 <= (#[trigger] c[i]) as u32
                <= 127 by {
                assert(c[i] == payload[i] as char);
                assert(32 <= payload[i] <= 127);
            }
        }
        if s[0] == TAG_PALETTE {
            vstd::arithmetic::div_mod::lemma_fundamental_div_mod(payload.len() as int, 3);
        }
    }
}

/// How each classification changes when one more block is appended:
/// exactly the matching collection grows, by that block's payload.
pub proof fn lemma_classify_push(bs: Seq<SpecBlock>, b: SpecBlock)
    ensures
        spec_headers(bs.push(b)) == spec_headers(bs) + (match b {
            SpecBlock::Header(h) => seq![h],
            _ => Seq::<HeaderBlock>::empty(),
        }),
        spec_comments(bs.push(b)) == spec_comments(bs) + (match b {
            SpecBlock::Comment(c) => seq![c],
            _ => Seq::<Seq<char>>::empty(),
        }),
        spec_datas(bs.push(b)) == spec_datas(bs) + (match b {
            SpecBlock::Data(d) => seq![d],
            _ => Seq::<Seq<u8>>::empty(),
        }),
        spec_palettes(bs.push(b)) == spec_palettes(bs) + (match b {
            SpecBlock::Palette(es) => seq![es],
            _ => Seq::<Seq<(u8, u8, u8)>>::empty(),
        }),
{
    assert(bs.push(b).drop_last() =~= bs);
    assert(bs.push(b).last() == b);
}

/// A palette scan that passes has every palette index under the entry
/// count, from its start position on.
pub proof fn lemma_palette_scan_ok(pixels: Seq<Pixel>, count: int, i: int)
    requires
        0 <= i <= pixels.len(),
        spec_palette_scan(pixels, count, i) == Ok::<(), DecodeError>(()),
    ensures
        forall|j: int|
            i <= j < pixels.len() ==> (#[trigger] pixels[j] matches Pixel::Palette(v) ==> (
            v as int) < count),
    decreases pixels.len() - i,
{
    if i < pixels.len() {
        lemma_palette_scan_ok(pixels, count, i + 1);
    }
}

} // verus!
