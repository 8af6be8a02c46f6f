//! Format-level laws: properties every decode obeys, stated once and
//! proved against the wire-format model that `MiniPNG::from_bytes` is
//! held to.

use vstd::prelude::*;

use crate::error::DecodeError;
use crate::format::{
    spec_datas, spec_decode, spec_expected_len, spec_headers, spec_magic, spec_palette_scan,
    spec_palettes, spec_pixels, spec_scan, ImageModel, SpecBlock,
};
use crate::pixel::{Pixel, PixelType};

verus! {

/// Any stream of at least 8 bytes whose prefix differs from the literal
/// magic tag fails with `BadMagic`, regardless of the remaining content.
pub proof fn lemma_bad_magic(bytes: Seq<u8>)
    requires
        bytes.len() >= 8,
        bytes.subrange(0, 8) != spec_magic(),
    ensures
        spec_decode(bytes) == Err::<ImageModel, DecodeError>(DecodeError::BadMagic),
{
}

/// A file that scans cleanly but holds two or more header blocks fails
/// with `MultipleHeaders`.
pub proof fn lemma_multiple_headers(bytes: Seq<u8>, blocks: Seq<SpecBlock>)
    requires
        bytes.len() >= 8,
        bytes.subrange(0, 8) == spec_magic(),
        spec_scan(bytes.subrange(8, bytes.len() as int)) == Ok::<Seq<SpecBlock>, DecodeError>(
            blocks,
        ),
        spec_headers(blocks).len() >= 2,
    ensures
        spec_decode(bytes) == Err::<ImageModel, DecodeError>(DecodeError::MultipleHeaders),
{
}

/// A file that scans cleanly, holds exactly one header but no data block,
/// fails with `MissingData`.
pub proof fn lemma_missing_data(bytes: Seq<u8>, blocks: Seq<SpecBlock>)
    requires
        bytes.len() >= 8,
        bytes.subrange(0, 8) == spec_magic(),
        spec_scan(bytes.subrange(8, bytes.len() as int)) == Ok::<Seq<SpecBlock>, DecodeError>(
            blocks,
        ),
        spec_headers(blocks).len() == 1,
        spec_datas(blocks).len() == 0,
    ensures
        spec_decode(bytes) == Err::<ImageModel, DecodeError>(DecodeError::MissingData),
{
}

/// A palette-typed file whose data passes the size check but which holds
/// no palette block fails with `MissingPalette`.
pub proof fn lemma_missing_palette(bytes: Seq<u8>, blocks: Seq<SpecBlock>)
    requires
        bytes.len() >= 8,
        bytes.subrange(0, 8) == spec_magic(),
        spec_scan(bytes.subrange(8, bytes.len() as int)) == Ok::<Seq<SpecBlock>, DecodeError>(
            blocks,
        ),
        spec_headers(blocks).len() == 1,
        spec_datas(blocks).len() >= 1,
        spec_palettes(blocks).len() == 0,
        spec_headers(blocks)[0].pixel_type is Palette,
        crate::format::spec_concat(spec_datas(blocks)).len() == spec_expected_len(
            spec_headers(blocks)[0].pixel_type,
            spec_headers(blocks)[0].image_width,
            spec_headers(blocks)[0].image_height,
        ),
    ensures
        spec_decode(bytes) == Err::<ImageModel, DecodeError>(DecodeError::MissingPalette),
{
}

/// A palette scan over pixels among which some palette index reaches the
/// entry count fails, and the error names an index that is indeed out of
/// range.
pub proof fn lemma_palette_scan_finds_bad(pixels: Seq<Pixel>, count: int, i: int)
    requires
        0 <= i <= pixels.len(),
        exists|j: int|
            i <= j < pixels.len() && (#[trigger] pixels[j] matches Pixel::Palette(v) && (
            v as int) >= count),
    ensures
        spec_palette_scan(pixels, count, i) matches Err(e) && e matches
            DecodeError::PaletteIndexOutOfRange(v) && (v as int) >= count,
    decreases pixels.len() - i,
{
    let j0 = choose|j: int|
        i <= j < pixels.len() && (#[trigger] pixels[j] matches Pixel::Palette(v) && (v as int)
            >= count);
    if pixels[i] matches Pixel::Palette(v) && (v as int) >= count {
    } else {
        assert(j0 >= i + 1);
        lemma_palette_scan_finds_bad(pixels, count, i + 1);
    }
}

/// The pixels a scanned block sequence decodes to, assuming it carries a
/// header: the concatenated data payloads run through the pixel decode of
/// the declared type and dimensions.
pub open spec fn decoded_pixels(blocks: Seq<SpecBlock>) -> Seq<Pixel>
    recommends
        spec_headers(blocks).len() >= 1,
{
    let hdr = spec_headers(blocks)[0];
    spec_pixels(
        hdr.pixel_type,
        crate::format::spec_concat(spec_datas(blocks)),
        (hdr.image_width as int) * (hdr.image_height as int),
    )
}

/// A palette-typed file that scans cleanly, carries exactly one header,
/// at least one data block and exactly one palette, and whose data passes
/// the size check, fails with `PaletteIndexOutOfRange` as soon as any
/// decoded pixel's index (here: the one at position `j`) reaches the
/// palette's entry count — and the error cites an index that really is
/// out of range.
pub proof fn lemma_palette_index_out_of_range(bytes: Seq<u8>, blocks: Seq<SpecBlock>, j: int)
    requires
        bytes.len() >= 8,
        bytes.subrange(0, 8) == spec_magic(),
        spec_scan(bytes.subrange(8, bytes.len() as int)) == Ok::<Seq<SpecBlock>, DecodeError>(
            blocks,
        ),
        spec_headers(blocks).len() == 1,
        spec_datas(blocks).len() >= 1,
        spec_palettes(blocks).len() == 1,
        spec_headers(blocks)[0].pixel_type is Palette,
        crate::format::spec_concat(spec_datas(blocks)).len() == spec_expected_len(
            spec_headers(blocks)[0].pixel_type,
            spec_headers(blocks)[0].image_width,
            spec_headers(blocks)[0].image_height,
        ),
        0 <= j < decoded_pixels(blocks).len(),
        decoded_pixels(blocks)[j] matches Pixel::Palette(v) && (v as int) >= spec_palettes(
            blocks,
        )[0].len(),
    ensures
        spec_decode(bytes) matches Err(e) && e matches DecodeError::PaletteIndexOutOfRange(v) && (
        v as int) >= spec_palettes(blocks)[0].len(),
{
    let pixels = decoded_pixels(blocks);
    let count = spec_palettes(blocks)[0].len() as int;
    assert(exists|jj: int|
        0 <= jj < pixels.len() && (#[trigger] pixels[jj] matches Pixel::Palette(v) && (v as int)
            >= count)) by {
        assert(0 <= j < pixels.len() && (pixels[j] matches Pixel::Palette(v) && (v as int)
            >= count));
    }
    lemma_palette_scan_finds_bad(pixels, count, 0);
}

/// Black-and-white bit unpacking is MSB-first: a data buffer opening with
/// the byte `0b1000_0000` decodes to one white pixel followed by seven
/// black ones.
pub proof fn lemma_bw_msb_first(data: Seq<u8>, n: int)
    requires
        data.len() >= 1,
        8 <= n <= 8 * data.len(),
        data[0] == 0x80,
    ensures
        spec_pixels(PixelType::BlackAndWhite, data, n)[0] == Pixel::White,
        forall|j: int|
            1 <= j < 8 ==> spec_pixels(PixelType::BlackAndWhite, data, n)[j] == Pixel::Black,
{
    assert((0x80u8 >> 7u8) & 1 == 1) by (bit_vector);
    assert(spec_pixels(PixelType::BlackAndWhite, data, n)[0] == Pixel::White);
    assert forall|j: int| 1 <= j < 8 implies spec_pixels(PixelType::BlackAndWhite, data, n)[j]
        == Pixel::Black by {
        let jj = j as u8;
        assert((0x80u8 >> ((7 - jj) as u8)) & 1 == 0) by (bit_vector)
            requires
                1 <= jj < 8,
        ;
        assert(j / 8 == 0 && j % 8 == j);
    }
}

} // verus!
