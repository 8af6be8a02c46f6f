use mini_png::error::DecodeError;
use mini_png::mini_png::MiniPNG;
use mini_png::pixel::{Pixel, PixelType};

fn block(tag: u8, payload: &[u8]) -> Vec<u8> {
    let mut v = Vec::new();
    v.push(tag);
    let len = payload.len() as u32;
    v.extend_from_slice(&len.to_be_bytes());
    v.extend_from_slice(payload);
    v
}

fn file(blocks: &[Vec<u8>]) -> Vec<u8> {
    let mut v = b"Mini-PNG".to_vec();
    for b in blocks {
        v.extend_from_slice(b);
    }
    v
}

fn header(width: u32, height: u32, code: u8) -> Vec<u8> {
    let mut p = Vec::new();
    p.extend_from_slice(&width.to_be_bytes());
    p.extend_from_slice(&height.to_be_bytes());
    p.push(code);
    block(b'H', &p)
}

fn expect_err(bytes: &[u8]) -> DecodeError {
    match MiniPNG::from_bytes(bytes) {
        Ok(_) => panic!("decode unexpectedly succeeded"),
        Err(e) => e,
    }
}

#[test]
fn gray_two_pixels_scenario() {
    let bytes = file(&[header(2, 1, 1), block(b'D', &[10, 200])]);
    let img = MiniPNG::from_bytes(&bytes).unwrap();
    assert_eq!(img.get_image_width(), 2);
    assert_eq!(img.get_image_height(), 1);
    assert_eq!(img.get_pixel_type(), PixelType::GrayLevels);
    assert_eq!(img.get_pixel_at(0, 0), Some(Pixel::Gray(10)));
    assert_eq!(img.get_pixel_at(0, 1), Some(Pixel::Gray(200)));
    assert_eq!(img.get_rgb_at(0, 1), Some((200, 200, 200)));
}

#[test]
fn bw_one_pixel_wrong_payload_size() {
    let bytes = file(&[header(1, 1, 0), block(b'D', &[0x80, 0x00])]);
    assert_eq!(expect_err(&bytes), DecodeError::PixelDataSizeMismatch);
}

#[test]
fn bw_unpacking_is_msb_first() {
    let bytes = file(&[header(8, 1, 0), block(b'D', &[0b1000_0000])]);
    let img = MiniPNG::from_bytes(&bytes).unwrap();
    assert_eq!(img.get_pixel_at(0, 0), Some(Pixel::White));
    for col in 1..8 {
        assert_eq!(img.get_pixel_at(0, col), Some(Pixel::Black));
    }
    assert_eq!(img.get_rgb_at(0, 0), Some((255, 255, 255)));
    assert_eq!(img.get_rgb_at(0, 1), Some((0, 0, 0)));
}

#[test]
fn bw_partial_final_byte() {
    // 3 pixels need ceil(3/8) = 1 data byte; the 5 padding bits are dropped.
    let bytes = file(&[header(3, 1, 0), block(b'D', &[0b1010_0000])]);
    let img = MiniPNG::from_bytes(&bytes).unwrap();
    assert_eq!(img.get_pixel_at(0, 0), Some(Pixel::White));
    assert_eq!(img.get_pixel_at(0, 1), Some(Pixel::Black));
    assert_eq!(img.get_pixel_at(0, 2), Some(Pixel::White));
    assert_eq!(img.get_pixel_at(0, 3), None);
}

#[test]
fn bw_nine_pixels_need_two_bytes() {
    // 9 pixels need ceil(9/8) = 2 data bytes.
    let short = file(&[header(9, 1, 0), block(b'D', &[0xFF])]);
    assert_eq!(expect_err(&short), DecodeError::PixelDataSizeMismatch);
    let exact = file(&[header(9, 1, 0), block(b'D', &[0xFF, 0x00])]);
    let img = MiniPNG::from_bytes(&exact).unwrap();
    assert_eq!(img.get_pixel_at(0, 7), Some(Pixel::White));
    assert_eq!(img.get_pixel_at(0, 8), Some(Pixel::Black));
}

#[test]
fn pixel_at_rejects_out_of_range_coordinates() {
    let bytes = file(&[header(2, 3, 1), block(b'D', &[1, 2, 3, 4, 5, 6])]);
    let img = MiniPNG::from_bytes(&bytes).unwrap();
    for row in 0..3 {
        for col in 0..2 {
            assert!(img.get_pixel_at(row, col).is_some());
        }
    }
    assert_eq!(img.get_pixel_at(3, 0), None);
    assert_eq!(img.get_pixel_at(0, 2), None);
    assert_eq!(img.get_pixel_at(u32::MAX, u32::MAX), None);
    assert_eq!(img.get_rgb_at(3, 0), None);
    // row-major order: row 1, column 0 is the third byte
    assert_eq!(img.get_pixel_at(1, 0), Some(Pixel::Gray(3)));
}

#[test]
fn bad_magic_fails_whatever_follows() {
    let mut bytes = file(&[header(1, 1, 1), block(b'D', &[7])]);
    bytes[0] = b'm';
    assert_eq!(expect_err(&bytes), DecodeError::BadMagic);
}

#[test]
fn truncated_magic_on_short_input() {
    assert_eq!(expect_err(b"Mini"), DecodeError::TruncatedMagic);
    assert_eq!(expect_err(&[]), DecodeError::TruncatedMagic);
}

#[test]
fn magic_alone_misses_the_header() {
    assert_eq!(expect_err(b"Mini-PNG"), DecodeError::MissingHeader);
}

#[test]
fn two_headers_fail() {
    let bytes = file(&[header(1, 1, 1), header(1, 1, 1), block(b'D', &[7])]);
    assert_eq!(expect_err(&bytes), DecodeError::MultipleHeaders);
}

#[test]
fn no_data_block_fails() {
    let bytes = file(&[header(1, 1, 1)]);
    assert_eq!(expect_err(&bytes), DecodeError::MissingData);
}

#[test]
fn palette_type_without_palette_fails() {
    let bytes = file(&[header(1, 1, 2), block(b'D', &[0])]);
    assert_eq!(expect_err(&bytes), DecodeError::MissingPalette);
}

#[test]
fn two_palettes_fail() {
    let bytes = file(&[
        header(1, 1, 2),
        block(b'P', &[1, 2, 3]),
        block(b'P', &[4, 5, 6]),
        block(b'D', &[0]),
    ]);
    assert_eq!(expect_err(&bytes), DecodeError::MultiplePalettes);
}

#[test]
fn stray_bytes_truncate_a_block() {
    let mut bytes = file(&[header(1, 1, 1), block(b'D', &[7])]);
    bytes.extend_from_slice(&[b'C', 0, 0]);
    assert_eq!(expect_err(&bytes), DecodeError::TruncatedHeader);
}

#[test]
fn unrecognized_block_tag_fails() {
    let bytes = file(&[header(1, 1, 1), block(b'X', &[7])]);
    assert_eq!(expect_err(&bytes), DecodeError::InvalidType(b'X'));
}

#[test]
fn zero_length_block_fails() {
    // a declared length of 0, with bytes still following the prefix
    let mut bytes = file(&[header(1, 1, 1)]);
    bytes.extend_from_slice(&[b'D', 0, 0, 0, 0, 99]);
    assert_eq!(expect_err(&bytes), DecodeError::ZeroLength);
}

#[test]
fn five_trailing_bytes_are_a_truncated_block() {
    // the same zero-length block with nothing after its 5-byte prefix is
    // reported as truncated: a block needs at least 6 bytes
    let mut bytes = file(&[header(1, 1, 1)]);
    bytes.extend_from_slice(&[b'D', 0, 0, 0, 0]);
    assert_eq!(expect_err(&bytes), DecodeError::TruncatedHeader);
}

#[test]
fn declared_length_past_end_fails() {
    let mut bytes = file(&[header(1, 1, 1)]);
    bytes.extend_from_slice(&[b'D', 0, 0, 0, 10, 1, 2]);
    assert_eq!(expect_err(&bytes), DecodeError::LengthMismatch);
}

#[test]
fn header_payload_must_be_nine_bytes() {
    let bytes = file(&[block(b'H', &[0, 0, 0, 1, 0, 0, 0, 1])]);
    assert_eq!(expect_err(&bytes), DecodeError::BadHeaderSize);
}

#[test]
fn zero_width_fails() {
    let bytes = file(&[header(0, 5, 1), block(b'D', &[7])]);
    assert_eq!(expect_err(&bytes), DecodeError::ZeroDimension);
}

#[test]
fn zero_height_fails() {
    let bytes = file(&[header(5, 0, 1), block(b'D', &[7])]);
    assert_eq!(expect_err(&bytes), DecodeError::ZeroDimension);
}

#[test]
fn pixel_type_code_above_three_fails() {
    let bytes = file(&[header(1, 1, 7), block(b'D', &[7])]);
    assert_eq!(expect_err(&bytes), DecodeError::UnknownPixelType(7));
}

#[test]
fn control_byte_in_comment_fails() {
    let bytes = file(&[header(1, 1, 1), block(b'C', &[b'h', b'i', 0x01]), block(b'D', &[7])]);
    assert_eq!(expect_err(&bytes), DecodeError::NonAsciiComment);
}

#[test]
fn byte_above_127_in_comment_fails() {
    let bytes = file(&[header(1, 1, 1), block(b'C', &[0xC3, 0xA9]), block(b'D', &[7])]);
    assert_eq!(expect_err(&bytes), DecodeError::NonAsciiComment);
}

#[test]
fn palette_payload_must_be_triples() {
    let bytes = file(&[header(1, 1, 2), block(b'P', &[1, 2, 3, 4]), block(b'D', &[0])]);
    assert_eq!(expect_err(&bytes), DecodeError::PaletteSizeNotMultipleOf3);
}

#[test]
fn palette_of_257_entries_fails() {
    let payload = vec![0u8; 257 * 3];
    let bytes = file(&[header(1, 1, 2), block(b'P', &payload), block(b'D', &[0])]);
    assert_eq!(expect_err(&bytes), DecodeError::TooManyPaletteEntries);
}

#[test]
fn palette_index_at_entry_count_fails_citing_it() {
    let bytes = file(&[header(1, 1, 2), block(b'P', &[9, 9, 9]), block(b'D', &[1])]);
    assert_eq!(expect_err(&bytes), DecodeError::PaletteIndexOutOfRange(1));
}

#[test]
fn palette_index_of_last_entry_succeeds() {
    let bytes = file(&[
        header(1, 1, 2),
        block(b'P', &[1, 2, 3, 40, 50, 60]),
        block(b'D', &[1]),
    ]);
    let img = MiniPNG::from_bytes(&bytes).unwrap();
    assert_eq!(img.get_pixel_at(0, 0), Some(Pixel::Palette(1)));
    assert_eq!(img.get_rgb_at(0, 0), Some((40, 50, 60)));
}

#[test]
fn full_palette_of_256_entries_works() {
    let mut payload = Vec::new();
    for i in 0..256u32 {
        payload.extend_from_slice(&[i as u8, 0, 255 - i as u8]);
    }
    let bytes = file(&[header(1, 1, 2), block(b'P', &payload), block(b'D', &[255])]);
    let img = MiniPNG::from_bytes(&bytes).unwrap();
    assert_eq!(img.get_rgb_at(0, 0), Some((255, 0, 0)));
    let palette = img.get_palette().unwrap();
    assert_eq!(palette.entries().len(), 256);
    assert_eq!(palette.entries()[0], (0, 0, 255));
}

#[test]
fn comments_keep_file_order() {
    let bytes = file(&[
        block(b'C', b"first"),
        header(1, 1, 1),
        block(b'C', b"second"),
        block(b'D', &[7]),
    ]);
    let img = MiniPNG::from_bytes(&bytes).unwrap();
    assert_eq!(img.get_comments(), vec!["first".to_string(), "second".to_string()]);
}

#[test]
fn data_may_be_split_across_blocks() {
    let bytes = file(&[
        header(2, 2, 1),
        block(b'D', &[1, 2]),
        block(b'D', &[3, 4]),
    ]);
    let img = MiniPNG::from_bytes(&bytes).unwrap();
    assert_eq!(img.get_pixel_at(0, 0), Some(Pixel::Gray(1)));
    assert_eq!(img.get_pixel_at(1, 1), Some(Pixel::Gray(4)));
}

#[test]
fn rgb_pixels_decode_in_triples() {
    let bytes = file(&[header(2, 1, 3), block(b'D', &[1, 2, 3, 200, 100, 50])]);
    let img = MiniPNG::from_bytes(&bytes).unwrap();
    assert_eq!(img.get_pixel_type(), PixelType::TwentyFourBitsColors);
    assert_eq!(
        img.get_pixel_at(0, 0),
        Some(Pixel::TwentyFourBitsColors(1, 2, 3))
    );
    assert_eq!(img.get_rgb_at(0, 1), Some((200, 100, 50)));
}

#[test]
fn gray_data_count_must_match_dimensions() {
    let bytes = file(&[header(2, 2, 1), block(b'D', &[1, 2, 3])]);
    assert_eq!(expect_err(&bytes), DecodeError::PixelDataSizeMismatch);
}

#[test]
fn rgb_data_count_must_be_three_per_pixel() {
    let bytes = file(&[header(2, 1, 3), block(b'D', &[1, 2, 3, 4])]);
    assert_eq!(expect_err(&bytes), DecodeError::PixelDataSizeMismatch);
}

#[test]
fn wide_dimensions_read_big_endian() {
    let bytes = file(&[
        block(b'H', &[0x00, 0x00, 0x01, 0x00, 0x00, 0x00, 0x00, 0x02, 1]),
        block(b'D', &vec![9u8; 512]),
    ]);
    let img = MiniPNG::from_bytes(&bytes).unwrap();
    assert_eq!(img.get_image_width(), 256);
    assert_eq!(img.get_image_height(), 2);
}
