use mini_png::block::{Block, BlockContent};
use mini_png::comment_block::CommentBlock;
use mini_png::data_block::DataBlock;
use mini_png::error::DecodeError;
use mini_png::header_block::HeaderBlock;
use mini_png::palette_block::PaletteBlock;
use mini_png::pixel::PixelType;

#[test]
fn header_block_reads_big_endian_fields() {
    let payload = [0x01, 0x02, 0x03, 0x04, 0x00, 0x00, 0x00, 0x07, 3];
    let h = HeaderBlock::from_bytes(&payload).unwrap();
    assert_eq!(h.get_image_width(), 0x01020304);
    assert_eq!(h.get_image_height(), 7);
    assert_eq!(h.get_pixel_type(), PixelType::TwentyFourBitsColors);
}

#[test]
fn header_block_rejects_wrong_sizes_and_codes() {
    match HeaderBlock::from_bytes(&[0; 8]) {
        Err(e) => assert_eq!(e, DecodeError::BadHeaderSize),
        Ok(_) => panic!("short header accepted"),
    }
    match HeaderBlock::from_bytes(&[0, 0, 0, 0, 0, 0, 0, 1, 0]) {
        Err(e) => assert_eq!(e, DecodeError::ZeroDimension),
        Ok(_) => panic!("zero width accepted"),
    }
    match HeaderBlock::from_bytes(&[0, 0, 0, 1, 0, 0, 0, 1, 4]) {
        Err(e) => assert_eq!(e, DecodeError::UnknownPixelType(4)),
        Ok(_) => panic!("code 4 accepted"),
    }
}

#[test]
fn pixel_type_codes_cover_zero_to_three() {
    assert_eq!(PixelType::from_code(0), Ok(PixelType::BlackAndWhite));
    assert_eq!(PixelType::from_code(1), Ok(PixelType::GrayLevels));
    assert_eq!(PixelType::from_code(2), Ok(PixelType::Palette));
    assert_eq!(PixelType::from_code(3), Ok(PixelType::TwentyFourBitsColors));
    assert_eq!(
        PixelType::from_code(9),
        Err(DecodeError::UnknownPixelType(9))
    );
    assert_eq!(PixelType::GrayLevels.code(), 1);
}

#[test]
fn comment_block_decodes_its_text() {
    let c = CommentBlock::from_bytes(b"hello world").unwrap();
    assert_eq!(c.get_comment(), "hello world");
}

#[test]
fn comment_block_rejects_unprintable_bytes() {
    match CommentBlock::from_bytes(&[b'o', b'k', 31]) {
        Err(e) => assert_eq!(e, DecodeError::NonAsciiComment),
        Ok(_) => panic!("control byte accepted"),
    }
}

#[test]
fn data_block_hands_its_bytes_back() {
    let d = DataBlock::from_bytes(&[1, 2, 3]);
    assert_eq!(d.contents(), vec![1, 2, 3]);
    assert_eq!(d.get_bytes(), vec![1, 2, 3]);
}

#[test]
fn palette_block_chunks_entries_in_order() {
    let p = PaletteBlock::from_bytes(&[1, 2, 3, 4, 5, 6]).unwrap();
    assert_eq!(p.entries(), vec![(1, 2, 3), (4, 5, 6)]);
    assert_eq!(p.len(), 2);
    assert_eq!(p.entry(1), (4, 5, 6));
}

#[test]
fn palette_block_rejects_bad_sizes() {
    match PaletteBlock::from_bytes(&[1, 2]) {
        Err(e) => assert_eq!(e, DecodeError::PaletteSizeNotMultipleOf3),
        Ok(_) => panic!("two bytes accepted"),
    }
    match PaletteBlock::from_bytes(&vec![0u8; 771]) {
        Err(e) => assert_eq!(e, DecodeError::TooManyPaletteEntries),
        Ok(_) => panic!("771 bytes accepted"),
    }
}

#[test]
fn block_parses_tag_length_and_payload() {
    let bytes = [b'D', 0, 0, 0, 2, 9, 8, 77];
    let b = Block::from_bytes(&bytes).unwrap();
    assert_eq!(b.block_length, 2);
    match b.content {
        BlockContent::Data(d) => assert_eq!(d.contents(), vec![9, 8]),
        _ => panic!("not a data block"),
    }
}

#[test]
fn block_propagates_its_payload_decoder_error() {
    let bytes = [b'C', 0, 0, 0, 1, 0x00];
    match Block::from_bytes(&bytes) {
        Err(e) => assert_eq!(e, DecodeError::NonAsciiComment),
        Ok(_) => panic!("bad comment accepted"),
    }
}
