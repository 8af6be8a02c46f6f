use mini_png::mini_png::MiniPNG;
use mini_png::pixel::{Pixel, PixelType};

fn block(tag: u8, payload: &[u8]) -> Vec<u8> {
    let mut v = Vec::new();
    v.push(tag);
    let len = payload.len() as u32;
    v.extend_from_slice(&len.to_be_bytes());
    v.extend_from_slice(payload);
    v
}

fn file(blocks: &[Vec<u8>]) -> Vec<u8> {
    let mut v = b"Mini-PNG".to_vec();
    for b in blocks {
        v.extend_from_slice(b);
    }
    v
}

fn header(width: u32, height: u32, code: u8) -> Vec<u8> {
    let mut p = Vec::new();
    p.extend_from_slice(&width.to_be_bytes());
    p.extend_from_slice(&height.to_be_bytes());
    p.push(code);
    block(b'H', &p)
}

fn assert_same_image(a: &MiniPNG, b: &MiniPNG) {
    assert_eq!(a.get_image_width(), b.get_image_width());
    assert_eq!(a.get_image_height(), b.get_image_height());
    assert_eq!(a.get_pixel_type(), b.get_pixel_type());
    assert_eq!(a.get_comments(), b.get_comments());
    match (a.get_palette(), b.get_palette()) {
        (Some(pa), Some(pb)) => assert_eq!(pa.entries(), pb.entries()),
        (None, None) => {},
        _ => panic!("palettes differ"),
    }
    for row in 0..a.get_image_height() {
        for col in 0..a.get_image_width() {
            assert_eq!(a.get_pixel_at(row, col), b.get_pixel_at(row, col));
            assert_eq!(a.get_rgb_at(row, col), b.get_rgb_at(row, col));
        }
    }
}

#[test]
fn round_trip_black_and_white() {
    let bytes = file(&[
        header(10, 2, 0),
        block(b'C', b"bw image"),
        block(b'D', &[0b1010_1010, 0b0101_0101, 0b1111_0000]),
    ]);
    let img = MiniPNG::from_bytes(&bytes).unwrap();
    let encoded = img.to_bytes().unwrap();
    let again = MiniPNG::from_bytes(&encoded).unwrap();
    assert_same_image(&img, &again);
}

#[test]
fn round_trip_gray_levels() {
    let bytes = file(&[header(3, 2, 1), block(b'D', &[0, 50, 100, 150, 200, 250])]);
    let img = MiniPNG::from_bytes(&bytes).unwrap();
    let encoded = img.to_bytes().unwrap();
    let again = MiniPNG::from_bytes(&encoded).unwrap();
    assert_same_image(&img, &again);
}

#[test]
fn round_trip_palette() {
    let bytes = file(&[
        header(2, 2, 2),
        block(b'C', b"palette image"),
        block(b'P', &[10, 20, 30, 40, 50, 60, 70, 80, 90]),
        block(b'D', &[0, 1, 2, 1]),
    ]);
    let img = MiniPNG::from_bytes(&bytes).unwrap();
    let encoded = img.to_bytes().unwrap();
    let again = MiniPNG::from_bytes(&encoded).unwrap();
    assert_same_image(&img, &again);
    assert_eq!(again.get_rgb_at(1, 0), Some((70, 80, 90)));
}

#[test]
fn round_trip_twenty_four_bit_colors() {
    let bytes = file(&[
        header(2, 1, 3),
        block(b'C', b"one"),
        block(b'C', b"two"),
        block(b'D', &[9, 8, 7, 6, 5, 4]),
    ]);
    let img = MiniPNG::from_bytes(&bytes).unwrap();
    let encoded = img.to_bytes().unwrap();
    let again = MiniPNG::from_bytes(&encoded).unwrap();
    assert_same_image(&img, &again);
    assert_eq!(again.get_comments(), vec!["one".to_string(), "two".to_string()]);
}

#[test]
fn round_trip_merges_split_data_blocks() {
    let bytes = file(&[
        header(2, 2, 1),
        block(b'D', &[1]),
        block(b'D', &[2, 3]),
        block(b'D', &[4]),
    ]);
    let img = MiniPNG::from_bytes(&bytes).unwrap();
    let encoded = img.to_bytes().unwrap();
    let again = MiniPNG::from_bytes(&encoded).unwrap();
    assert_same_image(&img, &again);
    assert_eq!(again.get_pixel_at(1, 1), Some(Pixel::Gray(4)));
}

#[test]
fn round_trip_keeps_bw_partial_byte() {
    // 5 pixels: one data byte, three padding bits.
    let bytes = file(&[header(5, 1, 0), block(b'D', &[0b1101_1000])]);
    let img = MiniPNG::from_bytes(&bytes).unwrap();
    let encoded = img.to_bytes().unwrap();
    let again = MiniPNG::from_bytes(&encoded).unwrap();
    assert_eq!(again.get_pixel_type(), PixelType::BlackAndWhite);
    assert_same_image(&img, &again);
}
