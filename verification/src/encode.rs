//! Writing an image back to the wire: block framing, big-endian lengths,
//! and pixel packing, each proved to invert the decoder's model.

use vstd::prelude::*;

use crate::error::DecodeError;
use crate::format::{
    comment_bytes_ok, spec_bw_pixel, spec_comment_text, spec_parse_block, spec_parse_header,
    spec_parse_palette, spec_pixels, spec_scan, spec_u32_be, SpecBlock, TAG_COMMENT, TAG_DATA,
    TAG_HEADER, TAG_PALETTE,
};
use crate::pixel::{pixel_matches_type, Pixel, PixelType};

verus! {

/// The four big-endian base-256 digits of a length in 0..=`u32::MAX`.
pub open spec fn spec_be_bytes(n: int) -> Seq<u8>
    recommends
        0 <= n <= u32::MAX,
{
    seq![
        (n / 0x1000000) as u8,
        ((n / 0x10000) % 0x100) as u8,
        ((n / 0x100) % 0x100) as u8,
        (n % 0x100) as u8,
    ]
}

/// The wire form of one block: the type tag, the payload length as four
/// big-endian bytes, then the payload.
pub open spec fn enc_block(tag: u8, payload: Seq<u8>) -> Seq<u8> {
    seq![tag] + spec_be_bytes(payload.len() as int) + payload
}

/// An encodable item: a recognized tag and a payload that its typed
/// decoder accepts, of a length one block can carry.
pub open spec fn enc_item_ok(it: (u8, Seq<u8>)) -> bool {
    &&& 1 <= it.1.len() <= u32::MAX
    &&& (it.0 == TAG_HEADER || it.0 == TAG_COMMENT || it.0 == TAG_DATA || it.0 == TAG_PALETTE)
    &&& (it.0 == TAG_HEADER ==> spec_parse_header(it.1) is Ok)
    &&& (it.0 == TAG_COMMENT ==> comment_bytes_ok(it.1))
    &&& (it.0 == TAG_PALETTE ==> spec_parse_palette(it.1) is Ok)
}

/// The block an encodable item decodes back to.
pub open spec fn item_block(it: (u8, Seq<u8>)) -> SpecBlock {
    if it.0 == TAG_HEADER {
        match spec_parse_header(it.1) {
            Ok(h) => SpecBlock::Header(h),
            Err(_) => SpecBlock::Data(it.1),
        }
    } else if it.0 == TAG_COMMENT {
        SpecBlock::Comment(spec_comment_text(it.1))
    } else if it.0 == TAG_DATA {
        SpecBlock::Data(it.1)
    } else {
        match spec_parse_palette(it.1) {
            Ok(es) => SpecBlock::Palette(es),
            Err(_) => SpecBlock::Data(it.1),
        }
    }
}

/// The blocks a list of items decodes back to, in order.
pub open spec fn items_blocks(items: Seq<(u8, Seq<u8>)>) -> Seq<SpecBlock> {
    Seq::new(items.len(), |k: int| item_block(items[k]))
}

/// The concatenated wire form of a list of items.
pub open spec fn enc_all(items: Seq<(u8, Seq<u8>)>) -> Seq<u8>
    decreases items.len(),
{
    if items.len() == 0 {
        Seq::empty()
    } else {
        enc_block(items[0].0, items[0].1) + enc_all(items.drop_first())
    }
}

/// The big-endian digits of a length read back as the length itself.
pub proof fn lemma_be_round_trip(n: int)
    requires
        0 <= n <= u32::MAX,
    ensures
        spec_u32_be(
            spec_be_bytes(n)[0],
            spec_be_bytes(n)[1],
            spec_be_bytes(n)[2],
            spec_be_bytes(n)[3],
        ) as int == n,
{
    let d0 = n / 0x1000000;
    let d1 = (n / 0x10000) % 0x100;
    let d2 = (n / 0x100) % 0x100;
    let d3 = n % 0x100;
    vstd::arithmetic::div_mod::lemma_fundamental_div_mod(n, 0x1000000);
    vstd::arithmetic::div_mod::lemma_mod_division_less_than_divisor(n / 0x10000, 0x100);
    vstd::arithmetic::div_mod::lemma_mod_division_less_than_divisor(n / 0x100, 0x100);
    vstd::arithmetic::div_mod::lemma_mod_division_less_than_divisor(n, 0x100);
    vstd::arithmetic::div_mod::lemma_fundamental_div_mod(n, 0x100);
    vstd::arithmetic::div_mod::lemma_fundamental_div_mod(n / 0x100, 0x100);
    vstd::arithmetic::div_mod::lemma_div_denominator(n, 0x100, 0x100);
    vstd::arithmetic::div_mod::lemma_fundamental_div_mod(n / 0x10000, 0x100);
    vstd::arithmetic::div_mod::lemma_div_denominator(n, 0x10000, 0x100);
    assert(0x1000000 * d0 + 0x10000 * d1 + 0x100 * d2 + d3 == n);
    assert(0 <= d0 < 0x100);
}

/// Appending one item extends the wire form by that item's block.
pub proof fn lemma_enc_all_push(items: Seq<(u8, Seq<u8>)>, it: (u8, Seq<u8>))
    ensures
        enc_all(items.push(it)) == enc_all(items) + enc_block(it.0, it.1),
    decreases items.len(),
{
    if items.len() == 0 {
        assert(items.push(it)[0] == it);
        assert(items.push(it).drop_first() =~= Seq::<(u8, Seq<u8>)>::empty());
        assert(enc_all(items.push(it)) == enc_block(it.0, it.1) + enc_all(
            Seq::<(u8, Seq<u8>)>::empty(),
        ));
        assert(enc_all(Seq::<(u8, Seq<u8>)>::empty()) == Seq::<u8>::empty());
        assert(enc_all(items) == Seq::<u8>::empty());
        assert(enc_block(it.0, it.1) + Seq::<u8>::empty() =~= enc_block(it.0, it.1));
        assert(Seq::<u8>::empty() + enc_block(it.0, it.1) =~= enc_block(it.0, it.1));
    } else {
        lemma_enc_all_push(items.drop_first(), it);
        assert(items.push(it)[0] == items[0]);
        assert(items.push(it).drop_first() =~= items.drop_first().push(it));
        assert(enc_block(items[0].0, items[0].1) + (enc_all(items.drop_first()) + enc_block(
            it.0,
            it.1,
        )) =~= (enc_block(items[0].0, items[0].1) + enc_all(items.drop_first())) + enc_block(
            it.0,
            it.1,
        ));
    }
}

/// An encoded item at the front of a stream parses back to its block,
/// consuming exactly the item's wire form.
pub proof fn lemma_parse_enc_block(tag: u8, payload: Seq<u8>, rest: Seq<u8>)
    requires
        enc_item_ok((tag, payload)),
    ensures
        spec_parse_block(enc_block(tag, payload) + rest) == Ok::<(SpecBlock, int), DecodeError>(
            (item_block((tag, payload)), 5 + payload.len() as int),
        ),
{
    let s = enc_block(tag, payload) + rest;
    let plen = payload.len() as int;
    let be = spec_be_bytes(plen);
    assert(s.len() == 5 + plen + rest.len());
    assert(s[0] == tag);
    assert(s[1] == be[0] && s[2] == be[1] && s[3] == be[2] && s[4] == be[3]);
    lemma_be_round_trip(plen);
    assert(spec_u32_be(s[1], s[2], s[3], s[4]) as int == plen);
    assert(s.subrange(5, 5 + plen) =~= payload);
}

/// Scanning a stream that opens with one encoded item parses that item's
/// block and goes on with the remainder.
pub proof fn lemma_scan_step(it: (u8, Seq<u8>), rest: Seq<u8>)
    requires
        enc_item_ok(it),
    ensures
        spec_scan(enc_block(it.0, it.1) + rest) == (match spec_scan(rest) {
            Ok(bs) => Ok::<Seq<SpecBlock>, DecodeError>(seq![item_block(it)] + bs),
            Err(e) => Err::<Seq<SpecBlock>, DecodeError>(e),
        }),
{
    let s = enc_block(it.0, it.1) + rest;
    lemma_parse_enc_block(it.0, it.1, rest);
    assert(s.len() > 0);
    assert(s.subrange(5 + it.1.len() as int, s.len() as int) =~= rest);
}

/// The scan of a concatenation of encoded items recovers exactly their
/// blocks, in order.
pub proof fn lemma_scan_enc_all(items: Seq<(u8, Seq<u8>)>)
    requires
        forall|k: int| 0 <= k < items.len() ==> enc_item_ok(#[trigger] items[k]),
    ensures
        spec_scan(enc_all(items)) == Ok::<Seq<SpecBlock>, DecodeError>(items_blocks(items)),
    decreases items.len(),
{
    if items.len() == 0 {
        assert(items_blocks(items) =~= Seq::<SpecBlock>::empty());
    } else {
        let it0 = items[0];
        let rest_items = items.drop_first();
        assert(enc_all(items) == enc_block(it0.0, it0.1) + enc_all(rest_items));
        assert forall|k: int| 0 <= k < rest_items.len() implies enc_item_ok(
            #[trigger] rest_items[k],
        ) by {
            assert(rest_items[k] == items[k + 1]);
        }
        lemma_scan_enc_all(rest_items);
        lemma_scan_step(it0, enc_all(rest_items));
        assert(items_blocks(items) =~= seq![item_block(it0)] + items_blocks(rest_items));
    }
}

/// A palette scan over pixels whose indices all lie under the entry count
/// passes.
pub proof fn lemma_palette_scan_all_good(pixels: Seq<Pixel>, count: int, i: int)
    requires
        0 <= i <= pixels.len(),
        forall|j: int|
            i <= j < pixels.len() ==> (#[trigger] pixels[j] matches Pixel::Palette(v) ==> (
            v as int) < count),
    ensures
        crate::format::spec_palette_scan(pixels, count, i) == Ok::<(), DecodeError>(()),
    decreases pixels.len() - i,
{
    if i < pixels.len() {
        lemma_palette_scan_all_good(pixels, count, i + 1);
    }
}

/// The big-endian digit bytes of a block length.
pub(crate) fn be_bytes_of_len(l: usize) -> (r: (u8, u8, u8, u8))
    requires
        l as int <= u32::MAX,
    ensures
        seq![r.0, r.1, r.2, r.3] == spec_be_bytes(l as int),
        spec_u32_be(r.0, r.1, r.2, r.3) as int == l as int,
{
    proof {
        vstd::arithmetic::div_mod::lemma_fundamental_div_mod(l as int, 0x1000000);
        vstd::arithmetic::div_mod::lemma_mod_division_less_than_divisor(l as int / 0x10000, 0x100);
        vstd::arithmetic::div_mod::lemma_mod_division_less_than_divisor(l as int / 0x100, 0x100);
        vstd::arithmetic::div_mod::lemma_mod_division_less_than_divisor(l as int, 0x100);
        lemma_be_round_trip(l as int);
    }
    let r = (
        (l / 0x1000000) as u8,
        ((l / 0x10000) % 0x100) as u8,
        ((l / 0x100) % 0x100) as u8,
        (l % 0x100) as u8,
    );
    proof {
        assert(seq![r.0, r.1, r.2, r.3] =~= spec_be_bytes(l as int));
    }
    r
}

/// Appends one framed block: tag, big-endian length, payload.
pub(crate) fn push_block(out: &mut Vec<u8>, tag: u8, payload: &Vec<u8>)
    requires
        1 <= payload@.len() <= u32::MAX,
    ensures
        final(out)@ == old(out)@ + enc_block(tag, payload@),
{
    let ghost before = out@;
    out.push(tag);
    let (b0, b1, b2, b3) = be_bytes_of_len(payload.len());
    out.push(b0);
    out.push(b1);
    out.push(b2);
    out.push(b3);
    let mut i: usize = 0;
    while i < payload.len()
        invariant
            0 <= i <= payload@.len(),
            out@ == before + seq![tag] + spec_be_bytes(payload@.len() as int) + payload@.take(
                i as int,
            ),
        decreases payload@.len() - i,
    {
        out.push(payload[i]);
        i += 1;
        proof {
            assert(out@ =~= before + seq![tag] + spec_be_bytes(payload@.len() as int)
                + payload@.take(i as int));
        }
    }
    proof {
        assert(payload@.take(payload@.len() as int) =~= payload@);
        assert(before + seq![tag] + spec_be_bytes(payload@.len() as int) + payload@ =~= before
            + enc_block(tag, payload@));
    }
}

/// Whether the bit for a pixel position is set when packing black and
/// white pixels: white is 1, black — and any padding position past the
/// end — is 0.
pub open spec fn spec_bw_bit(pixels: Seq<Pixel>, idx: int) -> u8 {
    if 0 <= idx < pixels.len() && pixels[idx] is White {
        1
    } else {
        0
    }
}

/// The packed bit for one pixel position.
fn bw_bit(pixels: &Vec<Pixel>, idx: u128) -> (r: u8)
    ensures
        r == spec_bw_bit(pixels@, idx as int),
        r <= 1,
{
    proof {
        vstd::std_specs::vec::axiom_spec_len(pixels);
    }
    if idx < pixels.len() as u128 {
        match pixels[idx as usize] {
            Pixel::White => 1,
            _ => 0,
        }
    } else {
        0
    }
}

/// How each packed bit is read back out of a byte built from eight bits,
/// most significant first.
proof fn lemma_bw_byte_bits(b0: u8, b1: u8, b2: u8, b3: u8, b4: u8, b5: u8, b6: u8, b7: u8, x: u8)
    by (bit_vector)
    requires
        b0 <= 1,
        b1 <= 1,
        b2 <= 1,
        b3 <= 1,
        b4 <= 1,
        b5 <= 1,
        b6 <= 1,
        b7 <= 1,
        x == b0 * 128 + b1 * 64 + b2 * 32 + b3 * 16 + b4 * 8 + b5 * 4 + b6 * 2 + b7,
    ensures
        (x >> 7u8) & 1 == b0,
        (x >> 6u8) & 1 == b1,
        (x >> 5u8) & 1 == b2,
        (x >> 4u8) & 1 == b3,
        (x >> 3u8) & 1 == b4,
        (x >> 2u8) & 1 == b5,
        (x >> 1u8) & 1 == b6,
        (x >> 0u8) & 1 == b7,
{
}

/// Packs a pixel sequence back into the data bytes its pixel type uses on
/// the wire: bits most-significant-first for black and white (padding the
/// final byte with zero bits), one byte per gray level or palette index,
/// three bytes per 24-bit color.  Decoding the result yields the pixels
/// back.
#[verifier::loop_isolation(false)]
pub(crate) fn pack_pixels(pixel_type: PixelType, pixels: &Vec<Pixel>) -> (r: Vec<u8>)
    requires
        forall|i: int|
            0 <= i < pixels@.len() ==> pixel_matches_type(#[trigger] pixels@[i], pixel_type),
    ensures
        r@.len() as int == (match pixel_type {
            PixelType::BlackAndWhite => (pixels@.len() as int + 7) / 8,
            PixelType::GrayLevels => pixels@.len() as int,
            PixelType::Palette => pixels@.len() as int,
            PixelType::TwentyFourBitsColors => 3 * pixels@.len() as int,
        }),
        spec_pixels(pixel_type, r@, pixels@.len() as int) == pixels@,
{
    let ghost n = pixels@.len() as int;
    let mut out: Vec<u8> = Vec::new();
    match pixel_type {
        PixelType::BlackAndWhite => {
            let byte_count = pixels.len() / 8 + (if pixels.len() % 8 != 0 {
                1
            } else {
                0
            });
            proof {
                vstd::arithmetic::div_mod::lemma_fundamental_div_mod(n, 8);
                if n % 8 == 0 {
                    vstd::arithmetic::div_mod::lemma_fundamental_div_mod_converse(
                        n + 7,
                        8,
                        n / 8,
                        7,
                    );
                } else {
                    vstd::arithmetic::div_mod::lemma_fundamental_div_mod_converse(
                        n + 7,
                        8,
                        n / 8 + 1,
                        n % 8 - 1,
                    );
                }
                assert(byte_count as int == (n + 7) / 8);
                assert(8 * (byte_count as int) >= n);
            }
            let mut i: usize = 0;
            while i < byte_count
                invariant
                    0 <= i <= byte_count,
                    byte_count as int == (n + 7) / 8,
                    8 * (byte_count as int) >= n,
                    out@.len() == i,
                    forall|idx: int|
                        0 <= idx < 8 * (i as int) && idx < n ==> spec_bw_pixel(
                            out@[idx / 8],
                            idx % 8,
                        ) == #[trigger] pixels@[idx],
                decreases byte_count - i,
            {
                let base: u128 = 8u128 * (i as u128);
                let b0 = bw_bit(pixels, base);
                let b1 = bw_bit(pixels, base + 1);
                let b2 = bw_bit(pixels, base + 2);
                let b3 = bw_bit(pixels, base + 3);
                let b4 = bw_bit(pixels, base + 4);
                let b5 = bw_bit(pixels, base + 5);
                let b6 = bw_bit(pixels, base + 6);
                let b7 = bw_bit(pixels, base + 7);
                let byte: u8 = b0 * 128 + b1 * 64 + b2 * 32 + b3 * 16 + b4 * 8 + b5 * 4 + b6 * 2
                    + b7;
                out.push(byte);
                i += 1;
                proof {
                    lemma_bw_byte_bits(b0, b1, b2, b3, b4, b5, b6, b7, byte);
                    assert forall|idx: int|
                        0 <= idx < 8 * (i as int) && idx < n implies spec_bw_pixel(
                        out@[idx / 8],
                        idx % 8,
                    ) == #[trigger] pixels@[idx] by {
                        if idx < 8 * (i as int - 1) {
                            vstd::arithmetic::div_mod::lemma_fundamental_div_mod(idx, 8);
                            assert(idx / 8 < i as int - 1 || idx / 8 == i as int - 1);
                            assert(0 <= idx / 8 < out@.len() - 1 || idx / 8 == out@.len() - 1);
                        } else {
                            let j = idx - 8 * (i as int - 1);
                            vstd::arithmetic::div_mod::lemma_fundamental_div_mod_converse(
                                idx,
                                8,
                                i as int - 1,
                                j,
                            );
                            assert(out@[idx / 8] == byte);
                            assert(pixels@[idx] is White || pixels@[idx] is Black);
                        }
                    }
                }
            }
            proof {
                assert(out@.len() as int == (n + 7) / 8);
                assert(spec_pixels(pixel_type, out@, n) =~= pixels@) by {
                    assert forall|idx: int| 0 <= idx < n implies spec_pixels(
                        pixel_type,
                        out@,
                        n,
                    )[idx] == pixels@[idx] by {
                        assert(spec_pixels(pixel_type, out@, n)[idx] == spec_bw_pixel(
                            out@[idx / 8],
                            idx % 8,
                        ));
                    }
                }
            }
        },
        PixelType::GrayLevels => {
            let mut i: usize = 0;
            while i < pixels.len()
                invariant
                    0 <= i <= n,
                    out@.len() == i,
                    forall|m: int|
                        0 <= m < i ==> (#[trigger] pixels@[m] matches Pixel::Gray(v) ==> out@[m]
                            == v),
                decreases n - i,
            {
                match pixels[i] {
                    Pixel::Gray(v) => out.push(v),
                    _ => {
                        proof {
                            assert(false);
                        }
                        out.push(0)
                    },
                }
                i += 1;
            }
            proof {
                assert(spec_pixels(pixel_type, out@, n) =~= pixels@);
            }
        },
        PixelType::Palette => {
            let mut i: usize = 0;
            while i < pixels.len()
                invariant
                    0 <= i <= n,
                    out@.len() == i,
                    forall|m: int|
                        0 <= m < i ==> (#[trigger] pixels@[m] matches Pixel::Palette(v) ==> out@[m]
                            == v),
                decreases n - i,
            {
                match pixels[i] {
                    Pixel::Palette(v) => out.push(v),
                    _ => {
                        proof {
                            assert(false);
                        }
                        out.push(0)
                    },
                }
                i += 1;
            }
            proof {
                assert(spec_pixels(pixel_type, out@, n) =~= pixels@);
            }
        },
        PixelType::TwentyFourBitsColors => {
            let mut i: usize = 0;
            while i < pixels.len()
                invariant
                    0 <= i <= n,
                    out@.len() == 3 * i,
                    forall|m: int|
                        0 <= m < i ==> (#[trigger] pixels@[m] matches
                            Pixel::TwentyFourBitsColors(
                            a,
                            b,
                            c,
                        ) ==> out@[3 * m] == a && out@[3 * m + 1] == b && out@[3 * m + 2] == c),
                decreases n - i,
            {
                match pixels[i] {
                    Pixel::TwentyFourBitsColors(a, b, c) => {
                        out.push(a);
                        out.push(b);
                        out.push(c);
                    },
                    _ => {
                        proof {
                            assert(false);
                        }
                    },
                }
                i += 1;
            }
            proof {
                vstd::arithmetic::div_mod::lemma_mod_multiples_basic(n, 3);
                vstd::arithmetic::div_mod::lemma_div_multiples_vanish(n, 3);
                assert(out@.len() as int / 3 == n);
                assert(spec_pixels(pixel_type, out@, n) =~= pixels@);
            }
        },
    }
    out
}

} // verus!
