//! The image assembler and the assembled image's query surface.

use vstd::prelude::*;

use crate::block::{Block, BlockContent};
use crate::comment_block::CommentBlock;
use crate::data_block::DataBlock;
use crate::error::DecodeError;
use crate::encode::{
    enc_all, enc_item_ok, item_block, items_blocks, lemma_enc_all_push,
    lemma_palette_scan_all_good, lemma_scan_enc_all, pack_pixels, push_block,
};
use crate::format::{
    comment_text_ok, lemma_classify_push, lemma_palette_scan_ok, spec_assemble, spec_bw_pixel,
    spec_comments, spec_concat, spec_datas, spec_decode, spec_expected_len, spec_headers,
    spec_magic, spec_palette_scan, spec_palettes, spec_parse_header, spec_pixels, spec_scan,
    spec_u32_be, ImageModel, SpecBlock, TAG_COMMENT, TAG_DATA, TAG_HEADER, TAG_PALETTE,
};
use crate::header_block::HeaderBlock;
use crate::palette_block::PaletteBlock;
use crate::pixel::{pixel_matches_type, Pixel, PixelType};

verus! {

/// The view of a sequence of comment blocks: their texts, in order.
pub open spec fn comment_views(cs: Seq<CommentBlock>) -> Seq<Seq<char>> {
    Seq::new(cs.len(), |i: int| cs[i]@)
}

/// The view of a sequence of data blocks: their payloads, in order.
pub open spec fn data_views(ds: Seq<DataBlock>) -> Seq<Seq<u8>> {
    Seq::new(ds.len(), |i: int| ds[i]@)
}

/// The view of a sequence of palette blocks: their entry tables, in order.
pub open spec fn palette_views(ps: Seq<PaletteBlock>) -> Seq<Seq<(u8, u8, u8)>> {
    Seq::new(ps.len(), |i: int| ps[i]@)
}

/// The color triple a pixel resolves to: black and white map to the two
/// extremes, a gray level repeats its value, a palette index looks its
/// entry up, and a 24-bit pixel is already a triple.  A palette index at
/// or past the table — impossible in a decoded image — falls back to
/// black, keeping the function total.
pub open spec fn spec_rgb(m: ImageModel, p: Pixel) -> (u8, u8, u8) {
    match p {
        Pixel::Black => (0, 0, 0),
        Pixel::White => (255, 255, 255),
        Pixel::Gray(v) => (v, v, v),
        Pixel::TwentyFourBitsColors(r, g, b) => (r, g, b),
        Pixel::Palette(i) => match m.palette {
            Some(es) => if (i as int) < es.len() {
                es[i as int]
            } else {
                (0, 0, 0)
            },
            None => (0, 0, 0),
        },
    }
}

/// A fully decoded MiniPNG image: one header, the comments in file order,
/// an optional palette, and one pixel per coordinate in row-major order.
/// A value of this type only comes out of a successful decode, so its
/// well-formedness — positive dimensions, `width * height` pixels whose
/// variant matches the declared pixel type, every palette index in range —
/// holds of every value.
pub struct MiniPNG {
    header_block: HeaderBlock,
    comment_blocks: Vec<CommentBlock>,
    palette_block: Option<PaletteBlock>,
    pixels: Vec<Pixel>,
}

impl View for MiniPNG {
    type V = ImageModel;

    closed spec fn view(&self) -> ImageModel {
        ImageModel {
            header: self.header_block,
            comments: comment_views(self.comment_blocks@),
            palette: match self.palette_block {
                Some(p) => Some(p@),
                None => None,
            },
            pixels: self.pixels@,
        }
    }
}

/// Scans and classifies every block of the stream that follows the magic
/// tag: blocks are parsed left to right until no bytes remain, and each
/// decoded payload joins the ordered collection of its kind.  The ghost
/// component is the scanned block sequence itself.
#[verifier::loop_isolation(false)]
fn scan_blocks(tail: &[u8]) -> (r: Result<
    (Vec<HeaderBlock>, Vec<CommentBlock>, Vec<DataBlock>, Vec<PaletteBlock>, Ghost<Seq<SpecBlock>>),
    DecodeError,
>)
    ensures
        match r {
            Ok(t) => {
                &&& spec_scan(tail@) == Ok::<Seq<SpecBlock>, DecodeError>(t.4@)
                &&& t.0@ == spec_headers(t.4@)
                &&& comment_views(t.1@) == spec_comments(t.4@)
                &&& data_views(t.2@) == spec_datas(t.4@)
                &&& palette_views(t.3@) == spec_palettes(t.4@)
                &&& forall|k: int|
                    0 <= k < t.0@.len() ==> (#[trigger] t.0@[k]).image_width >= 1
                        && t.0@[k].image_height >= 1
                &&& forall|k: int| 0 <= k < t.1@.len() ==> comment_text_ok((#[trigger] t.1@[k])@)
                &&& forall|k: int| 0 <= k < t.3@.len() ==> 1 <= (#[trigger] t.3@[k])@.len() <= 256
            },
            Err(e) => spec_scan(tail@) == Err::<Seq<SpecBlock>, DecodeError>(e),
        },
{
    let mut rest: &[u8] = tail;
    let mut header_blocks: Vec<HeaderBlock> = Vec::new();
    let mut comment_blocks: Vec<CommentBlock> = Vec::new();
    let mut data_blocks: Vec<DataBlock> = Vec::new();
    let mut palette_blocks: Vec<PaletteBlock> = Vec::new();
    let ghost mut done: Seq<SpecBlock> = Seq::empty();

    while rest.len() > 0
        invariant
            match spec_scan(rest@) {
                Ok(rb) => spec_scan(tail@) == Ok::<Seq<SpecBlock>, DecodeError>(done + rb),
                Err(e) => spec_scan(tail@) == Err::<Seq<SpecBlock>, DecodeError>(e),
            },
            header_blocks@ == spec_headers(done),
            comment_views(comment_blocks@) == spec_comments(done),
            data_views(data_blocks@) == spec_datas(done),
            palette_views(palette_blocks@) == spec_palettes(done),
            forall|k: int|
                0 <= k < header_blocks@.len() ==> (#[trigger] header_blocks@[k]).image_width >= 1
                    && header_blocks@[k].image_height >= 1,
            forall|k: int|
                0 <= k < comment_blocks@.len() ==> comment_text_ok(
                    (#[trigger] comment_blocks@[k])@,
                ),
            forall|k: int|
                0 <= k < palette_blocks@.len() ==> 1 <= (#[trigger] palette_blocks@[k])@.len()
                    <= 256,
        decreases rest@.len(),
    {
        let ghost s = rest@;
        let block = match Block::from_bytes(rest) {
            Ok(b) => b,
            Err(e) => {
                proof {
                    assert(spec_scan(s) == Err::<Seq<SpecBlock>, DecodeError>(e));
                }
                return Err(e);
            },
        };
        let consumed: usize = 5 + block.block_length as usize;
        let ghost blk = block.content@;
        let ghost prev_done = done;
        let ghost prev_comments = comment_blocks@;
        let ghost prev_datas = data_blocks@;
        let ghost prev_palettes = palette_blocks@;
        let ghost prev_headers = header_blocks@;
        proof {
            done = prev_done.push(blk);
            lemma_classify_push(prev_done, blk);
        }
        match block.content {
            BlockContent::Header(h) => {
                header_blocks.push(h);
                proof {
                    assert(header_blocks@ =~= spec_headers(prev_done) + seq![h]);
                }
            },
            BlockContent::Comment(c) => {
                comment_blocks.push(c);
                proof {
                    assert(comment_views(comment_blocks@) =~= spec_comments(prev_done) + seq![c@]);
                }
            },
            BlockContent::Data(d) => {
                data_blocks.push(d);
                proof {
                    assert(data_views(data_blocks@) =~= spec_datas(prev_done) + seq![d@]);
                }
            },
            BlockContent::Palette(p) => {
                palette_blocks.push(p);
                proof {
                    assert(palette_views(palette_blocks@) =~= spec_palettes(prev_done) + seq![p@]);
                }
            },
        }
        proof {
            assert(spec_headers(prev_done) + Seq::<HeaderBlock>::empty() =~= spec_headers(
                prev_done,
            ));
            assert(spec_comments(prev_done) + Seq::<Seq<char>>::empty() =~= spec_comments(
                prev_done,
            ));
            assert(spec_datas(prev_done) + Seq::<Seq<u8>>::empty() =~= spec_datas(prev_done));
            assert(spec_palettes(prev_done) + Seq::<Seq<(u8, u8, u8)>>::empty() =~= spec_palettes(
                prev_done,
            ));
            if blk !is Header {
                assert(header_blocks@ =~= prev_headers);
            }
            if blk !is Comment {
                assert(comment_views(comment_blocks@) =~= comment_views(prev_comments));
            }
            if blk !is Data {
                assert(data_views(data_blocks@) =~= data_views(prev_datas));
            }
            if blk !is Palette {
                assert(palette_views(palette_blocks@) =~= palette_views(prev_palettes));
            }
        }
        let new_rest = vstd::slice::slice_subrange(rest, consumed, rest.len());
        proof {
            assert(new_rest@ == s.subrange(consumed as int, s.len() as int));
            match spec_scan(new_rest@) {
                Ok(rb2) => {
                    assert(spec_scan(s) == Ok::<Seq<SpecBlock>, DecodeError>(seq![blk] + rb2));
                    assert(prev_done + (seq![blk] + rb2) =~= done + rb2);
                },
                Err(_) => {},
            }
        }
        rest = new_rest;
    }
    proof {
        assert(spec_scan(rest@) == Ok::<Seq<SpecBlock>, DecodeError>(Seq::empty()));
        assert(done + Seq::<SpecBlock>::empty() =~= done);
    }
    Ok((header_blocks, comment_blocks, data_blocks, palette_blocks, Ghost(done)))
}

/// Concatenates the data payloads, in the order their blocks appeared in
/// the stream, into the single buffer the pixel decode works on.
#[verifier::loop_isolation(false)]
fn concat_data(data_blocks: &Vec<DataBlock>) -> (r: Vec<u8>)
    ensures
        r@ == spec_concat(data_views(data_blocks@)),
{
    let ghost dviews = data_views(data_blocks@);
    let mut data_bytes: Vec<u8> = Vec::new();
    let mut di: usize = 0;
    while di < data_blocks.len()
        invariant
            0 <= di <= data_blocks@.len(),
            data_bytes@ == spec_concat(dviews.take(di as int)),
        decreases data_blocks@.len() - di,
    {
        let d = data_blocks[di].contents();
        let ghost before = data_bytes@;
        let mut j: usize = 0;
        while j < d.len()
            invariant
                0 <= j <= d@.len(),
                data_bytes@ == before + d@.take(j as int),
            decreases d@.len() - j,
        {
            data_bytes.push(d[j]);
            j += 1;
            proof {
                assert(data_bytes@ =~= before + d@.take(j as int));
            }
        }
        di += 1;
        proof {
            assert(d@.take(d@.len() as int) =~= d@);
            let t = dviews.take(di as int);
            assert(t.drop_last() =~= dviews.take(di - 1));
            assert(t.last() == dviews[di - 1]);
            assert(data_bytes@ == spec_concat(t));
        }
    }
    proof {
        assert(dviews.take(data_blocks@.len() as int) =~= dviews);
    }
    data_bytes
}

impl MiniPNG {
    /// Every image value is well formed; see `ImageModel::wf`.
    #[verifier::type_invariant]
    closed spec fn inv(self) -> bool {
        self@.wf()
    }

    /// Decodes a whole MiniPNG byte stream: the 8-byte magic tag, the
    /// block scan, the cross-block validation, the byte-to-pixel decode
    /// and the palette check.  Returns exactly what the wire-format model
    /// `spec_decode` assigns to the bytes: the assembled image on success,
    /// the first failure otherwise.
    pub fn from_bytes(bytes: &[u8]) -> (r: Result<MiniPNG, DecodeError>)
        ensures
            match r {
                Ok(img) => spec_decode(bytes@) == Ok::<ImageModel, DecodeError>(img@),
                Err(e) => spec_decode(bytes@) == Err::<ImageModel, DecodeError>(e),
            },
    {
        if bytes.len() < 8 {
            return Err(DecodeError::TruncatedMagic);
        }
        let magic_ok = bytes[0] == 77 && bytes[1] == 105 && bytes[2] == 110 && bytes[3] == 105
            && bytes[4] == 45 && bytes[5] == 80 && bytes[6] == 78 && bytes[7] == 71;
        proof {
            let s = bytes@.subrange(0, 8);
            assert(s[0] == bytes@[0] && s[1] == bytes@[1] && s[2] == bytes@[2] && s[3] == bytes@[3]
                && s[4] == bytes@[4] && s[5] == bytes@[5] && s[6] == bytes@[6] && s[7]
                == bytes@[7]);
            if magic_ok {
                assert(s =~= spec_magic());
            } else {
                assert(s != spec_magic());
            }
        }
        if !magic_ok {
            return Err(DecodeError::BadMagic);
        }

        let tail = vstd::slice::slice_subrange(bytes, 8, bytes.len());
        let scanned = match scan_blocks(tail) {
            Ok(t) => t,
            Err(e) => {
                return Err(e);
            },
        };
        let (header_blocks, comment_blocks, data_blocks, palette_blocks, done_g) = scanned;
        let ghost done = done_g@;

        if header_blocks.len() == 0 {
            return Err(DecodeError::MissingHeader);
        }
        if header_blocks.len() > 1 {
            return Err(DecodeError::MultipleHeaders);
        }
        let header_block = header_blocks[0];
        if data_blocks.len() == 0 {
            return Err(DecodeError::MissingData);
        }
        if palette_blocks.len() > 1 {
            return Err(DecodeError::MultiplePalettes);
        }

        let data_bytes = concat_data(&data_blocks);

        let w = header_block.image_width;
        let h = header_block.image_height;
        proof {
            assert((w as int) * (h as int) <= 0xffffffff * 0xffffffff) by (nonlinear_arith)
                requires
                    0 <= w as int <= 0xffffffff,
                    0 <= h as int <= 0xffffffff,
            ;
        }
        let n128: u128 = (w as u128) * (h as u128);
        let expected: u128 = match header_block.pixel_type {
            PixelType::BlackAndWhite => (n128 + 7) / 8,
            PixelType::GrayLevels => n128,
            PixelType::Palette => n128,
            PixelType::TwentyFourBitsColors => 3 * n128,
        };
        proof {
            assert(expected as int == spec_expected_len(header_block.pixel_type, w, h));
        }
        if (data_bytes.len() as u128) != expected {
            return Err(DecodeError::PixelDataSizeMismatch);
        }

        let pixels = process_pixels(header_block.pixel_type, &data_bytes, n128);

        let is_palette_type = match header_block.pixel_type {
            PixelType::Palette => true,
            _ => false,
        };
        if is_palette_type {
            match palette_consistency_checks(&palette_blocks, &pixels) {
                Ok(_) => {},
                Err(e) => {
                    return Err(e);
                },
            }
        }

        let palette_block = if palette_blocks.len() == 1 {
            let pb = &palette_blocks[0];
            Some(pb.clone())
        } else {
            None
        };

        let ghost m = ImageModel {
            header: header_block,
            comments: comment_views(comment_blocks@),
            palette: match &palette_block {
                Some(p) => Some(p@),
                None => None,
            },
            pixels: pixels@,
        };
        proof {
            let t = header_block.pixel_type;
            let n = (w as int) * (h as int);
            assert(spec_headers(done).len() == 1 && spec_headers(done)[0] == header_block);
            assert(pixels@ == spec_pixels(t, data_bytes@, n));
            assert forall|i: int| 0 <= i < pixels@.len() implies pixel_matches_type(
                #[trigger] pixels@[i],
                t,
            ) by {
                assert(pixels@[i] == spec_pixels(t, data_bytes@, n)[i]);
            }
            if is_palette_type {
                assert(palette_blocks@.len() == 1);
                lemma_palette_scan_ok(pixels@, palette_blocks@[0]@.len() as int, 0);
            }
            assert forall|k: int| 0 <= k < m.comments.len() implies comment_text_ok(
                #[trigger] m.comments[k],
            ) by {
                assert(m.comments[k] == comment_blocks@[k]@);
            }
            assert(m.wf());
        }
        let img = MiniPNG { header_block, comment_blocks, palette_block, pixels };
        proof {
            assert(img@ == m);
            assert(spec_comments(done) == m.comments);
            assert(spec_assemble(done) == Ok::<ImageModel, DecodeError>(m));
        }
        Ok(img)
    }

    /// The image width in pixels; always at least 1.
    pub fn get_image_width(&self) -> (r: u32)
        ensures
            r == self@.header.image_width,
            r >= 1,
    {
        proof {
            use_type_invariant(&*self);
        }
        self.header_block.get_image_width()
    }

    /// The image height in pixels; always at least 1.
    pub fn get_image_height(&self) -> (r: u32)
        ensures
            r == self@.header.image_height,
            r >= 1,
    {
        proof {
            use_type_invariant(&*self);
        }
        self.header_block.get_image_height()
    }

    /// The pixel encoding the image's data used.
    pub fn get_pixel_type(&self) -> (r: PixelType)
        ensures
            r == self@.header.pixel_type,
    {
        self.header_block.get_pixel_type()
    }

    /// The comment texts, in the order their blocks appeared in the file.
    pub fn get_comments(&self) -> (r: Vec<String>)
        ensures
            r.deep_view() == self@.comments,
    {
        let ghost cv = comment_views(self.comment_blocks@);
        let mut r: Vec<String> = Vec::new();
        let mut i: usize = 0;
        while i < self.comment_blocks.len()
            invariant
                0 <= i <= self.comment_blocks@.len(),
                cv == comment_views(self.comment_blocks@),
                r@.len() == i,
                forall|j: int| 0 <= j < i ==> (#[trigger] r@[j])@ == cv[j],
            decreases self.comment_blocks@.len() - i,
        {
            let c = self.comment_blocks[i].get_comment();
            r.push(c);
            i += 1;
        }
        proof {
            assert forall|j: int| 0 <= j < r@.len() implies r.deep_view()[j] == cv[j] by {
                assert(r.deep_view()[j] == r@[j]@);
            }
            assert(r.deep_view() =~= cv);
        }
        r
    }

    /// The pixel at row `x`, column `y`, or `None` when either coordinate
    /// is out of range.  In range, the pixel sits at flat row-major index
    /// `x * width + y`.  Never panics, whatever the coordinates.
    pub fn get_pixel_at(&self, x: u32, y: u32) -> (r: Option<Pixel>)
        ensures
            (x as int) < self@.header.image_height && (y as int) < self@.header.image_width ==> r
                == Some(
                self@.pixels[(x as int) * (self@.header.image_width as int) + (y as int)],
            ),
            (x as int) >= self@.header.image_height || (y as int) >= self@.header.image_width
                ==> r is None,
    {
        proof {
            use_type_invariant(&*self);
        }
        let image_width = self.header_block.image_width;
        let image_height = self.header_block.image_height;
        if y >= image_width || x >= image_height {
            return None;
        }
        proof {
            vstd::std_specs::vec::axiom_spec_len(&self.pixels);
            assert((x as int) * (image_width as int) + (y as int) < (image_width as int) * (
            image_height as int)) by (nonlinear_arith)
                requires
                    (x as int) < (image_height as int),
                    (y as int) < (image_width as int),
                    image_width >= 1,
            ;
            assert(self.pixels@.len() == (image_width as int) * (image_height as int));
        }
        let idx: u64 = (x as u64) * (image_width as u64) + (y as u64);
        Some(self.pixels[idx as usize])
    }

    /// The pixel at row `x`, column `y`, resolved to a concrete RGB
    /// triple, or `None` when either coordinate is out of range.  The
    /// palette lookup a palette-typed pixel needs cannot fail: the decode
    /// that built this image already checked every index.
    pub fn get_rgb_at(&self, x: u32, y: u32) -> (r: Option<(u8, u8, u8)>)
        ensures
            (x as int) < self@.header.image_height && (y as int) < self@.header.image_width ==> r
                == Some(
                spec_rgb(
                    self@,
                    self@.pixels[(x as int) * (self@.header.image_width as int) + (y as int)],
                ),
            ),
            (x as int) >= self@.header.image_height || (y as int) >= self@.header.image_width
                ==> r is None,
    {
        proof {
            use_type_invariant(&*self);
        }
        let image_width = self.header_block.image_width;
        let image_height = self.header_block.image_height;
        if y >= image_width || x >= image_height {
            return None;
        }
        let ghost k = (x as int) * (image_width as int) + (y as int);
        proof {
            assert((x as int) * (image_width as int) + (y as int) < (image_width as int) * (
            image_height as int)) by (nonlinear_arith)
                requires
                    (x as int) < (image_height as int),
                    (y as int) < (image_width as int),
                    image_width >= 1,
            ;
            assert(0 <= k < self@.pixels.len());
        }
        let pixel = match self.get_pixel_at(x, y) {
            Some(p) => p,
            None => {
                return None;
            },
        };
        proof {
            assert(pixel == self@.pixels[k]);
        }
        let rgb = match pixel {
            Pixel::Black => (0, 0, 0),
            Pixel::White => (255, 255, 255),
            Pixel::Gray(v) => (v, v, v),
            Pixel::TwentyFourBitsColors(r, g, b) => (r, g, b),
            Pixel::Palette(i) => {
                proof {
                    assert(self@.pixels[k] matches Pixel::Palette(v) && self@.palette matches Some(
                        es,
                    ) && (v as int) < es.len());
                }
                match &self.palette_block {
                    Some(p) => p.entry(i as usize),
                    None => {
                        // unreachable: a palette pixel always has its palette
                        (0, 0, 0)
                    },
                }
            },
        };
        Some(rgb)
    }

    /// Writes the image back to a complete MiniPNG byte stream: the magic
    /// tag, one header block, one comment block per comment in file
    /// order, the palette block when the image has one, and a single data
    /// block holding the packed pixels.  Decoding the result yields this
    /// image back exactly.  Returns `None` only when the packed pixel
    /// data does not fit one block's 32-bit length field.
    #[verifier::loop_isolation(false)]
    #[verifier::rlimit(100)]
    pub fn to_bytes(&self) -> (r: Option<Vec<u8>>)
        ensures
            r matches Some(v) ==> spec_decode(v@) == Ok::<ImageModel, DecodeError>(self@),
            spec_expected_len(
                self@.header.pixel_type,
                self@.header.image_width,
                self@.header.image_height,
            ) <= u32::MAX ==> r is Some,
    {
        proof {
            use_type_invariant(&*self);
        }
        let w = self.header_block.image_width;
        let h = self.header_block.image_height;
        let t = self.header_block.pixel_type;
        let ghost n = (w as int) * (h as int);
        let data = pack_pixels(t, &self.pixels);
        proof {
            assert(n >= 1) by (nonlinear_arith)
                requires
                    w >= 1,
                    h >= 1,
                    n == (w as int) * (h as int),
            ;
            assert(data@.len() as int == spec_expected_len(t, w, h));
            if t is BlackAndWhite {
                vstd::arithmetic::div_mod::lemma_fundamental_div_mod(n + 7, 8);
            }
            assert(data@.len() >= 1);
        }
        if data.len() as u64 > 0xffffffff {
            return None;
        }
        let mut out: Vec<u8> = Vec::new();
        out.push(77);
        out.push(105);
        out.push(110);
        out.push(105);
        out.push(45);
        out.push(80);
        out.push(78);
        out.push(71);
        let ghost magic = out@;
        proof {
            assert(magic =~= spec_magic());
        }

        let mut hpayload: Vec<u8> = Vec::new();
        let (w0, w1, w2, w3) = crate::encode::be_bytes_of_len(w as usize);
        hpayload.push(w0);
        hpayload.push(w1);
        hpayload.push(w2);
        hpayload.push(w3);
        let (h0, h1, h2, h3) = crate::encode::be_bytes_of_len(h as usize);
        hpayload.push(h0);
        hpayload.push(h1);
        hpayload.push(h2);
        hpayload.push(h3);
        let code = t.code();
        hpayload.push(code);
        proof {
            assert(hpayload@.len() == 9);
            assert(spec_u32_be(hpayload@[0], hpayload@[1], hpayload@[2], hpayload@[3]) == w);
            assert(spec_u32_be(hpayload@[4], hpayload@[5], hpayload@[6], hpayload@[7]) == h);
            assert(hpayload@[8] == code);
            assert(spec_parse_header(hpayload@) == Ok::<HeaderBlock, DecodeError>(
                self.header_block,
            ));
        }

        let ghost mut items: Seq<(u8, Seq<u8>)> = Seq::empty();
        let ghost mut bs: Seq<SpecBlock> = Seq::empty();
        proof {
            assert(enc_all(items) == Seq::<u8>::empty());
            assert(out@ =~= magic + enc_all(items));
            assert(items_blocks(items) =~= bs);
        }

        push_block(&mut out, TAG_HEADER, &hpayload);
        proof {
            let it = (TAG_HEADER, hpayload@);
            let blk = SpecBlock::Header(self.header_block);
            lemma_enc_all_push(items, it);
            lemma_classify_push(bs, blk);
            let prev_items = items;
            let prev_bs = bs;
            items = prev_items.push(it);
            bs = prev_bs.push(blk);
            assert(enc_item_ok(it));
            assert(item_block(it) == blk);
            assert forall|k: int| 0 <= k < items.len() implies enc_item_ok(
                #[trigger] items[k],
            ) by {
                if k < prev_items.len() {
                    assert(items[k] == prev_items[k]);
                } else {
                    assert(items[k] == it);
                }
            }
            assert(items_blocks(items) =~= bs);
            assert(out@ =~= magic + enc_all(items));
            assert(spec_headers(bs) =~= seq![self.header_block]);
            assert(spec_comments(bs) =~= Seq::<Seq<char>>::empty());
            assert(spec_datas(bs) =~= Seq::<Seq<u8>>::empty());
            assert(spec_palettes(bs) =~= Seq::<Seq<(u8, u8, u8)>>::empty());
        }

        let mut ci: usize = 0;
        while ci < self.comment_blocks.len()
            invariant
                0 <= ci <= self.comment_blocks@.len(),
                out@ == magic + enc_all(items),
                forall|k: int| 0 <= k < items.len() ==> enc_item_ok(#[trigger] items[k]),
                items_blocks(items) == bs,
                spec_headers(bs) == seq![self.header_block],
                spec_comments(bs) == self@.comments.take(ci as int),
                spec_datas(bs) == Seq::<Seq<u8>>::empty(),
                spec_palettes(bs) == Seq::<Seq<(u8, u8, u8)>>::empty(),
            decreases self.comment_blocks@.len() - ci,
        {
            let cpayload = self.comment_blocks[ci].payload_bytes();
            proof {
                assert(self@.comments[ci as int] == self.comment_blocks@[ci as int]@);
                assert(comment_text_ok(self@.comments[ci as int]));
            }
            push_block(&mut out, TAG_COMMENT, &cpayload);
            proof {
                let it = (TAG_COMMENT, cpayload@);
                let blk = SpecBlock::Comment(self.comment_blocks@[ci as int]@);
                lemma_enc_all_push(items, it);
                lemma_classify_push(bs, blk);
                let prev_items = items;
                let prev_bs = bs;
                items = prev_items.push(it);
                bs = prev_bs.push(blk);
                assert(enc_item_ok(it));
                assert(item_block(it) == blk);
                assert forall|k: int| 0 <= k < items.len() implies enc_item_ok(
                    #[trigger] items[k],
                ) by {
                    if k < prev_items.len() {
                        assert(items[k] == prev_items[k]);
                    } else {
                        assert(items[k] == it);
                    }
                }
                assert(items_blocks(items) =~= bs);
                assert(out@ =~= magic + enc_all(items));
                assert(spec_headers(bs) =~= seq![self.header_block]);
                assert(spec_comments(bs) =~= self@.comments.take(ci as int + 1));
                assert(spec_datas(bs) =~= Seq::<Seq<u8>>::empty());
                assert(spec_palettes(bs) =~= Seq::<Seq<(u8, u8, u8)>>::empty());
            }
            ci += 1;
        }
        proof {
            assert(self@.comments.take(self.comment_blocks@.len() as int) =~= self@.comments);
        }

        match &self.palette_block {
            Some(p) => {
                let ppayload = p.to_payload();
                push_block(&mut out, TAG_PALETTE, &ppayload);
                proof {
                    let it = (TAG_PALETTE, ppayload@);
                    let blk = SpecBlock::Palette(p@);
                    lemma_enc_all_push(items, it);
                    lemma_classify_push(bs, blk);
                    let prev_items = items;
                    let prev_bs = bs;
                    items = prev_items.push(it);
                    bs = prev_bs.push(blk);
                    assert(enc_item_ok(it));
                    assert(item_block(it) == blk);
                    assert forall|k: int| 0 <= k < items.len() implies enc_item_ok(
                        #[trigger] items[k],
                    ) by {
                        if k < prev_items.len() {
                            assert(items[k] == prev_items[k]);
                        } else {
                            assert(items[k] == it);
                        }
                    }
                    assert(items_blocks(items) =~= bs);
                    assert(out@ =~= magic + enc_all(items));
                    assert(spec_headers(bs) =~= seq![self.header_block]);
                    assert(spec_comments(bs) =~= self@.comments);
                    assert(spec_datas(bs) =~= Seq::<Seq<u8>>::empty());
                    assert(spec_palettes(bs) =~= seq![p@]);
                }
            },
            None => {},
        }

        push_block(&mut out, TAG_DATA, &data);
        proof {
            let it = (TAG_DATA, data@);
            let blk = SpecBlock::Data(data@);
            lemma_enc_all_push(items, it);
            lemma_classify_push(bs, blk);
            let prev_items = items;
            let prev_bs = bs;
            items = prev_items.push(it);
            bs = prev_bs.push(blk);
            assert(enc_item_ok(it));
            assert(item_block(it) == blk);
            assert forall|k: int| 0 <= k < items.len() implies enc_item_ok(
                #[trigger] items[k],
            ) by {
                if k < prev_items.len() {
                    assert(items[k] == prev_items[k]);
                } else {
                    assert(items[k] == it);
                }
            }
            assert(items_blocks(items) =~= bs);
            assert(out@ =~= magic + enc_all(items));
            assert(spec_headers(bs) =~= seq![self.header_block]);
            assert(spec_comments(bs) =~= self@.comments);
            assert(spec_datas(bs) =~= seq![data@]);
            assert(spec_palettes(bs) == (match self@.palette {
                Some(es) => seq![es],
                None => Seq::<Seq<(u8, u8, u8)>>::empty(),
            }));
        }

        proof {
            lemma_scan_enc_all(items);
            assert(out@.len() >= 8);
            assert(out@.subrange(0, 8) =~= spec_magic());
            assert(out@.subrange(8, out@.len() as int) =~= enc_all(items));
            assert(spec_scan(out@.subrange(8, out@.len() as int)) == Ok::<
                Seq<SpecBlock>,
                DecodeError,
            >(bs));
            assert(spec_concat(spec_datas(bs)) =~= data@) by {
                assert(seq![data@].drop_last() =~= Seq::<Seq<u8>>::empty());
                assert(spec_concat(seq![data@]) == spec_concat(seq![data@].drop_last())
                    + seq![data@].last());
                assert(Seq::<u8>::empty() + data@ =~= data@);
            }
            assert(spec_pixels(t, data@, n) == self@.pixels);
            if t is Palette {
                assert(self@.palette is Some);
                lemma_palette_scan_all_good(self@.pixels, spec_palettes(bs)[0].len() as int, 0);
            }
            assert(spec_assemble(bs) == Ok::<ImageModel, DecodeError>(self@)) by {
                assert(spec_headers(bs).len() == 1 && spec_headers(bs)[0] == self.header_block);
                let mm = ImageModel {
                    header: self.header_block,
                    comments: spec_comments(bs),
                    palette: if spec_palettes(bs).len() == 1 {
                        Some(spec_palettes(bs)[0])
                    } else {
                        None
                    },
                    pixels: spec_pixels(t, spec_concat(spec_datas(bs)), n),
                };
                assert(mm =~= self@);
            }
            assert(spec_decode(out@) == Ok::<ImageModel, DecodeError>(self@));
        }
        Some(out)
    }

    /// The palette, when the file carried one.
    pub fn get_palette(&self) -> (r: Option<PaletteBlock>)
        ensures
            match r {
                Some(p) => self@.palette == Some(p@),
                None => self@.palette is None,
            },
    {
        match &self.palette_block {
            Some(p) => Some(p.clone()),
            None => None,
        }
    }
}

/// Converts the concatenated data bytes into the row-major pixel
/// sequence for the declared pixel type.  The caller has already checked
/// that the byte count matches the `pixel_count = width * height` pixels
/// to produce.
#[verifier::loop_isolation(false)]
fn process_pixels(pixel_type: PixelType, pixels_bytes: &Vec<u8>, pixel_count: u128) -> (r: Vec<
    Pixel,
>)
    requires
        match pixel_type {
            PixelType::BlackAndWhite => pixels_bytes@.len() as int == ((pixel_count as int) + 7)
                / 8,
            PixelType::GrayLevels => pixels_bytes@.len() as int == pixel_count as int,
            PixelType::Palette => pixels_bytes@.len() as int == pixel_count as int,
            PixelType::TwentyFourBitsColors => pixels_bytes@.len() as int == 3 * (
            pixel_count as int),
        },
    ensures
        r@ == spec_pixels(pixel_type, pixels_bytes@, pixel_count as int),
        r@.len() == pixel_count as int,
{
    let ghost data = pixels_bytes@;
    let ghost n = pixel_count as int;
    let mut result: Vec<Pixel> = Vec::new();
    match pixel_type {
        PixelType::BlackAndWhite => {
            let mut i: usize = 0;
            while i < pixels_bytes.len()
                invariant
                    0 <= i <= data.len(),
                    result@.len() == (if 8 * (i as int) <= n {
                        8 * (i as int)
                    } else {
                        n
                    }),
                    forall|m: int|
                        0 <= m < result@.len() ==> #[trigger] result@[m] == spec_bw_pixel(
                            data[m / 8],
                            m % 8,
                        ),
                decreases data.len() - i,
            {
                let byte = pixels_bytes[i];
                let mut k: usize = 0;
                while k < 8
                    invariant
                        0 <= k <= 8,
                        i < data.len(),
                        byte == data[i as int],
                        result@.len() == (if 8 * (i as int) + (k as int) <= n {
                            8 * (i as int) + (k as int)
                        } else {
                            n
                        }),
                        forall|m: int|
                            0 <= m < result@.len() ==> #[trigger] result@[m] == spec_bw_pixel(
                                data[m / 8],
                                m % 8,
                            ),
                    decreases 8 - k,
                {
                    if (result.len() as u128) < pixel_count {
                        let ghost m = result@.len() as int;
                        proof {
                            assert(m == 8 * (i as int) + (k as int));
                            vstd::arithmetic::div_mod::lemma_fundamental_div_mod_converse(
                                m,
                                8,
                                i as int,
                                k as int,
                            );
                        }
                        let shift: u8 = (7 - k) as u8;
                        if (byte >> shift) & 1 == 1 {
                            result.push(Pixel::White);
                        } else {
                            result.push(Pixel::Black);
                        }
                        proof {
                            assert(result@[m] == spec_bw_pixel(data[m / 8], m % 8));
                        }
                    }
                    k += 1;
                }
                i += 1;
            }
            proof {
                assert(8 * (data.len() as int) >= n) by {
                    vstd::arithmetic::div_mod::lemma_fundamental_div_mod(n + 7, 8);
                }
                assert(result@.len() == n);
                assert(result@ =~= spec_pixels(pixel_type, data, n));
            }
        },
        PixelType::GrayLevels => {
            let mut i: usize = 0;
            while i < pixels_bytes.len()
                invariant
                    0 <= i <= data.len(),
                    result@.len() == i,
                    forall|m: int| 0 <= m < i ==> #[trigger] result@[m] == Pixel::Gray(data[m]),
                decreases data.len() - i,
            {
                result.push(Pixel::Gray(pixels_bytes[i]));
                i += 1;
            }
            proof {
                assert(result@ =~= spec_pixels(pixel_type, data, n));
            }
        },
        PixelType::Palette => {
            let mut i: usize = 0;
            while i < pixels_bytes.len()
                invariant
                    0 <= i <= data.len(),
                    result@.len() == i,
                    forall|m: int| 0 <= m < i ==> #[trigger] result@[m] == Pixel::Palette(data[m]),
                decreases data.len() - i,
            {
                result.push(Pixel::Palette(pixels_bytes[i]));
                i += 1;
            }
            proof {
                assert(result@ =~= spec_pixels(pixel_type, data, n));
            }
        },
        PixelType::TwentyFourBitsColors => {
            proof {
                vstd::arithmetic::div_mod::lemma_mod_multiples_basic(n, 3);
                vstd::arithmetic::div_mod::lemma_div_multiples_vanish(n, 3);
                assert(data.len() % 3 == 0);
                assert(data.len() as int / 3 == n);
            }
            let count = pixels_bytes.len() / 3;
            let mut i: usize = 0;
            while i < count
                invariant
                    0 <= i <= count,
                    result@.len() == i,
                    forall|m: int|
                        0 <= m < i ==> #[trigger] result@[m] == Pixel::TwentyFourBitsColors(
                            data[3 * m],
                            data[3 * m + 1],
                            data[3 * m + 2],
                        ),
                decreases count - i,
            {
                proof {
                    assert(data.len() == 3 * (data.len() as int / 3)) by {
                        vstd::arithmetic::div_mod::lemma_fundamental_div_mod(data.len() as int, 3);
                    }
                    assert(3 * (i as int) + 2 < data.len());
                }
                let b0 = pixels_bytes[3 * i];
                let b1 = pixels_bytes[3 * i + 1];
                let b2 = pixels_bytes[3 * i + 2];
                result.push(Pixel::TwentyFourBitsColors(b0, b1, b2));
                i += 1;
            }
            proof {
                assert(result@ =~= spec_pixels(pixel_type, data, n));
            }
        },
    }
    result
}

/// Checks, for a palette-typed image, that a palette is present and that
/// every decoded pixel's index falls inside its entry table; the first
/// offender decides the error, exactly as `spec_palette_scan` says.
#[verifier::loop_isolation(false)]
fn palette_consistency_checks(palette_blocks: &Vec<PaletteBlock>, pixels: &Vec<Pixel>) -> (r:
    Result<(), DecodeError>)
    ensures
        match r {
            Ok(_) => palette_blocks@.len() >= 1 && spec_palette_scan(
                pixels@,
                palette_blocks@[0]@.len() as int,
                0,
            ) == Ok::<(), DecodeError>(()),
            Err(e) => (palette_blocks@.len() == 0 && e == DecodeError::MissingPalette) || (
            palette_blocks@.len() >= 1 && spec_palette_scan(
                pixels@,
                palette_blocks@[0]@.len() as int,
                0,
            ) == Err::<(), DecodeError>(e)),
        },
{
    if palette_blocks.len() == 0 {
        return Err(DecodeError::MissingPalette);
    }
    let count = palette_blocks[0].len();
    let ghost c = count as int;
    let mut i: usize = 0;
    while i < pixels.len()
        invariant
            0 <= i <= pixels@.len(),
            c == palette_blocks@[0]@.len(),
            spec_palette_scan(pixels@, c, 0) == spec_palette_scan(pixels@, c, i as int),
        decreases pixels@.len() - i,
    {
        match pixels[i] {
            Pixel::Palette(v) => {
                if v as usize >= count {
                    proof {
                        assert(spec_palette_scan(pixels@, c, i as int) == Err::<(), DecodeError>(
                            DecodeError::PaletteIndexOutOfRange(v),
                        ));
                    }
                    return Err(DecodeError::PaletteIndexOutOfRange(v));
                }
            },
            _ => {},
        }
        proof {
            assert(spec_palette_scan(pixels@, c, i as int) == spec_palette_scan(
                pixels@,
                c,
                i as int + 1,
            ));
        }
        i += 1;
    }
    Ok(())
}

} // verus!
