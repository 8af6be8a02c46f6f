//! One TLV block: type tag, big-endian length, payload.

use vstd::prelude::*;

use crate::comment_block::CommentBlock;
use crate::data_block::DataBlock;
use crate::error::DecodeError;
use crate::format::{
    spec_parse_block, SpecBlock, TAG_COMMENT, TAG_DATA, TAG_HEADER, TAG_PALETTE,
};
use crate::header_block::{u32_from_be, HeaderBlock};
use crate::palette_block::PaletteBlock;

verus! {

/// The decoded payload of one block, classified by its type tag.  The
/// format defines a fixed, closed set of block kinds, so the dispatch is
/// a closed tagged union matched exhaustively.
pub enum BlockContent {
    Header(HeaderBlock),
    Comment(CommentBlock),
    Data(DataBlock),
    Palette(PaletteBlock),
}

impl View for BlockContent {
    type V = SpecBlock;

    open spec fn view(&self) -> SpecBlock {
        match self {
            BlockContent::Header(h) => SpecBlock::Header(*h),
            BlockContent::Comment(c) => SpecBlock::Comment(c@),
            BlockContent::Data(d) => SpecBlock::Data(d@),
            BlockContent::Palette(p) => SpecBlock::Palette(p@),
        }
    }
}

/// One block parsed off the front of a byte slice: its declared payload
/// length and its decoded payload.  The block consumes `5 + block_length`
/// bytes of the slice.
pub struct Block {
    pub block_length: u32,
    pub content: BlockContent,
}

impl Block {
    /// Parses one block from the front of `bytes`: a recognized ASCII
    /// type tag, a nonzero big-endian 32-bit payload length no larger
    /// than what remains, and the payload handed to the matching typed
    /// decoder, whose failure is propagated unchanged.
    pub fn from_bytes(bytes: &[u8]) -> (r: Result<Block, DecodeError>)
        ensures
            match r {
                Ok(b) => {
                    &&& spec_parse_block(bytes@) == Ok::<(SpecBlock, int), DecodeError>(
                        (b.content@, 5 + b.block_length as int),
                    )
                    &&& b.block_length >= 1
                    &&& 5 + b.block_length as int <= bytes@.len()
                    &&& crate::format::spec_block_wf(b.content@)
                },
                Err(e) => spec_parse_block(bytes@) == Err::<(SpecBlock, int), DecodeError>(e),
            },
    {
        if bytes.len() < 6 {
            return Err(DecodeError::TruncatedHeader);
        }
        let tag = bytes[0];
        if tag != TAG_HEADER && tag != TAG_COMMENT && tag != TAG_DATA && tag != TAG_PALETTE {
            return Err(DecodeError::InvalidType(tag));
        }
        let block_length = u32_from_be(bytes[1], bytes[2], bytes[3], bytes[4]);
        if block_length == 0 {
            return Err(DecodeError::ZeroLength);
        }
        if bytes.len() - 5 < block_length as usize {
            return Err(DecodeError::LengthMismatch);
        }
        let payload = vstd::slice::slice_subrange(bytes, 5, 5 + block_length as usize);
        let content = if tag == TAG_HEADER {
            match HeaderBlock::from_bytes(payload) {
                Ok(h) => BlockContent::Header(h),
                Err(e) => {
                    return Err(e);
                },
            }
        } else if tag == TAG_COMMENT {
            match CommentBlock::from_bytes(payload) {
                Ok(c) => BlockContent::Comment(c),
                Err(e) => {
                    return Err(e);
                },
            }
        } else if tag == TAG_DATA {
            BlockContent::Data(DataBlock::from_bytes(payload))
        } else {
            match PaletteBlock::from_bytes(payload) {
                Ok(p) => BlockContent::Palette(p),
                Err(e) => {
                    return Err(e);
                },
            }
        };
        proof {
            crate::format::lemma_parse_block_wf(bytes@);
        }
        Ok(Block { block_length, content })
    }
}

} // verus!
