//! Decoder for the MiniPNG block-structured image format.
//!
//! A MiniPNG file is an 8-byte magic tag followed by a sequence of blocks,
//! each made of a one-byte ASCII type tag, a big-endian 32-bit payload
//! length, and that many payload bytes.  The blocks together describe a
//! rectangular image in one of four pixel encodings.  The decoder validates
//! the block structure, reconstructs a strongly typed image value, and
//! offers pixel-level queries on it.

pub mod block;
pub mod comment_block;
pub mod data_block;
pub mod encode;
pub mod error;
pub mod format;
pub mod header_block;
pub mod laws;
pub mod mini_png;
pub mod palette_block;
pub mod pixel;
