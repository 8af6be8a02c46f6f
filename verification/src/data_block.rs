//! The data block: an opaque slice of the image's pixel bytes.

use vstd::prelude::*;

verus! {

/// The payload of one data block.  Any byte sequence is valid; the
/// assembler concatenates all data payloads in stream order before
/// decoding pixels, so an image's bytes may be split arbitrarily across
/// several data blocks.
pub struct DataBlock {
    bytes: Vec<u8>,
}

impl View for DataBlock {
    type V = Seq<u8>;

    closed spec fn view(&self) -> Seq<u8> {
        self.bytes@
    }
}

/// Copies a byte slice into a fresh vector.
pub(crate) fn bytes_to_vec(bytes: &[u8]) -> (r: Vec<u8>)
    ensures
        r@ == bytes@,
{
    let mut r: Vec<u8> = Vec::new();
    let mut i: usize = 0;
    while i < bytes.len()
        invariant
            0 <= i <= bytes@.len(),
            r@ == bytes@.take(i as int),
        decreases bytes@.len() - i,
    {
        r.push(bytes[i]);
        i += 1;
        proof {
            assert(r@ =~= bytes@.take(i as int));
        }
    }
    proof {
        assert(bytes@.take(bytes@.len() as int) =~= bytes@);
    }
    r
}

impl DataBlock {
    /// Decodes a data payload: an opaque passthrough, never failing.
    pub fn from_bytes(bytes: &[u8]) -> (r: DataBlock)
        ensures
            r@ == bytes@,
    {
        DataBlock { bytes: bytes_to_vec(bytes) }
    }

    /// The payload bytes, copied out.
    pub fn contents(&self) -> (r: Vec<u8>)
        ensures
            r@ == self@,
    {
        bytes_to_vec(self.bytes.as_slice())
    }

    /// The payload bytes, copied out.
    pub fn get_bytes(&self) -> (r: Vec<u8>)
        ensures
            r@ == self@,
    {
        self.contents()
    }
}

} // verus!
