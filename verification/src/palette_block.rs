//! The palette block: an ordered table of RGB triples.

use vstd::prelude::*;

use crate::error::DecodeError;
use crate::format::spec_parse_palette;

verus! {

/// The decoded entries of one palette block: up to 256 RGB triples,
/// indexed by the pixel bytes of a palette-typed image.  At most one
/// palette block may exist per file.
pub struct PaletteBlock {
    entries: Vec<(u8, u8, u8)>,
}

impl View for PaletteBlock {
    type V = Seq<(u8, u8, u8)>;

    closed spec fn view(&self) -> Seq<(u8, u8, u8)> {
        self.entries@
    }
}

impl Clone for PaletteBlock {
    fn clone(&self) -> (r: Self)
        ensures
            r@ == self@,
    {
        PaletteBlock { entries: copy_entries(&self.entries) }
    }
}

/// Copies a vector of RGB triples.
fn copy_entries(entries: &Vec<(u8, u8, u8)>) -> (r: Vec<(u8, u8, u8)>)
    ensures
        r@ == entries@,
{
    let mut r: Vec<(u8, u8, u8)> = Vec::new();
    let mut i: usize = 0;
    while i < entries.len()
        invariant
            0 <= i <= entries@.len(),
            r@ == entries@.take(i as int),
        decreases entries@.len() - i,
    {
        r.push(entries[i]);
        i += 1;
        proof {
            assert(r@ =~= entries@.take(i as int));
        }
    }
    proof {
        assert(entries@.take(entries@.len() as int) =~= entries@);
    }
    r
}

impl PaletteBlock {
    /// Decodes a palette payload.  Its length must be a multiple of 3 and
    /// at most 768 bytes; each 3-byte chunk becomes one RGB entry, in
    /// payload order.
    pub fn from_bytes(bytes: &[u8]) -> (r: Result<PaletteBlock, DecodeError>)
        ensures
            match r {
                Ok(p) => spec_parse_palette(bytes@) == Ok::<Seq<(u8, u8, u8)>, DecodeError>(p@),
                Err(e) => spec_parse_palette(bytes@) == Err::<Seq<(u8, u8, u8)>, DecodeError>(e),
            },
    {
        if bytes.len() % 3 != 0 {
            return Err(DecodeError::PaletteSizeNotMultipleOf3);
        }
        if bytes.len() > 768 {
            return Err(DecodeError::TooManyPaletteEntries);
        }
        let count = bytes.len() / 3;
        let mut entries: Vec<(u8, u8, u8)> = Vec::new();
        let mut i: usize = 0;
        while i < count
            invariant
                0 <= i <= count,
                count == bytes@.len() / 3,
                bytes@.len() % 3 == 0,
                bytes@.len() <= 768,
                entries@.len() == i,
                forall|k: int|
                    0 <= k < i ==> #[trigger] entries@[k] == (
                    bytes@[3 * k],
                    bytes@[3 * k + 1],
                    bytes@[3 * k + 2],
                ),
            decreases count - i,
        {
            proof {
                assert(3 * (i as int) + 2 < bytes@.len()) by {
                    assert(i < bytes@.len() / 3);
                    assert(bytes@.len() == 3 * (bytes@.len() / 3)) by {
                        vstd::arithmetic::div_mod::lemma_fundamental_div_mod(
                            bytes@.len() as int,
                            3,
                        );
                    }
                }
            }
            let e = (bytes[3 * i], bytes[3 * i + 1], bytes[3 * i + 2]);
            entries.push(e);
            i += 1;
        }
        proof {
            assert(entries@ =~= Seq::new(
                (bytes@.len() / 3) as nat,
                |k: int| (bytes@[3 * k], bytes@[3 * k + 1], bytes@[3 * k + 2]),
            ));
        }
        Ok(PaletteBlock { entries })
    }

    /// The palette's entries, copied out, in payload order.
    pub fn entries(&self) -> (r: Vec<(u8, u8, u8)>)
        ensures
            r@ == self@,
    {
        copy_entries(&self.entries)
    }

    /// The number of entries; at least 1 and at most 256 for any palette
    /// decoded from a block.
    pub fn len(&self) -> (r: usize)
        ensures
            r == self@.len(),
    {
        self.entries.len()
    }

    /// The wire payload this palette is written as: 3 bytes per entry, in
    /// order.
    pub(crate) fn to_payload(&self) -> (r: Vec<u8>)
        requires
            1 <= self@.len() <= 256,
        ensures
            spec_parse_palette(r@) == Ok::<Seq<(u8, u8, u8)>, DecodeError>(self@),
            1 <= r@.len() <= 768,
    {
        let mut r: Vec<u8> = Vec::new();
        let mut i: usize = 0;
        while i < self.entries.len()
            invariant
                0 <= i <= self@.len(),
                self@.len() <= 256,
                r@.len() == 3 * i,
                forall|k: int|
                    0 <= k < i ==> r@[3 * k] == (#[trigger] self@[k]).0 && r@[3 * k + 1]
                        == self@[k].1 && r@[3 * k + 2] == self@[k].2,
            decreases self@.len() - i,
        {
            let e = self.entries[i];
            r.push(e.0);
            r.push(e.1);
            r.push(e.2);
            i += 1;
        }
        proof {
            vstd::arithmetic::div_mod::lemma_mod_multiples_basic(self@.len() as int, 3);
            vstd::arithmetic::div_mod::lemma_div_multiples_vanish(self@.len() as int, 3);
            assert(Seq::new(
                (r@.len() / 3) as nat,
                |k: int| (r@[3 * k], r@[3 * k + 1], r@[3 * k + 2]),
            ) =~= self@);
        }
        r
    }

    /// The entry at a given index.
    pub fn entry(&self, i: usize) -> (r: (u8, u8, u8))
        requires
            (i as int) < self@.len(),
        ensures
            r == self@[i as int],
    {
        self.entries[i]
    }
}

} // verus!
