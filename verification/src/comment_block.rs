//! The comment block: printable-ASCII text.

use vstd::prelude::*;

use crate::data_block::bytes_to_vec;
use crate::error::DecodeError;
use crate::format::{comment_bytes_ok, spec_comment_text, spec_parse_comment};

verus! {

/// The decoded text of one comment block, kept together with the payload
/// bytes it was read from.  A file may carry any number of comments;
/// their order is preserved.
pub struct CommentBlock {
    bytes: Vec<u8>,
    text: String,
}

impl View for CommentBlock {
    type V = Seq<char>;

    closed spec fn view(&self) -> Seq<char> {
        self.text@
    }
}

/// Relies on `String::from_utf8`: bytes below 128 are ASCII, hence valid
/// UTF-8, and decode to one character per byte, each character being the
/// byte's code point.
#[verifier::external_body]
fn ascii_string_from_bytes(bytes: &[u8]) -> (s: String)
    requires
        forall|i: int| 0 <= i < bytes@.len() ==> #[trigger] bytes@[i] < 128,
    ensures
        s@ == spec_comment_text(bytes@),
{
    String::from_utf8(bytes.to_vec()).unwrap_or_default()
}

impl CommentBlock {
    /// The text is exactly what the stored payload bytes read as.
    #[verifier::type_invariant]
    closed spec fn inv(self) -> bool {
        &&& comment_bytes_ok(self.bytes@)
        &&& self.text@ == spec_comment_text(self.bytes@)
    }

    /// Decodes a comment payload.  Every byte must lie in the printable
    /// range 32..=127; the decoded value is the payload read as text.
    pub fn from_bytes(bytes: &[u8]) -> (r: Result<CommentBlock, DecodeError>)
        ensures
            match r {
                Ok(c) => spec_parse_comment(bytes@) == Ok::<Seq<char>, DecodeError>(c@),
                Err(e) => spec_parse_comment(bytes@) == Err::<Seq<char>, DecodeError>(e),
            },
    {
        let mut i: usize = 0;
        while i < bytes.len()
            invariant
                0 <= i <= bytes@.len(),
                forall|k: int| 0 <= k < i ==> 32 <= #[trigger] bytes@[k] <= 127,
            decreases bytes@.len() - i,
        {
            let b = bytes[i];
            if b < 32 || b > 127 {
                return Err(DecodeError::NonAsciiComment);
            }
            i += 1;
        }
        let text = ascii_string_from_bytes(bytes);
        Ok(CommentBlock { bytes: bytes_to_vec(bytes), text })
    }

    /// The comment's text.
    pub fn get_comment(&self) -> (r: String)
        ensures
            r@ == self@,
    {
        self.text.clone()
    }

    /// The wire payload this comment is written as: one byte per
    /// character, each in the printable range.
    pub(crate) fn payload_bytes(&self) -> (r: Vec<u8>)
        ensures
            spec_parse_comment(r@) == Ok::<Seq<char>, DecodeError>(self@),
            r@.len() == self@.len(),
    {
        proof {
            use_type_invariant(&*self);
        }
        bytes_to_vec(self.bytes.as_slice())
    }
}

} // verus!
