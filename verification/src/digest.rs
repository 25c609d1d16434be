//! Content digests.

use vstd::prelude::*;

verus! {

/// The BLAKE3 hash of some bytes, in hexadecimal.
pub uninterp spec fn blake3_hex(input: Seq<u8>) -> Seq<char>;

pub open spec fn is_lower_hex(c: char) -> bool {
    ('0' <= c <= '9') || ('a' <= c <= 'f')
}

/// `blake3::hash` of the bytes, spelled by `Hash::to_hex`.
///
/// Trusted: the same bytes always give the same text, and the text is 64
/// lowercase hexadecimal digits.
#[verifier::external_body]
pub(crate) fn hash_hex(input: &[u8]) -> (r: String)
    ensures
        r@ == blake3_hex(input@),
        r@.len() == 64,
        forall|i: int| 0 <= i < 64 ==> is_lower_hex(#[trigger] r@[i]),
{
    blake3::hash(input).to_hex().to_string()
}

} // verus!
