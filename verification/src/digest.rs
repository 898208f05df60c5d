//! SHA3-256, as a hexadecimal string.

use crypto::digest::Digest;
use crypto::sha3::Sha3;
use vstd::prelude::*;

verus! {

/// The SHA3-256 digest of `data`, as the crate `crypto` writes it in
/// hexadecimal. A name only: nothing here says how it is computed.
pub uninterp spec fn spec_sha3_256_hex(data: Seq<u8>) -> Seq<char>;

/// A decimal digit or one of the letters `a` to `f`.
pub open spec fn is_lower_hex(c: char) -> bool {
    ('0' <= c <= '9') || ('a' <= c <= 'f')
}

/// Sixty-four lower-case hexadecimal digits.
pub open spec fn is_digest_text(text: Seq<char>) -> bool {
    &&& text.len() == 64
    &&& forall|i: int| 0 <= i < text.len() ==> is_lower_hex(#[trigger] text[i])
}

/// Feeds `data` to a fresh `crypto::sha3::Sha3::sha3_256()` hasher with
/// `Digest::input` and reads it out with `Digest::result_str`. Believed, not
/// proved: the result is a function of `data` alone, and it is the 32 digest
/// bytes written as two lower-case hexadecimal digits each.
#[verifier::external_body]
pub(crate) fn sha3_256_hex(data: &[u8]) -> (hex: String)
    ensures
        hex@ == spec_sha3_256_hex(data@),
        is_digest_text(hex@),
{
    let mut hasher = Sha3::sha3_256();
    hasher.input(data);
    hasher.result_str()
}

} // verus!
