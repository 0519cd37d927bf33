//! SHA-256 digests, computed by the `sha256` crate.
use vstd::prelude::*;

verus! {

/// The lowercase hexadecimal SHA-256 digest of the UTF-8 bytes of `input`,
/// as `sha256::digest` computes it.
pub uninterp spec fn sha256_hex(input: Seq<char>) -> Seq<char>;

/// `sha256::digest` on a string: the lowercase hexadecimal SHA-256 digest of its UTF-8 bytes.
/// Trusted: the result is the named digest of the input, 64 characters long, each a
/// lowercase hexadecimal digit (the crate hex-encodes the 32-byte digest).
#[verifier::external_body]
pub(crate) fn sha256_digest(input: &str) -> (res: String)
    ensures
        res@ == sha256_hex(input@),
        res@.len() == 64,
        forall|i: int|
            0 <= i < res@.len() ==> ('0' <= #[trigger] res@[i] <= '9' || 'a' <= res@[i] <= 'f'),
{
    sha256::digest(input)
}

} // verus!
