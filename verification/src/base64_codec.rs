//! Base64 encoding of forwarded bytes, computed by the `base64` crate.
use vstd::prelude::*;

verus! {

/// The standard base64 encoding (with padding) of `bytes`, as `base64::encode` computes it.
pub uninterp spec fn base64_encoding(bytes: Seq<u8>) -> Seq<char>;

/// The bytes that the standard base64 text `text` decodes to, as `base64::decode` computes
/// them; `None` when `text` is not valid base64.
pub uninterp spec fn base64_decoding(text: Seq<char>) -> Option<Seq<u8>>;

/// `base64::encode` (standard alphabet, padded).
/// Trusted: the result is the named encoding of the input, and decoding it gives the input back.
#[verifier::external_body]
#[allow(deprecated)]
pub(crate) fn base64_encode(bytes: &[u8]) -> (res: String)
    ensures
        res@ == base64_encoding(bytes@),
        base64_decoding(res@) == Some(bytes@),
{
    base64::encode(bytes)
}

/// `base64::decode` (standard alphabet, padded), with the error message of the crate.
/// Trusted: success exactly when the named decoding is defined, with those bytes; the
/// message text is not stated.
#[verifier::external_body]
#[allow(deprecated)]
pub(crate) fn base64_decode(text: &str) -> (res: Result<Vec<u8>, String>)
    ensures
        match res {
            Ok(bytes) => base64_decoding(text@) == Some(bytes@),
            Err(_) => base64_decoding(text@) is None,
        },
{
    match base64::decode(text) {
        Ok(bytes) => Ok(bytes),
        Err(e) => Err(format!("{e}")),
    }
}

} // verus!
