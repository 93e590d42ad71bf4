//! Byte-string codecs: base58, base64 and UTF-8.
//!
//! The base58 and base64 transforms are performed by outside crates; what
//! they return is given a name here, together with the round-trip facts
//! that their documentation promises. UTF-8 is specified exactly through
//! the model in `vstd::utf8`.

use vstd::prelude::*;

verus! {

use vstd::utf8::{valid_utf8, decode_utf8, encode_utf8, is_ascii_chars};

/// The base58 (Bitcoin alphabet) rendering of a byte string.
pub uninterp spec fn b58_chars(b: Seq<u8>) -> Seq<char>;

/// What base58 decoding returns on a byte string of text: the decoded
/// bytes, or nothing when the text is not valid base58.
pub uninterp spec fn b58_dec_b(s: Seq<u8>) -> Option<Seq<u8>>;

/// The base64 (standard alphabet, padded) rendering of a byte string.
pub uninterp spec fn b64_chars(b: Seq<u8>) -> Seq<char>;

/// What base64 decoding returns on a byte string of text: the decoded
/// bytes, or nothing when the text is not valid base64.
pub uninterp spec fn b64_dec_b(s: Seq<u8>) -> Option<Seq<u8>>;

/// Relies on `bs58::encode`: the Bitcoin-alphabet base58 rendering of the
/// input, an ASCII string that `bs58::decode` takes back to the input.
#[verifier::external_body]
pub fn base58_encode(b: &[u8]) -> (r: String)
    ensures
        r@ == b58_chars(b@),
        is_ascii_chars(r@),
        b58_dec_b(encode_utf8(r@)) == Some(b@),
{
    bs58::encode(b).into_string()
}

/// Relies on `bs58::decode`: succeeds exactly on valid base58 text and
/// then returns the decoded bytes.
#[verifier::external_body]
pub fn base58_decode_bytes(s: &[u8]) -> (r: Option<Vec<u8>>)
    ensures
        r is Some <==> b58_dec_b(s@) is Some,
        r is Some ==> r.unwrap()@ == b58_dec_b(s@).unwrap(),
{
    bs58::decode(s).into_vec().ok()
}

/// Relies on `base64::encode`: the standard-alphabet, padded base64
/// rendering of the input. The alphabet is ASCII and holds no `.` (byte
/// 46), and `base64::decode` takes the rendering back to the input.
#[verifier::external_body]
pub fn base64_encode(b: &[u8]) -> (r: String)
    ensures
        r@ == b64_chars(b@),
        is_ascii_chars(r@),
        forall|i: int| 0 <= i < encode_utf8(r@).len() ==> encode_utf8(r@)[i] != 46u8,
        b64_dec_b(encode_utf8(r@)) == Some(b@),
{
    base64::encode(b)
}

/// Relies on `base64::decode`: succeeds exactly on valid base64 text and
/// then returns the decoded bytes.
#[verifier::external_body]
pub fn base64_decode_bytes(s: &[u8]) -> (r: Option<Vec<u8>>)
    ensures
        r is Some <==> b64_dec_b(s@) is Some,
        r is Some ==> r.unwrap()@ == b64_dec_b(s@).unwrap(),
{
    base64::decode(s).ok()
}

/// Relies on `core::str::from_utf8`: succeeds exactly on valid UTF-8 and
/// then returns the decoded text, per the model in `vstd::utf8`.
#[verifier::external_body]
pub fn utf8_to_string(b: &[u8]) -> (r: Option<String>)
    ensures
        r is Some <==> valid_utf8(b@),
        r is Some ==> r.unwrap()@ == decode_utf8(b@),
{
    match core::str::from_utf8(b) {
        Ok(s) => Some(s.to_owned()),
        Err(_) => None,
    }
}

} // verus!
