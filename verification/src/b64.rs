//! Trusted bindings to the base64 codecs: the standard alphabet with
//! padding for binary message fields, and the URL-safe alphabet without
//! padding for QR payloads.

use vstd::prelude::*;

verus! {

/// The standard base64 encoding of a byte string.
pub uninterp spec fn b64_of(b: Seq<u8>) -> Seq<char>;

/// What the standard base64 decoder returns for a text.
pub uninterp spec fn b64_decode_spec(s: Seq<char>) -> Option<Seq<u8>>;

/// The URL-safe, unpadded base64 encoding of a byte string.
pub uninterp spec fn b64url_of(b: Seq<u8>) -> Seq<char>;

/// What the URL-safe, unpadded base64 decoder returns for a text.
pub uninterp spec fn b64url_decode_spec(s: Seq<char>) -> Option<Seq<u8>>;

/// Relies on the `STANDARD` engine's `encode`: a pure function of the
/// input, inverted by the engine's own `decode`.
#[verifier::external_body]
pub fn b64_encode(data: &[u8]) -> (r: String)
    ensures
        r@ == b64_of(data@),
        b64_decode_spec(r@) == Some(data@),
{
    base64::Engine::encode(&base64::engine::general_purpose::STANDARD, data)
}

/// Relies on the `STANDARD` engine's `decode`: a pure partial function of
/// the input text.
#[verifier::external_body]
pub fn b64_decode(s: &str) -> (r: Option<Vec<u8>>)
    ensures
        match r {
            Some(b) => b64_decode_spec(s@) == Some(b@),
            None => b64_decode_spec(s@) is None,
        },
{
    match base64::Engine::decode(&base64::engine::general_purpose::STANDARD, s) {
        Ok(v) => Some(v),
        Err(_) => None,
    }
}

/// Relies on the `URL_SAFE_NO_PAD` engine's `encode`: a pure function of
/// the input, inverted by the engine's own `decode`.
#[verifier::external_body]
pub fn b64url_encode(data: &[u8]) -> (r: String)
    ensures
        r@ == b64url_of(data@),
        b64url_decode_spec(r@) == Some(data@),
{
    base64::Engine::encode(&base64::engine::general_purpose::URL_SAFE_NO_PAD, data)
}

/// Relies on the `URL_SAFE_NO_PAD` engine's `decode`: a pure partial
/// function of the input text.
#[verifier::external_body]
pub fn b64url_decode(s: &str) -> (r: Option<Vec<u8>>)
    ensures
        match r {
            Some(b) => b64url_decode_spec(s@) == Some(b@),
            None => b64url_decode_spec(s@) is None,
        },
{
    match base64::Engine::decode(&base64::engine::general_purpose::URL_SAFE_NO_PAD, s) {
        Ok(v) => Some(v),
        Err(_) => None,
    }
}

} // verus!
