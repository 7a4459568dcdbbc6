//! Base64url without padding (RFC 4648 §5), through the `base64` crate.

use base64::Engine;
use vstd::prelude::*;

use crate::text::utf8_bytes;

verus! {

/// The base64url (no padding) text of `data`, as the `base64` crate's
/// `URL_SAFE_NO_PAD` engine writes it.
pub uninterp spec fn b64url_encoding(data: Seq<u8>) -> Seq<char>;

/// The bytes that the `base64` crate's `URL_SAFE_NO_PAD` engine reads from
/// `text`, or `None` where it reports an error.
pub uninterp spec fn b64url_decoding(text: Seq<u8>) -> Option<Seq<u8>>;

/// The URL-safe alphabet: `A-Z a-z 0-9 - _`.
pub open spec fn is_b64url_char(c: char) -> bool {
    ('A' <= c <= 'Z') || ('a' <= c <= 'z') || ('0' <= c <= '9') || c == '-' || c == '_'
}

/// `URL_SAFE_NO_PAD.encode` of the `base64` crate. The contract claims that
/// the text uses only the URL-safe alphabet (no padding), and that decoding
/// it with the same engine gives `data` back.
#[verifier::external_body]
pub fn b64url_encode(data: &[u8]) -> (r: String)
    ensures
        r@ == b64url_encoding(data@),
        forall|i: int| 0 <= i < r@.len() ==> is_b64url_char(#[trigger] r@[i]),
        b64url_decoding(utf8_bytes(r@)) == Some(data@),
{
    base64::engine::general_purpose::URL_SAFE_NO_PAD.encode(data)
}

/// `URL_SAFE_NO_PAD.decode` of the `base64` crate; its error becomes `None`.
#[verifier::external_body]
pub fn b64url_decode(text: &[u8]) -> (r: Option<Vec<u8>>)
    ensures
        match b64url_decoding(text@) {
            Some(d) => r matches Some(v) && v@ == d,
            None => r is None,
        },
{
    base64::engine::general_purpose::URL_SAFE_NO_PAD.decode(text).ok()
}

} // verus!
