//! Base64 text for binary attribute values.
use vstd::prelude::*;

use base64::Engine;

verus! {

/// What the standard base64 engine (with padding) prints for some bytes.
pub uninterp spec fn base64_encode(bytes: Seq<u8>) -> Seq<char>;

/// What the standard base64 engine (with padding) decodes from a text: the
/// bytes, or the text of the decoding error.
pub uninterp spec fn base64_decode(text: Seq<char>) -> Result<Seq<u8>, Seq<char>>;

/// Encodes bytes as standard base64 with padding (`STANDARD.encode`).
/// Decoding what it prints gives the bytes back.
#[verifier::external_body]
pub fn to_base64_str(bytes: &[u8]) -> (r: String)
    ensures
        r@ == base64_encode(bytes@),
        (base64_decode(r@) == Ok::<Seq<u8>, Seq<char>>(bytes@)),
{
    base64::engine::general_purpose::STANDARD.encode(bytes)
}

/// Decodes standard base64 with padding (`STANDARD.decode`); the error is
/// the decoder's message. Decoding what the encoder printed gives the
/// encoded bytes back.
#[verifier::external_body]
pub fn from_base64_str(s: &str) -> (r: Result<Vec<u8>, String>)
    ensures
        match r {
            Ok(b) => base64_decode(s@) == Ok::<Seq<u8>, Seq<char>>(b@),
            Err(e) => base64_decode(s@) == Err::<Seq<u8>, Seq<char>>(e@),
        },
        r is Err ==> forall|b: Seq<u8>| #[trigger] base64_encode(b) != s@,
        r matches Ok(v) ==> forall|b: Seq<u8>| #[trigger] base64_encode(b) == s@ ==> v@ == b,
{
    base64::engine::general_purpose::STANDARD.decode(s).map_err(|e| e.to_string())
}

} // verus!
