//! Self-describing inline images: `data:<mime>;base64,<payload>`.
use vstd::prelude::*;
use base64::engine::general_purpose;
use base64::Engine;
use crate::text::{first_occurrence, from_chars, push_all, to_chars};

verus! {

/// What base64's STANDARD engine makes of some bytes: padded standard-alphabet text.
pub uninterp spec fn base64_of(b: Seq<u8>) -> Seq<char>;

/// Relies on `Engine::encode` of base64's STANDARD engine.
#[verifier::external_body]
pub(crate) fn encode_base64(b: &[u8]) -> (r: String)
    ensures
        r@ == base64_of(b@),
{
    general_purpose::STANDARD.encode(b)
}

/// Relies on `Engine::decode` of base64's STANDARD engine, which accepts only canonical
/// padded text: what it returns encodes back to the input, and the encoding of any bytes
/// decodes to those bytes.
#[verifier::external_body]
pub(crate) fn decode_base64(s: &str) -> (r: Option<Vec<u8>>)
    ensures
        r matches Some(v) ==> base64_of(v@) == s@,
        forall|v: Seq<u8>| #[trigger] base64_of(v) == s@ ==> (r is Some && r->0@ == v),
{
    general_purpose::STANDARD.decode(s).ok()
}

pub open spec fn data_uri(mime: Seq<char>, payload: Seq<char>) -> Seq<char> {
    "data:"@ + mime + ";base64,"@ + payload
}

/// The text between the first and the second comma of `s` (or its end).
pub open spec fn payload_of(s: Seq<char>) -> Option<Seq<char>> {
    match first_occurrence(s, seq![',']) {
        None => None,
        Some(c) => {
            let rest = s.subrange(c + 1, s.len() as int);
            match first_occurrence(rest, seq![',']) {
                None => Some(rest),
                Some(d) => Some(rest.subrange(0, d)),
            }
        },
    }
}

/// `bytes` as a data URI of type `mime`.
pub fn image_data_uri(mime: &str, bytes: &[u8]) -> (r: String)
    ensures
        r@ == data_uri(mime@, base64_of(bytes@)),
{
    let mut out = to_chars("data:");
    push_all(&mut out, &to_chars(mime));
    push_all(&mut out, &to_chars(";base64,"));
    let encoded = encode_base64(bytes);
    push_all(&mut out, &to_chars(encoded.as_str()));
    from_chars(out.as_slice())
}

} // verus!
