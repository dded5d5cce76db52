//! Identities: SHA-256 over the JSON text of a value.
use vstd::prelude::*;
use vstd::utf8;

use crate::json;
use crate::json::{Json, JsonView};
use crate::text;

verus! {

/// What `sha2::Sha256::digest` makes of bytes.
pub uninterp spec fn sha256(bytes: Seq<u8>) -> Seq<u8>;

/// Calls `sha2::Sha256::digest`: the 32 bytes of the hash.
#[verifier::external_body]
pub(crate) fn sha256_of(bytes: &[u8]) -> (r: Vec<u8>)
    ensures
        r@ == sha256(bytes@),
        r@.len() == 32,
{
    <sha2::Sha256 as sha2::Digest>::digest(bytes).to_vec()
}

/// The hash of the JSON text of a value, in hexadecimal.
pub open spec fn fingerprint(v: JsonView) -> Seq<char> {
    text::hex(sha256(utf8::encode_utf8(json::json_text(v))))
}

/// Whether the hash does not take the JSON texts of two values for the same where they differ.
pub open spec fn no_collision(v: JsonView, w: JsonView) -> bool {
    fingerprint(v) == fingerprint(w) ==> json::json_text(v) == json::json_text(w)
}

/// The hash of a value's JSON text, in hexadecimal.
pub fn fingerprint_of(v: &Json) -> (r: String)
    ensures
        r@ == fingerprint(v@),
        r@.len() == 64,
{
    let t = v.text();
    let bytes = sha256_of(t.as_str().as_bytes());
    proof {
        text::hex_len(bytes@);
    }
    text::hex_text(&bytes)
}

/// The hash of bytes, in hexadecimal.
pub fn hex_digest(bytes: &[u8]) -> (r: String)
    ensures
        r@ == text::hex(sha256(bytes@)),
        r@.len() == 64,
{
    let digest = sha256_of(bytes);
    proof {
        text::hex_len(digest@);
    }
    text::hex_text(&digest)
}

}
