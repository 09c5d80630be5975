//! Digests and text encodings of bytes.

use base64::Engine;
use sha2::Digest;
use vstd::prelude::*;

use crate::config::model::hex_pair;

verus! {

/// What `sha2::Sha256` computes of these bytes.
pub uninterp spec fn sha256(data: Seq<u8>) -> Seq<u8>;

/// `sha2::Sha256::digest`: the digest is a function of the bytes, and has 32
/// bytes. Feeding the bytes in parts comes to the same.
#[verifier::external_body]
pub(crate) fn sha256_of(data: &[u8]) -> (r: Vec<u8>)
    ensures
        r@ == sha256(data@),
        r@.len() == 32,
{
    sha2::Sha256::digest(data).to_vec()
}

/// What the standard base64 alphabet with padding makes of these bytes.
pub uninterp spec fn base64_text(data: Seq<u8>) -> Seq<char>;

/// What `base64` reads in a text in the standard alphabet with padding, or the
/// message of its error.
pub uninterp spec fn base64_bytes(text: Seq<char>) -> Result<Seq<u8>, Seq<char>>;

/// How long the base64 text of `n` bytes is: four characters for every three
/// bytes, the last group filled up.
pub open spec fn base64_len(n: int) -> int {
    (n + 2) / 3 * 4
}

/// `base64::Engine::encode` of the standard engine: the text is a function of
/// the bytes, and decoding it gives them back. No text is longer than memory
/// can hold, so neither is what is encoded.
#[verifier::external_body]
pub(crate) fn base64_encode(data: &[u8]) -> (r: String)
    requires
        base64_len(data@.len() as int) <= isize::MAX,
    ensures
        r@ == base64_text(data@),
        base64_bytes(r@) is Ok && base64_bytes(r@)->Ok_0 == data@,
{
    base64::engine::general_purpose::STANDARD.encode(data)
}

/// `base64::Engine::decode` of the standard engine, with its error as text: a
/// function of the text.
#[verifier::external_body]
pub(crate) fn base64_decode(text: &str) -> (r: Result<Vec<u8>, String>)
    ensures
        r is Ok <==> base64_bytes(text@) is Ok,
        r matches Ok(v) ==> base64_bytes(text@)->Ok_0 == v@,
        r matches Err(e) ==> base64_bytes(text@)->Err_0 == e@,
{
    match base64::engine::general_purpose::STANDARD.decode(text) {
        Ok(v) => Ok(v),
        Err(e) => Err(e.to_string()),
    }
}

/// Bytes as hexadecimal digits, two for each.
pub open spec fn hex_text(data: Seq<u8>) -> Seq<char>
    decreases data.len(),
{
    if data.len() == 0 {
        Seq::empty()
    } else {
        hex_text(data.drop_last()) + hex_pair(data.last())
    }
}

/// `hex::encode`: two lower-case digits for each byte, in a text that memory can
/// hold.
#[verifier::external_body]
pub(crate) fn hex_encode(data: &[u8]) -> (r: String)
    requires
        data@.len() * 2 <= isize::MAX,
    ensures
        r@ == hex_text(data@),
{
    hex::encode(data)
}

} // verus!
