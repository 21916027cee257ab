//! Hashing and text encodings that the library takes from outside crates.
//! What is stated of them here is believed, not proved.

use base64::engine::general_purpose::URL_SAFE_NO_PAD;
use base64::Engine;
use sha2::Digest;
use vstd::prelude::*;

verus! {

/// The SHA-256 digest of `data`.
pub uninterp spec fn sha256(data: Seq<u8>) -> Seq<u8>;

/// The base64 text of `data` in the URL-safe alphabet, without padding.
pub uninterp spec fn base64url(data: Seq<u8>) -> Seq<char>;

/// The bytes that `text` stands for as unpadded URL-safe base64, if it is
/// such a text.
pub uninterp spec fn base64url_decoded(text: Seq<u8>) -> Option<Seq<u8>>;

/// The number of characters in the unpadded base64 text of `len` bytes: four
/// for every three bytes, and two or three for a remainder of one or two.
pub open spec fn base64_length(len: nat) -> nat {
    (len / 3) * 4 + if len % 3 == 0 {
        0nat
    } else {
        (len % 3 + 1) as nat
    }
}

/// Trusted: `sha2::Sha256::digest`. The result is a function of the input
/// alone and is always 32 bytes long.
#[verifier::external_body]
pub(crate) fn sha256_digest(data: &[u8]) -> (digest: Vec<u8>)
    ensures
        digest@ == sha256(data@),
        digest@.len() == 32,
{
    sha2::Sha256::digest(data).to_vec()
}

/// Trusted: `Engine::encode` of `base64`, on its `URL_SAFE_NO_PAD` engine.
/// The result is a function of the input alone and has the length that the
/// crate computes for it. The crate panics where that length does not fit
/// in `usize`, so such inputs are left out.
#[verifier::external_body]
pub(crate) fn base64url_encode(data: &[u8]) -> (text: String)
    requires
        (data@.len() / 3) * 4 + 3 <= usize::MAX,
    ensures
        text@ == base64url(data@),
        text@.len() == base64_length(data@.len()),
{
    URL_SAFE_NO_PAD.encode(data)
}

/// Trusted: `Engine::decode` of `base64`, on its `URL_SAFE_NO_PAD` engine.
/// Whether it succeeds, and with which bytes, is a function of the input alone.
#[verifier::external_body]
pub(crate) fn base64url_decode(text: &[u8]) -> (data: Option<Vec<u8>>)
    ensures
        data is Some <==> base64url_decoded(text@) is Some,
        data is Some ==> data->Some_0@ == base64url_decoded(text@)->Some_0,
{
    URL_SAFE_NO_PAD.decode(text).ok()
}

} // verus!
