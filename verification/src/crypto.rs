//! The cryptographic primitives under the token service, taken on trust from
//! their crates: url-safe base64 and the HMAC-SHA256 signature, each named by
//! an uninterpreted function of its inputs.

use vstd::prelude::*;
use base64::Engine;

verus! {

/// The url-safe, unpadded base64 encoding of the UTF-8 bytes of a character
/// sequence, as the `base64` crate's `URL_SAFE_NO_PAD` engine computes it.
pub uninterp spec fn b64url_of(s: Seq<char>) -> Seq<char>;

/// The base64url-encoded HMAC-SHA256 signature of the UTF-8 bytes of `msg`
/// under the UTF-8 bytes of `secret`, as `jsonwebtoken` computes it for its
/// HS256 algorithm.
pub uninterp spec fn hs256_b64_of(msg: Seq<char>, secret: Seq<char>) -> Seq<char>;

/// Holds no `.`: true of every base64url-encoded value, and what lets a
/// token be split unambiguously at its dots.
pub open spec fn dotfree(s: Seq<char>) -> bool {
    forall|i: int| 0 <= i < s.len() ==> s[i] != '.'
}

/// Relies on the `base64` crate's `URL_SAFE_NO_PAD` engine: `encode` is a
/// pure function of the input bytes, and the url-safe alphabet
/// (`A`-`Z`, `a`-`z`, `0`-`9`, `-`, `_`, no padding) holds no `.`.
#[verifier::external_body]
pub fn b64url_encode(s: &str) -> (r: String)
    ensures
        r@ == b64url_of(s@),
        dotfree(r@),
{
    base64::engine::general_purpose::URL_SAFE_NO_PAD.encode(s.as_bytes())
}

/// Relies on the `base64` crate's `URL_SAFE_NO_PAD` engine: its decoder is
/// strict (padding must be absent, trailing bits must be zero), so it accepts
/// exactly the strings `encode` produces and inverts it on them; decoded
/// bytes that are not UTF-8 (and so are no string's encoding) are rejected
/// here with `from_utf8`.
#[verifier::external_body]
pub fn b64url_decode(s: &str) -> (r: Option<String>)
    ensures
        match r {
            Some(p) => s@ == b64url_of(p@) && (forall|w: Seq<char>|
                s@ == b64url_of(w) ==> w == p@),
            None => forall|w: Seq<char>| s@ != b64url_of(w),
        },
{
    match base64::engine::general_purpose::URL_SAFE_NO_PAD.decode(s) {
        Ok(bytes) => String::from_utf8(bytes).ok(),
        Err(_) => None,
    }
}

/// Relies on `jsonwebtoken::crypto::sign` with `Algorithm::HS256`: the
/// signature is a pure function of message and key, and for the HMAC
/// algorithms `sign` never fails, so the default is never returned. The
/// base64url alphabet of the result holds no `.`.
#[verifier::external_body]
pub fn hs256_sign(msg: &str, secret: &str) -> (r: String)
    ensures
        r@ == hs256_b64_of(msg@, secret@),
        dotfree(r@),
{
    jsonwebtoken::crypto::sign(
        msg.as_bytes(),
        &jsonwebtoken::EncodingKey::from_secret(secret.as_bytes()),
        jsonwebtoken::Algorithm::HS256,
    ).unwrap_or_default()
}

/// Relies on `jsonwebtoken::crypto::verify` with `Algorithm::HS256`: its
/// source re-signs the message and compares the given signature's bytes with
/// the recomputed base64 signature's bytes, so it returns true exactly when
/// the two strings are equal (UTF-8 makes byte and character equality
/// coincide). For the HMAC algorithms it never fails.
#[verifier::external_body]
pub fn hs256_verify(sig: &str, msg: &str, secret: &str) -> (r: bool)
    ensures
        r == (sig@ == hs256_b64_of(msg@, secret@)),
{
    jsonwebtoken::crypto::verify(
        sig,
        msg.as_bytes(),
        &jsonwebtoken::DecodingKey::from_secret(secret.as_bytes()),
        jsonwebtoken::Algorithm::HS256,
    ).unwrap_or(false)
}

} // verus!
