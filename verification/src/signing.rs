use vstd::prelude::*;

verus! {

// The two MAC domains of the token formats.  The MAC values
// themselves are outside work; each is named as a function of the key
// and the signed message, and everything the library proves about
// tokens goes through these names.

/// The base64url form of the HMAC-SHA-512 tag over `msg` under `key`.
pub uninterp spec fn hs512_sig_b64(key: Seq<char>, msg: Seq<char>) -> Seq<char>;

/// The base64url form of the HMAC-SHA-256 tag over `msg` under `key`.
pub uninterp spec fn hs256_sig_b64(key: Seq<char>, msg: Seq<char>) -> Seq<char>;

#[verifier::external_type_specification]
#[verifier::external_body]
pub struct ExJwtError(jsonwebtoken::errors::Error);

/// Relies on jsonwebtoken::crypto::sign with Algorithm::HS512: it
/// returns the base64url-encoded HMAC-SHA-512 tag of the message
/// under the key, a function of the two arguments alone; the 64-byte
/// tag encodes to 86 characters.  For a key made with
/// `EncodingKey::from_secret` the call cannot fail: the key family
/// is fixed to HMAC, HMAC accepts keys of any length, and the tag
/// computation is infallible.  This and the verify contracts assume
/// the crate's own crypto configuration (the RustCrypto provider);
/// jsonwebtoken routes these calls through a process-global provider
/// that a host process could replace.
#[verifier::external_body]
pub(crate) fn sign_hs512(key: &str, msg: &str) -> (r: Result<
    String,
    jsonwebtoken::errors::Error,
>)
    ensures
        r is Ok,
        r matches Ok(s) ==> s@ == hs512_sig_b64(key@, msg@) && s@.len() == 86,
{
    let ek = jsonwebtoken::EncodingKey::from_secret(key.as_bytes());
    jsonwebtoken::crypto::sign(msg.as_bytes(), &ek, jsonwebtoken::Algorithm::HS512)
}

/// Relies on jsonwebtoken::crypto::verify with Algorithm::HS512: it
/// base64url-decodes the signature, rejecting any string that is not
/// the one canonical encoding of some byte string, and compares the
/// decoded bytes in constant time against the recomputed
/// HMAC-SHA-512 tag; so it answers true exactly when the signature
/// is the canonical base64url form of that tag.  Assumes the crate's
/// own crypto configuration, as `sign_hs512` does.
#[verifier::external_body]
pub(crate) fn verify_hs512(sig: &str, msg: &str, key: &str) -> (r: bool)
    ensures
        r == (sig@ == hs512_sig_b64(key@, msg@)),
{
    let dk = jsonwebtoken::DecodingKey::from_secret(key.as_bytes());
    matches!(
        jsonwebtoken::crypto::verify(sig, msg.as_bytes(), &dk, jsonwebtoken::Algorithm::HS512),
        Ok(true)
    )
}

/// Relies on jsonwebtoken::crypto::verify with Algorithm::HS256, as
/// `verify_hs512` does for HS512, under the same configuration
/// assumption.
#[verifier::external_body]
pub(crate) fn verify_hs256(sig: &str, msg: &str, key: &str) -> (r: bool)
    ensures
        r == (sig@ == hs256_sig_b64(key@, msg@)),
{
    let dk = jsonwebtoken::DecodingKey::from_secret(key.as_bytes());
    matches!(
        jsonwebtoken::crypto::verify(sig, msg.as_bytes(), &dk, jsonwebtoken::Algorithm::HS256),
        Ok(true)
    )
}

/// Relies on time::OffsetDateTime::now_utc for the current time as
/// Unix seconds; nothing is assumed of the value.
#[verifier::external_body]
pub fn now_unix() -> i64 {
    time::OffsetDateTime::now_utc().unix_timestamp()
}

} // verus!
