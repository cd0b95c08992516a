use vstd::prelude::*;

use sha2::Digest;

verus! {

/// The SHA-256 digest of the UTF-8 bytes of a character sequence,
/// rendered as lowercase hex. A function of the characters alone.
pub uninterp spec fn sha256_hex_of(s: Seq<char>) -> Seq<char>;

/// Relies on sha2::Sha256 (a 32-byte digest, a function of the input
/// bytes alone) and hex::encode (two lowercase digits per byte): hashes
/// the UTF-8 of `a` followed by `b` and returns the 64 hex digits.
#[verifier::external_body]
pub fn sha256_hex(a: &str, b: &str) -> (r: String)
    ensures
        r@ == sha256_hex_of(a@ + b@),
        r@.len() == 64,
{
    let mut hasher = sha2::Sha256::new();
    hasher.update(a.as_bytes());
    hasher.update(b.as_bytes());
    hex::encode(hasher.finalize())
}

/// Relies on uuid::Uuid::new_v4 and its hyphenated rendering: a fresh
/// random identifier. Nothing can be promised of a random value beyond
/// its documented 36-character form.
#[verifier::external_body]
pub fn fresh_uuid() -> (r: String)
    ensures
        r@.len() == 36,
{
    uuid::Uuid::new_v4().to_string()
}

/// Relies on chrono::Utc::now and DateTime::to_rfc3339: the current
/// instant in RFC 3339 form. The clock decides the value, so nothing is
/// promised of it.
#[verifier::external_body]
pub fn now_rfc3339() -> (r: String) {
    chrono::Utc::now().to_rfc3339()
}

} // verus!
