//! The few places the library leans on outside crates: password hashing
//! and verification, identifier generation, and the clock. Each call sits
//! behind a trusted wrapper whose contract states no more than the outside
//! crate's source shows.

use vstd::prelude::*;

verus! {

/// The verdict of bcrypt's `verify` on a password and a stored digest:
/// `None` when the digest is malformed and cannot be checked at all,
/// `Some` of the comparison otherwise. `verify` reads the salt and cost
/// back out of the digest and recomputes the hash, so the verdict is a
/// function of the two strings alone.
pub uninterp spec fn bcrypt_verdict(pass: Seq<char>, digest: Seq<char>) -> Option<bool>;

/// Relies on bcrypt::verify: deterministic in the password and the digest,
/// an error only for a digest that cannot be parsed.
#[verifier::external_body]
pub(crate) fn verify_password(pass: &str, digest: &str) -> (r: Option<bool>)
    ensures
        r == bcrypt_verdict(pass@, digest@),
{
    match bcrypt::verify(pass, digest) {
        Ok(b) => Some(b),
        Err(_) => None,
    }
}

/// Relies on bcrypt::hash at the crate's default cost: the digest it
/// returns embeds the salt and cost it was made with, and bcrypt::verify
/// accepts it for the same password.
#[verifier::external_body]
pub(crate) fn hash_password(pass: &str) -> (r: Option<String>)
    ensures
        r matches Some(digest) ==> bcrypt_verdict(pass@, digest@) == Some(true),
{
    bcrypt::hash(pass, bcrypt::DEFAULT_COST).ok()
}

/// Relies on uuid::Uuid::new_v4: a randomly drawn 128-bit identifier.
/// Nothing is promised of the value.
#[verifier::external_body]
pub(crate) fn fresh_id() -> u128 {
    uuid::Uuid::new_v4().as_u128()
}

/// Relies on chrono::Utc::now: the clock's reading as seconds since the
/// epoch. Nothing is promised of the value.
#[verifier::external_body]
pub(crate) fn now_seconds() -> i64 {
    chrono::Utc::now().timestamp()
}

} // verus!
