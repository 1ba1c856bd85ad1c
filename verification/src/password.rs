//! One-way, salted, cost-parameterized password hashing, taken on trust
//! from the bcrypt crate.

use vstd::prelude::*;

verus! {

/// Whether `password` matches the bcrypt hash `hash`: what `bcrypt::verify`
/// returns, a pure function of the two arguments, with an unparsable hash
/// counting as a mismatch.
pub uninterp spec fn bcrypt_matches(password: Seq<char>, hash: Seq<char>) -> bool;

/// Relies on `bcrypt::verify`: it parses cost and salt back out of the hash,
/// recomputes the hash of the password, and compares; a hash it cannot parse
/// is treated here as a mismatch.
#[verifier::external_body]
pub fn verify_password(password: &str, hash: &str) -> (r: bool)
    ensures
        r == bcrypt_matches(password@, hash@),
{
    bcrypt::verify(password, hash).unwrap_or(false)
}

/// Relies on `bcrypt::hash`: a hash it produces matches the hashed password
/// under `bcrypt::verify`, which recovers the salt and cost from the hash
/// and recomputes it. The call fails exactly when the cost lies outside the
/// crate's `4..=31` range — that failure is deterministic — or the system
/// gives no randomness for the salt.
#[verifier::external_body]
pub fn hash_password(password: &str, cost: u32) -> (r: Option<String>)
    ensures
        r matches Some(h) ==> bcrypt_matches(password@, h@),
        cost < 4 || cost > 31 ==> r is None,
{
    bcrypt::hash(password, cost).ok()
}

} // verus!
