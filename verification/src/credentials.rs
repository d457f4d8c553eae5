//! Password handling: one-way salted hashing and verification, on top of
//! the bcrypt algorithm.  The two bcrypt calls are the only trusted code
//! here; everything said about them is what the bcrypt crate's source
//! shows.

use vstd::prelude::*;

verus! {

/// What bcrypt's `verify` concludes for a password against a stored hash
/// string.  bcrypt recomputes the hash with the cost and salt embedded in
/// the stored string and compares, so the outcome is a function of the
/// two strings alone; a malformed stored string never matches.
pub uninterp spec fn bcrypt_matches(plain: Seq<char>, hashed: Seq<char>) -> bool;

/// Relies on bcrypt::hash at the default cost: the hash string is always
/// exactly 60 characters in the `$2b$..` modular-crypt form, and
/// bcrypt::verify accepts the password it was produced from (it re-derives
/// the same digest from the embedded salt).  Hashing fails only when the
/// operating system's randomness source does, which surfaces as `None`.
#[verifier::external_body]
fn bcrypt_hash(plain: &String) -> (r: Option<String>)
    ensures
        r is Some ==> r.unwrap()@.len() == 60,
        r is Some ==> r.unwrap()@[0] == '$',
        r is Some ==> bcrypt_matches(plain@, r.unwrap()@),
{
    match bcrypt::hash(plain, bcrypt::DEFAULT_COST) {
        Ok(h) => Some(h),
        Err(_) => None,
    }
}

/// Relies on bcrypt::verify: true exactly when the password matches the
/// stored hash string; a malformed stored string is a mismatch, never an
/// abort.
#[verifier::external_body]
fn bcrypt_verify(plain: &String, hashed: &String) -> (r: bool)
    ensures
        r == bcrypt_matches(plain@, hashed@),
{
    match bcrypt::verify(plain, hashed) {
        Ok(b) => b,
        Err(_) => false,
    }
}

/// Hashes a password for storage: a one-way, salted, 60-character hash
/// string that `verify_password` will accept the password against.
/// Returns `None` only when the platform's randomness source fails.
pub fn hash_password(plain: &String) -> (r: Option<String>)
    ensures
        r is Some ==> r.unwrap()@.len() == 60,
        r is Some ==> r.unwrap()@[0] == '$',
        r is Some ==> bcrypt_matches(plain@, r.unwrap()@),
{
    bcrypt_hash(plain)
}

/// Verifies a password against a stored hash string; fails closed on a
/// malformed hash.
pub fn verify_password(plain: &String, hashed: &String) -> (r: bool)
    ensures
        r == bcrypt_matches(plain@, hashed@),
{
    bcrypt_verify(plain, hashed)
}

} // verus!
