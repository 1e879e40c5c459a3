//! Identifier generation and credential hashing.
//!
//! Both lean on outside crates: `nanoid` for random URL-safe
//! identifiers and `bcrypt` for salted one-way password hashing.
//! Each call stands behind a trusted wrapper whose contract states
//! what the crate's source shows of the result.

use vstd::prelude::*;

verus! {

/// The error type of the `bcrypt` crate, carried through unopened.
#[verifier::external_type_specification]
#[verifier::external_body]
pub struct ExBcryptError(bcrypt::BcryptError);

/// Whether `bcrypt::verify(password, hash)` returns `Ok(true)`.
///
/// `bcrypt::verify` is deterministic: it reads the salt and cost back
/// out of `hash` and recomputes, so its outcome depends on the two
/// arguments alone. No shorter statement of that outcome exists, so it
/// is only named here; malformed hashes make it false, never an error
/// seen by callers.
pub uninterp spec fn bcrypt_accepts(password: Seq<char>, hash: Seq<char>) -> bool;

/// A character of the URL-safe identifier alphabet `A-Za-z0-9_-`.
pub open spec fn is_url_safe_char(c: char) -> bool {
    ('a' <= c && c <= 'z') || ('A' <= c && c <= 'Z') || ('0' <= c && c <= '9') || c == '_' || c
        == '-'
}

/// Generate a random 8-character paste identifier.
///
/// Relies on `nanoid::format` with the crate's `SAFE` alphabet: the
/// result holds exactly `size` characters, each drawn from that
/// 64-symbol URL-safe alphabet. Uniqueness is only probabilistic; the
/// store still rejects a colliding identifier.
#[verifier::external_body]
pub fn generate_id() -> (r: String)
    ensures
        r@.len() == 8,
        forall|i: int| 0 <= i < r@.len() ==> is_url_safe_char(#[trigger] r@[i]),
{
    nanoid::format(nanoid::rngs::default, &nanoid::alphabet::SAFE, 8)
}

/// Hash a password with a fresh random salt at the default cost.
///
/// Relies on `bcrypt::hash`: on success it returns a hash string that
/// `bcrypt::verify` accepts for the same password (it re-derives the
/// salt and cost from the hash and recomputes). The hash is always a
/// 60-character string opening `$2b$12$` — the version and the fixed
/// cost. The salt is random, so nothing more is stated.
#[verifier::external_body]
pub fn hash_password(password: &str) -> (r: Result<String, bcrypt::BcryptError>)
    ensures
        r matches Ok(h) ==> bcrypt_accepts(password@, h@) && h@.len() == 60 && h@.subrange(0, 7)
            == "$2b$12$"@,
{
    bcrypt::hash(password, bcrypt::DEFAULT_COST)
}

/// Check a password against a stored hash.
///
/// Relies on `bcrypt::verify`: deterministic in its two arguments.
/// A malformed hash yields `false`, never a failure, so callers treat
/// every verification failure uniformly as a wrong credential.
#[verifier::external_body]
pub fn verify_password(password: &str, hash: &str) -> (r: bool)
    ensures
        r == bcrypt_accepts(password@, hash@),
{
    bcrypt::verify(password, hash).unwrap_or(false)
}

} // verus!
