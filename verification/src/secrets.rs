//! Password hashes and session tokens, which other crates compute.

use argon2::password_hash::rand_core::OsRng;
use argon2::password_hash::{PasswordHash, PasswordHasher, PasswordVerifier, SaltString};
use argon2::Argon2;
use uuid::Uuid;
use vstd::prelude::*;

verus! {

/// Whether Argon2 with its default settings accepts `password` for the
/// stored hash `hash`: the hash is a well-formed PHC string and hashing the
/// password with the salt and parameters that the string names gives the
/// output that it holds.
pub uninterp spec fn argon2_accepts(password: Seq<char>, hash: Seq<char>) -> bool;

/// `argon2::PasswordVerifier::verify_password` on a hash that
/// `PasswordHash::new` has parsed: a string that does not parse is accepted
/// for no password; for one that parses the answer depends on the password
/// and the string alone.
#[verifier::external_body]
pub(crate) fn argon2_verifies(password: &str, hash: &str) -> (accepted: bool)
    ensures
        accepted == argon2_accepts(password@, hash@),
{
    match PasswordHash::new(hash) {
        Ok(parsed) => Argon2::default().verify_password(password.as_bytes(), &parsed).is_ok(),
        Err(_) => false,
    }
}

/// `argon2::PasswordHasher::hash_password` with a salt that
/// `SaltString::generate` draws from the operating system: the PHC string of
/// the hash, or nothing where hashing fails. The salt is random, so the
/// string differs from call to call; what holds of every such string is that
/// verification, which reads salt and parameters back from it, accepts the
/// password that was hashed.
#[verifier::external_body]
pub(crate) fn argon2_hash(password: &str) -> (hash: Option<String>)
    ensures
        hash matches Some(text) ==> argon2_accepts(password@, text@),
{
    let salt = SaltString::generate(&mut OsRng);
    match Argon2::default().hash_password(password.as_bytes(), &salt) {
        Ok(hash) => Some(hash.to_string()),
        Err(_) => None,
    }
}

/// `uuid::Uuid::new_v4`, written out as text: a random identifier, of which
/// nothing is said.
#[verifier::external_body]
pub(crate) fn fresh_token() -> (token: String) {
    Uuid::new_v4().to_string()
}

} // verus!
