//! The pluggable hash/verify capability for password storage.
//!
//! Password storage uses a salted, one-way derivation. The derivation and the
//! verification are supplied by the argon2 crate; the store relies only on the
//! derive/verify interface, named here by [`password_verifies`].

use vstd::prelude::*;

use argon2::password_hash::{PasswordHash, PasswordHasher, PasswordVerifier, SaltString};
use argon2::Argon2;

verus! {

/// Whether `pass` verifies against the stored PHC string `phc`.
///
/// This names the result of argon2's `verify_password` (after parsing `phc`
/// with `PasswordHash::new`): that check recomputes the derivation with the
/// salt and parameters carried inside `phc` and compares the outputs, so it
/// is a function of the two strings alone.
pub uninterp spec fn password_verifies(pass: Seq<char>, phc: Seq<char>) -> bool;

/// Relies on argon2's `Argon2::verify_password` together with
/// `PasswordHash::new`: the outcome depends on the password and the stored
/// PHC string alone; a string that does not parse as a PHC hash verifies
/// nothing.
#[verifier::external_body]
pub(crate) fn verify_password(pass: &str, phc: &str) -> (r: bool)
    ensures
        r == password_verifies(pass@, phc@),
{
    match PasswordHash::new(phc) {
        Ok(parsed) => Argon2::default().verify_password(pass.as_bytes(), &parsed).is_ok(),
        Err(_) => false,
    }
}

/// Relies on argon2's `Argon2::hash_password` with a fresh salt drawn from
/// `rand::thread_rng`: a PHC string derived from a password carries its salt
/// and parameters, so verifying that same password against it recomputes the
/// identical output and succeeds. The salt is random, so nothing more is
/// promised of the returned string.
#[verifier::external_body]
pub(crate) fn derive_password_hash(pass: &str) -> (r: Option<String>)
    ensures
        r is Some ==> password_verifies(pass@, r->Some_0@),
{
    let salt = SaltString::generate(rand::thread_rng());
    match Argon2::default().hash_password(pass.as_bytes(), &salt) {
        Ok(h) => Some(h.to_string()),
        Err(_) => None,
    }
}

} // verus!
