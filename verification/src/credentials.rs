//! Credential verifier: checks a plaintext password against a stored salted
//! hash. It never fails on a merely wrong password; only a structurally
//! malformed stored hash is reported as its own outcome, an operational
//! error. Callers keep the cost of a check uniform by verifying against
//! [`DECOY_HASH`] when no identity was found.

use vstd::prelude::*;
use argon2::{Argon2, PasswordHash, PasswordVerifier};

verus! {

/// Whether a stored hash string is a well-formed PHC hash the verifier can
/// work with: a fixed function of the string alone.
pub uninterp spec fn hash_parses(h: Seq<char>) -> bool;

/// Whether the verifier accepts `password` against the stored hash: a fixed
/// function of the two strings alone.
pub uninterp spec fn password_matches(password: Seq<char>, h: Seq<char>) -> bool;

/// Relies on argon2's `PasswordHash::new`, which parses a PHC hash string
/// (deciding on the string alone), and `Argon2::verify_password`, which
/// recomputes the hash with the parsed parameters and compares: acceptance
/// is a function of password and stored string alone.
#[verifier::external_body]
fn argon2_check(password: &str, stored_hash: &str) -> (r: Option<bool>)
    ensures
        r is Some <==> hash_parses(stored_hash@),
        r matches Some(b) ==> b == password_matches(password@, stored_hash@),
{
    match PasswordHash::new(stored_hash) {
        Err(_) => None,
        Ok(parsed) => Some(Argon2::default().verify_password(password.as_bytes(), &parsed).is_ok()),
    }
}

/// Outcome of one credential check.
pub enum CredentialCheck {
    /// The password matches the stored hash.
    Accepted,
    /// The hash is sound but the password does not match.
    Rejected,
    /// The stored hash is not a usable PHC string: an operational error.
    MalformedHash,
}

/// A syntactically sound hash of no credential anyone holds. Verifying
/// against it costs what a real verification costs, so a lookup miss is not
/// observable as a faster failure.
pub const DECOY_HASH: &'static str = "$argon2id$v=19$m=65536,t=2,p=1$c29tZXNhbHQ$CTFhFdXPJO1aFaMaO6Mm5c8y7cJHAph8ArZWb2GRPPc";

/// Checks `password` against `stored_hash`.
pub fn verify(password: &str, stored_hash: &str) -> (r: CredentialCheck)
    ensures
        r matches CredentialCheck::MalformedHash <==> !hash_parses(stored_hash@),
        r matches CredentialCheck::Accepted <==> hash_parses(stored_hash@) && password_matches(
            password@,
            stored_hash@,
        ),
        r matches CredentialCheck::Rejected <==> hash_parses(stored_hash@) && !password_matches(
            password@,
            stored_hash@,
        ),
{
    match argon2_check(password, stored_hash) {
        Option::None => CredentialCheck::MalformedHash,
        Option::Some(true) => CredentialCheck::Accepted,
        Option::Some(false) => CredentialCheck::Rejected,
    }
}

/// Performs a verification against [`DECOY_HASH`] for its cost alone.
pub fn burn_decoy_check(password: &str)
{
    let _ = verify(password, DECOY_HASH);
}

} // verus!
