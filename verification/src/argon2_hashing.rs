use vstd::prelude::*;
use argon2::{PasswordHasher, PasswordVerifier};
use crate::errors::AuthError;

verus! {

/// Whether an encoded hash string parses as a PHC-format password hash.
/// Names the success of argon2's PasswordHash::new; a function of the string
/// alone.
pub uninterp spec fn hash_parses(h: Seq<char>) -> bool;

/// Whether a plaintext matches an encoded hash: the digest is recomputed
/// with the parameters and salt embedded in the hash and compared. Names the
/// success of argon2's verify_password; a function of the two arguments
/// alone.
pub uninterp spec fn password_matches(p: Seq<char>, h: Seq<char>) -> bool;

/// One-way hash of a password with a fresh random salt, returned as a
/// self-describing PHC-encoded string.
/// Relies on argon2::Argon2::hash_password: any plaintext (the empty one
/// included) is accepted; on success the returned string parses back with
/// PasswordHash::new and verify_password accepts the same plaintext against
/// it, whatever salt was drawn.
#[verifier::external_body]
pub fn hash(password: String) -> (r: Result<String, AuthError>)
    ensures
        r is Ok ==> hash_parses(r->Ok_0@) && password_matches(password@, r->Ok_0@),
        r is Err ==> r->Err_0 == AuthError::HashingError,
{
    let argon2 = argon2::Argon2::default();
    match argon2.hash_password(password.as_bytes()) {
        Ok(h) => Ok(h.to_string()),
        Err(_) => Err(AuthError::HashingError),
    }
}

/// Checks a plaintext against a stored encoded hash. A malformed stored hash
/// is an error; a well-formed hash that does not match is plain `false`.
/// Relies on argon2::PasswordHash::new for parsing and on
/// argon2::Argon2::verify_password, which recomputes the digest with the
/// embedded parameters and compares in constant time.
#[verifier::external_body]
pub fn verify(password: String, hashed_password: String) -> (r: Result<bool, AuthError>)
    ensures
        (r is Ok) == hash_parses(hashed_password@),
        r is Ok ==> r->Ok_0 == password_matches(password@, hashed_password@),
        r is Err ==> r->Err_0 == AuthError::HashingError,
{
    let parsed = match argon2::PasswordHash::new(&hashed_password) {
        Ok(p) => p,
        Err(_) => return Err(AuthError::HashingError),
    };
    let argon2 = argon2::Argon2::default();
    Ok(argon2.verify_password(password.as_bytes(), &parsed).is_ok())
}

} // verus!
