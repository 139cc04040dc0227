use vstd::prelude::*;

verus! {

/// Why a token failed verification. The orchestrator and the request guard
/// merge all three reasons into a single authorization failure before a
/// caller sees them, so none of the detail leaks to a client.
#[derive(Clone, Copy, Debug, PartialEq, Eq, Structural)]
pub enum TokenError {
    /// The token could not be decoded into a structurally valid signed object.
    Malformed,
    /// The structure is valid but the signature does not verify under the
    /// expected secret, or the claims are scoped to a different role than the
    /// one the verifier was configured for.
    BadSignature,
    /// Structure and signature are fine but the current time is at or past
    /// the embedded expiry.
    Expired,
}

/// The failure taxonomy that callers of the library see.
#[derive(Clone, Copy, Debug, PartialEq, Eq, Structural)]
pub enum AuthError {
    /// Unknown username or wrong password; the two are deliberately merged so
    /// a caller cannot enumerate usernames.
    InvalidCredentials,
    /// A refresh token that is malformed, carries a bad signature, or has
    /// expired; merged so the reason does not leak.
    InvalidToken,
    /// A protected request carried no credential, or one that failed
    /// verification.
    Unauthenticated,
    /// A verified access token whose subject is not a decimal principal id.
    MalformedSubject,
    /// A stored password hash is not a valid encoded hash, or hashing itself
    /// failed; an operational problem, not a normal login failure.
    HashingError,
    /// A signing secret is missing, empty, or duplicated; fatal at startup.
    ConfigurationError,
}

} // verus!
