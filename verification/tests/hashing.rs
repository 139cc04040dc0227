use quest_tracker::argon2_hashing::{hash, verify};
use quest_tracker::errors::AuthError;

#[test]
fn hash_then_verify_accepts_the_same_plaintext() {
    let h = hash("correct horse battery staple".to_string()).unwrap();
    assert_eq!(
        verify("correct horse battery staple".to_string(), h),
        Ok(true)
    );
}

#[test]
fn verify_rejects_a_different_plaintext() {
    let h = hash("correct horse battery staple".to_string()).unwrap();
    assert_eq!(verify("correct horse battery stable".to_string(), h.clone()), Ok(false));
    assert_eq!(verify(String::new(), h), Ok(false));
}

#[test]
fn empty_password_accepted_and_round_trips() {
    let h = hash(String::new()).unwrap();
    assert_eq!(verify(String::new(), h.clone()), Ok(true));
    assert_eq!(verify("x".to_string(), h), Ok(false));
}

#[test]
fn salt_is_randomized_yet_both_hashes_verify() {
    let h1 = hash("same password".to_string()).unwrap();
    let h2 = hash("same password".to_string()).unwrap();
    assert_ne!(h1, h2);
    assert_eq!(verify("same password".to_string(), h1), Ok(true));
    assert_eq!(verify("same password".to_string(), h2), Ok(true));
}

#[test]
fn malformed_stored_hash_is_an_error_not_a_mismatch() {
    assert_eq!(
        verify("anything".to_string(), "not-an-encoded-hash".to_string()),
        Err(AuthError::HashingError)
    );
    assert_eq!(
        verify("anything".to_string(), String::new()),
        Err(AuthError::HashingError)
    );
}

#[test]
fn hash_output_is_self_describing() {
    let h = hash("pw".to_string()).unwrap();
    assert!(h.starts_with("$argon2"));
}
