use quest_tracker::authentication::{ACCESS_TTL_SECONDS, REFRESH_TTL_SECONDS};
use quest_tracker::base64url::{b64_decode, b64_encode};
use quest_tracker::claims::Claims;
use quest_tracker::digits::{parse_u64_range, u64_to_digits};
use quest_tracker::errors::TokenError;
use quest_tracker::roles::Role;
use quest_tracker::token::{issue, parse_and_verify};

use base64::Engine;

fn sample_claims(sub: &[u8], role: Role, exp: u64, iat: u64) -> Claims {
    Claims { sub: sub.to_vec(), role, exp, iat }
}

#[test]
fn issue_parse_round_trip() {
    let secret = b"adventurer-access-secret".to_vec();
    let claims = sample_claims(b"42", Role::Adventurer, 1_000_000, 500);
    let token = issue(&secret, &claims);
    let parsed = parse_and_verify(&secret, Role::Adventurer, 600, &token).unwrap();
    assert_eq!(parsed.sub, b"42".to_vec());
    assert!(matches!(parsed.role, Role::Adventurer));
    assert_eq!(parsed.exp, 1_000_000);
    assert_eq!(parsed.iat, 500);
}

#[test]
fn token_is_three_dotted_ascii_parts() {
    let secret = b"s1".to_vec();
    let claims = sample_claims(b"7", Role::GuildCommander, 99, 1);
    let token = issue(&secret, &claims);
    let text = String::from_utf8(token.clone()).unwrap();
    let parts: Vec<&str> = text.split('.').collect();
    assert_eq!(parts.len(), 3);
    for part in parts {
        assert!(!part.is_empty());
        for ch in part.chars() {
            assert!(ch.is_ascii_alphanumeric() || ch == '-' || ch == '_');
        }
    }
}

#[test]
fn expired_token_rejected_even_with_valid_signature() {
    let secret = b"secret".to_vec();
    let claims = sample_claims(b"42", Role::Adventurer, 1000, 10);
    let token = issue(&secret, &claims);
    // Exactly at the expiry instant the token is already dead.
    assert_eq!(
        parse_and_verify(&secret, Role::Adventurer, 1000, &token).map(|_| ()),
        Err(TokenError::Expired)
    );
    assert_eq!(
        parse_and_verify(&secret, Role::Adventurer, 2000, &token).map(|_| ()),
        Err(TokenError::Expired)
    );
    // One second earlier it still verifies.
    assert!(parse_and_verify(&secret, Role::Adventurer, 999, &token).is_ok());
}

#[test]
fn wrong_secret_rejected() {
    let secret_a = b"role-a-secret".to_vec();
    let secret_b = b"role-b-secret".to_vec();
    let claims = sample_claims(b"42", Role::Adventurer, 1_000_000, 1);
    let token = issue(&secret_a, &claims);
    assert_eq!(
        parse_and_verify(&secret_b, Role::Adventurer, 10, &token).map(|_| ()),
        Err(TokenError::BadSignature)
    );
}

#[test]
fn role_scope_checked_even_under_same_secret() {
    let secret = b"shared".to_vec();
    let claims = sample_claims(b"42", Role::Adventurer, 1_000_000, 1);
    let token = issue(&secret, &claims);
    assert_eq!(
        parse_and_verify(&secret, Role::GuildCommander, 10, &token).map(|_| ()),
        Err(TokenError::BadSignature)
    );
}

#[test]
fn tampered_signature_rejected() {
    let secret = b"secret".to_vec();
    let claims = sample_claims(b"42", Role::Adventurer, 1_000_000, 1);
    let mut token = issue(&secret, &claims);
    let last = *token.last().unwrap();
    let len = token.len();
    token[len - 1] = if last == b'A' { b'B' } else { b'A' };
    assert_eq!(
        parse_and_verify(&secret, Role::Adventurer, 10, &token).map(|_| ()),
        Err(TokenError::BadSignature)
    );
}

#[test]
fn malformed_tokens_rejected() {
    let secret = b"secret".to_vec();
    for bad in [
        &b""[..],
        &b"garbage"[..],
        &b"a.b.c"[..],
        &b"one.two"[..],
        &b"!!!.###.$$$"[..],
    ] {
        assert_eq!(
            parse_and_verify(&secret, Role::Adventurer, 10, &bad.to_vec()).map(|_| ()),
            Err(TokenError::Malformed),
            "expected malformed: {:?}",
            bad
        );
    }
    // A token whose payload part is no longer valid base64url is malformed.
    let mut token = issue(&secret, &sample_claims(b"42", Role::Adventurer, 1_000_000, 1));
    let first_dot = token.iter().position(|&b| b == b'.').unwrap();
    token[first_dot + 1] = b'!';
    assert_eq!(
        parse_and_verify(&secret, Role::Adventurer, 10, &token).map(|_| ()),
        Err(TokenError::Malformed)
    );
}

#[test]
fn interoperates_with_off_the_shelf_verifier() {
    let secret = b"interop-secret";
    let claims = sample_claims(b"42", Role::Adventurer, 4_102_444_800, 1_700_000_000);
    let token = issue(&secret.to_vec(), &claims);
    let text = String::from_utf8(token).unwrap();
    let decoded = jsonwebtoken::decode::<serde_json::Value>(
        &text,
        &jsonwebtoken::DecodingKey::from_secret(secret),
        &jsonwebtoken::Validation::new(jsonwebtoken::Algorithm::HS256),
    )
    .expect("an off-the-shelf verifier accepts the token");
    assert_eq!(decoded.claims["sub"], "42");
    assert_eq!(decoded.claims["role"], "Adventurer");
    assert_eq!(decoded.claims["exp"], 4_102_444_800u64);
    assert_eq!(decoded.claims["iat"], 1_700_000_000u64);
}

#[test]
fn base64url_matches_reference_implementation() {
    let reference = base64::engine::general_purpose::URL_SAFE_NO_PAD;
    let samples: Vec<Vec<u8>> = vec![
        vec![],
        vec![0],
        vec![255],
        vec![1, 2],
        vec![251, 252, 253],
        vec![0, 1, 2, 3],
        b"any carnal pleasure.".to_vec(),
        (0u8..=255).collect(),
    ];
    for bytes in samples {
        let ours = String::from_utf8(b64_encode(&bytes)).unwrap();
        assert_eq!(ours, reference.encode(&bytes));
        let decoded = b64_decode(&ours.into_bytes()).unwrap();
        assert_eq!(decoded, bytes);
    }
}

#[test]
fn base64url_decode_is_strict() {
    // Padded and non-canonical encodings are refused.
    assert_eq!(b64_decode(&b"QQ==".to_vec()), None);
    // "QR" would need nonzero trailing bits.
    assert_eq!(b64_decode(&b"QR".to_vec()), None);
    assert_eq!(b64_decode(&b"A".to_vec()), None);
    assert_eq!(b64_decode(&b"++".to_vec()), None);
    // The canonical form round-trips.
    assert_eq!(b64_decode(&b"QQ".to_vec()), Some(vec![b'A']));
}

#[test]
fn decimal_digits_exact() {
    assert_eq!(u64_to_digits(0), b"0".to_vec());
    assert_eq!(u64_to_digits(42), b"42".to_vec());
    assert_eq!(u64_to_digits(1_234_567_890), b"1234567890".to_vec());
    assert_eq!(u64_to_digits(u64::MAX), b"18446744073709551615".to_vec());

    let ok = b"18446744073709551615".to_vec();
    assert_eq!(parse_u64_range(&ok, 0, ok.len()), Some(u64::MAX));
    let over = b"18446744073709551616".to_vec();
    assert_eq!(parse_u64_range(&over, 0, over.len()), None);
    let zero_padded = b"042".to_vec();
    assert_eq!(parse_u64_range(&zero_padded, 0, zero_padded.len()), None);
    let empty: Vec<u8> = Vec::new();
    assert_eq!(parse_u64_range(&empty, 0, 0), None);
    let plain = b"42".to_vec();
    assert_eq!(parse_u64_range(&plain, 0, plain.len()), Some(42));
}

#[test]
fn policy_lifetimes() {
    assert_eq!(ACCESS_TTL_SECONDS, 86_400);
    assert_eq!(REFRESH_TTL_SECONDS, 604_800);
}
