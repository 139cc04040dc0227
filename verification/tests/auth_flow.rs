use std::sync::Arc;

use quest_tracker::argon2_hashing::hash;
use quest_tracker::authentication::{
    refresh_passport, AuthenticationUsecase, LoginModel, Passport, ACCESS_TTL_SECONDS,
};
use quest_tracker::authorization::authorize;
use quest_tracker::claims::Claims;
use quest_tracker::entities::{
    AdventurerEntity, GuildCommanderEntity, RegisterAdventurerEntity, RegisterGuildCommanderEntity,
};
use quest_tracker::errors::AuthError;
use quest_tracker::repositories::{AdventuresRepository, GuildCommandersRepository};
use quest_tracker::roles::Role;
use quest_tracker::secrets::{AuthSecrets, SecretDomain};
use quest_tracker::token::{issue, parse_and_verify};

struct OneAdventurer {
    id: u64,
    username: String,
    password_hash: String,
}

impl AdventuresRepository for OneAdventurer {
    fn find_by_username(&self, username: &String) -> Option<AdventurerEntity> {
        if *username == self.username {
            Some(AdventurerEntity {
                id: self.id,
                username: self.username.clone(),
                password: self.password_hash.clone(),
            })
        } else {
            None
        }
    }

    fn register(&self, _entity: RegisterAdventurerEntity) -> Option<u64> {
        None
    }
}

struct NoCommanders;

impl GuildCommandersRepository for NoCommanders {
    fn find_by_username(&self, _username: &String) -> Option<GuildCommanderEntity> {
        None
    }

    fn register(&self, _entity: RegisterGuildCommanderEntity) -> Option<u64> {
        None
    }
}

fn secrets() -> AuthSecrets {
    AuthSecrets::new(
        SecretDomain::new(b"adv-access".to_vec(), b"adv-refresh".to_vec()).unwrap(),
        SecretDomain::new(b"gc-access".to_vec(), b"gc-refresh".to_vec()).unwrap(),
    )
}

fn usecase_with(
    username: &str,
    password: &str,
    id: u64,
) -> AuthenticationUsecase<OneAdventurer, NoCommanders> {
    let repo = OneAdventurer {
        id,
        username: username.to_string(),
        password_hash: hash(password.to_string()).unwrap(),
    };
    AuthenticationUsecase::new(Arc::new(repo), Arc::new(NoCommanders), secrets())
}

fn login(usecase: &AuthenticationUsecase<OneAdventurer, NoCommanders>) -> Passport {
    usecase
        .adventurer_login(LoginModel {
            username: "alice".to_string(),
            password: "open sesame".to_string(),
        })
        .unwrap()
}

#[test]
fn login_issues_two_distinct_tokens_and_the_guard_resolves_the_principal() {
    let usecase = usecase_with("alice", "open sesame", 42);
    let passport = login(&usecase);
    assert!(!passport.access_token.is_empty());
    assert!(!passport.refresh_token.is_empty());
    assert_ne!(passport.access_token, passport.refresh_token);

    let adv_domain = SecretDomain::new(b"adv-access".to_vec(), b"adv-refresh".to_vec()).unwrap();
    let principal = authorize(Role::Adventurer, Some(&passport.access_token), 0, &adv_domain);
    assert_eq!(principal, Ok(42));

    // The same access token must be refused on a guild-commander route.
    let gc_domain = SecretDomain::new(b"gc-access".to_vec(), b"gc-refresh".to_vec()).unwrap();
    let cross = authorize(Role::GuildCommander, Some(&passport.access_token), 0, &gc_domain);
    assert_eq!(cross, Err(AuthError::Unauthenticated));
}

#[test]
fn missing_credential_is_unauthenticated() {
    let adv_domain = SecretDomain::new(b"adv-access".to_vec(), b"adv-refresh".to_vec()).unwrap();
    assert_eq!(
        authorize(Role::Adventurer, None, 0, &adv_domain),
        Err(AuthError::Unauthenticated)
    );
}

#[test]
fn non_numeric_subject_is_a_malformed_subject() {
    let adv_domain = SecretDomain::new(b"adv-access".to_vec(), b"adv-refresh".to_vec()).unwrap();
    let token = issue(
        &b"adv-access".to_vec(),
        &Claims { sub: b"abc".to_vec(), role: Role::Adventurer, exp: 1000, iat: 1 },
    );
    assert_eq!(
        authorize(Role::Adventurer, Some(&token), 10, &adv_domain),
        Err(AuthError::MalformedSubject)
    );
    // A zero-padded subject is not the canonical form of any id.
    let padded = issue(
        &b"adv-access".to_vec(),
        &Claims { sub: b"007".to_vec(), role: Role::Adventurer, exp: 1000, iat: 1 },
    );
    assert_eq!(
        authorize(Role::Adventurer, Some(&padded), 10, &adv_domain),
        Err(AuthError::MalformedSubject)
    );
}

#[test]
fn wrong_password_and_unknown_username_are_indistinguishable() {
    let usecase = usecase_with("alice", "open sesame", 42);
    let wrong_password = usecase.adventurer_login(LoginModel {
        username: "alice".to_string(),
        password: "wrong".to_string(),
    });
    assert_eq!(wrong_password.map(|_| ()), Err(AuthError::InvalidCredentials));
    let unknown_user = usecase.adventurer_login(LoginModel {
        username: "bob".to_string(),
        password: "open sesame".to_string(),
    });
    assert_eq!(unknown_user.map(|_| ()), Err(AuthError::InvalidCredentials));
}

#[test]
fn malformed_stored_hash_is_an_operational_error() {
    let repo = OneAdventurer {
        id: 7,
        username: "alice".to_string(),
        password_hash: "corrupted".to_string(),
    };
    let usecase = AuthenticationUsecase::new(Arc::new(repo), Arc::new(NoCommanders), secrets());
    let r = usecase.adventurer_login(LoginModel {
        username: "alice".to_string(),
        password: "open sesame".to_string(),
    });
    assert_eq!(r.map(|_| ()), Err(AuthError::HashingError));
}

#[test]
fn refresh_reissues_access_and_keeps_the_original_expiry() {
    let dom = SecretDomain::new(b"adv-access".to_vec(), b"adv-refresh".to_vec()).unwrap();
    let original_exp: u64 = 1_000_000;
    let refresh_token = issue(
        &b"adv-refresh".to_vec(),
        &Claims { sub: b"42".to_vec(), role: Role::Adventurer, exp: original_exp, iat: 500 },
    );
    let now: u64 = 600;
    let passport = refresh_passport(Role::Adventurer, &refresh_token, now, &dom).unwrap();

    let access = parse_and_verify(
        &b"adv-access".to_vec(),
        Role::Adventurer,
        now,
        &passport.access_token,
    )
    .unwrap();
    assert_eq!(access.sub, b"42".to_vec());
    assert_eq!(access.iat, now);
    assert_eq!(access.exp - access.iat, ACCESS_TTL_SECONDS);

    let refreshed = parse_and_verify(
        &b"adv-refresh".to_vec(),
        Role::Adventurer,
        now,
        &passport.refresh_token,
    )
    .unwrap();
    assert_eq!(refreshed.sub, b"42".to_vec());
    assert_eq!(refreshed.iat, now);
    assert_eq!(refreshed.exp, original_exp, "refresh must not extend the grant");
}

#[test]
fn refresh_rejects_expired_and_tampered_tokens() {
    let dom = SecretDomain::new(b"adv-access".to_vec(), b"adv-refresh".to_vec()).unwrap();
    let expired = issue(
        &b"adv-refresh".to_vec(),
        &Claims { sub: b"42".to_vec(), role: Role::Adventurer, exp: 100, iat: 50 },
    );
    assert_eq!(
        refresh_passport(Role::Adventurer, &expired, 200, &dom).map(|_| ()),
        Err(AuthError::InvalidToken)
    );

    let mut tampered = issue(
        &b"adv-refresh".to_vec(),
        &Claims { sub: b"42".to_vec(), role: Role::Adventurer, exp: 1_000_000, iat: 50 },
    );
    let len = tampered.len();
    let last = tampered[len - 1];
    tampered[len - 1] = if last == b'A' { b'B' } else { b'A' };
    assert_eq!(
        refresh_passport(Role::Adventurer, &tampered, 200, &dom).map(|_| ()),
        Err(AuthError::InvalidToken)
    );

    // A token signed under the other role's refresh secret is no refresh
    // token here either.
    let cross = issue(
        &b"gc-refresh".to_vec(),
        &Claims { sub: b"42".to_vec(), role: Role::Adventurer, exp: 1_000_000, iat: 50 },
    );
    assert_eq!(
        refresh_passport(Role::Adventurer, &cross, 200, &dom).map(|_| ()),
        Err(AuthError::InvalidToken)
    );
}

#[test]
fn secret_domains_reject_bad_configuration() {
    assert_eq!(
        SecretDomain::new(Vec::new(), b"r".to_vec()).map(|_| ()),
        Err(AuthError::ConfigurationError)
    );
    assert_eq!(
        SecretDomain::new(b"a".to_vec(), Vec::new()).map(|_| ()),
        Err(AuthError::ConfigurationError)
    );
    assert_eq!(
        SecretDomain::new(b"same".to_vec(), b"same".to_vec()).map(|_| ()),
        Err(AuthError::ConfigurationError)
    );
    assert!(SecretDomain::new(b"a".to_vec(), b"b".to_vec()).is_ok());
}
