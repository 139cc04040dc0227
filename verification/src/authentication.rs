use vstd::prelude::*;
use std::sync::Arc;
use crate::argon2_hashing::{hash_parses, password_matches, verify};
use crate::claims::{append_bytes, wf_claims, Claims, ClaimsSpec};
use crate::clock::unix_now;
use crate::digits::{spec_u64_digits, u64_to_digits};
use crate::errors::AuthError;
use crate::repositories::{AdventuresRepository, GuildCommandersRepository};
use crate::roles::Role;
use crate::secrets::{AuthSecrets, SecretDomain};
use crate::token::{issue, parse_and_verify, spec_token, spec_verify};

verus! {

/// Access tokens live one day.
pub const ACCESS_TTL_SECONDS: u64 = 86400;

/// Refresh tokens live seven days from the original login.
pub const REFRESH_TTL_SECONDS: u64 = 604800;

/// The largest issue instant the orchestrator accepts: far past any clock
/// reading (a signed 64-bit count of unix seconds), and small enough that
/// adding a lifetime can never overflow.
pub const MAX_TOKEN_TIME: u64 = 0x7fff_ffff_ffff_ffff;

/// A login request.
pub struct LoginModel {
    pub username: String,
    pub password: String,
}

/// The looked-up account a login is checked against.
pub struct AccountRecord {
    pub id: u64,
    pub password_hash: String,
}

/// The pair a successful login or refresh returns.
pub struct Passport {
    pub access_token: Vec<u8>,
    pub refresh_token: Vec<u8>,
}

pub ghost struct PassportSpec {
    pub access_token: Seq<u8>,
    pub refresh_token: Seq<u8>,
}

impl View for Passport {
    type V = PassportSpec;

    open spec fn view(&self) -> PassportSpec {
        PassportSpec { access_token: self.access_token@, refresh_token: self.refresh_token@ }
    }
}

/// The claims of a fresh access token: issued `now`, expiring one access
/// lifetime later.
pub open spec fn access_claims(sub: Seq<u8>, role: Role, now: u64) -> ClaimsSpec {
    ClaimsSpec { sub, role, exp: (now + ACCESS_TTL_SECONDS) as u64, iat: now }
}

/// The claims of a fresh refresh token issued at login.
pub open spec fn refresh_claims(sub: Seq<u8>, role: Role, now: u64) -> ClaimsSpec {
    ClaimsSpec { sub, role, exp: (now + REFRESH_TTL_SECONDS) as u64, iat: now }
}

/// Both tokens of a passport were signed under the right secrets of one
/// domain, scoped to the role, for one subject.
pub open spec fn issued_for(dom: SecretDomain, role: Role, p: PassportSpec) -> bool {
    exists|c1: ClaimsSpec, c2: ClaimsSpec|
        #![trigger spec_token(dom.access(), c1), spec_token(dom.refresh(), c2)]
        c1.role == role && c2.role == role && c1.sub == c2.sub && p.access_token == spec_token(
            dom.access(),
            c1,
        ) && p.refresh_token == spec_token(dom.refresh(), c2)
}

/// The credential check and dual-token issuance of a login, once the account
/// lookup has happened: `Ok` exactly when an account was found and the
/// password matches its stored hash; the passport then carries an access
/// token and a refresh token for that account's id, both issued `now`.
/// An absent account and a wrong password yield the same error, so usernames
/// cannot be enumerated; a stored hash that does not even parse is the
/// distinct operational error.
pub fn issue_login_passport(
    role: Role,
    account: Option<AccountRecord>,
    password: String,
    now: u64,
    dom: &SecretDomain,
) -> (r: Result<Passport, AuthError>)
    requires
        now <= MAX_TOKEN_TIME,
    ensures
        match r {
            Ok(p) => account is Some && hash_parses(account->0.password_hash@)
                && password_matches(password@, account->0.password_hash@) && p@.access_token
                == spec_token(
                dom.access(),
                access_claims(spec_u64_digits(account->0.id as nat), role, now),
            ) && p@.refresh_token == spec_token(
                dom.refresh(),
                refresh_claims(spec_u64_digits(account->0.id as nat), role, now),
            ),
            Err(AuthError::InvalidCredentials) => account is None || (hash_parses(
                account->0.password_hash@,
            ) && !password_matches(password@, account->0.password_hash@)),
            Err(AuthError::HashingError) => account is Some && !hash_parses(
                account->0.password_hash@,
            ),
            Err(_) => false,
        },
{
    let acc = match account {
        None => {
            return Err(AuthError::InvalidCredentials);
        },
        Some(acc) => acc,
    };
    let matched = match verify(password, acc.password_hash) {
        Err(_) => {
            return Err(AuthError::HashingError);
        },
        Ok(m) => m,
    };
    if !matched {
        return Err(AuthError::InvalidCredentials);
    }
    let sub_access = u64_to_digits(acc.id);
    let sub_refresh = u64_to_digits(acc.id);
    let access_token = issue(
        dom.access_secret(),
        &Claims { sub: sub_access, role, exp: now + ACCESS_TTL_SECONDS, iat: now },
    );
    let refresh_token = issue(
        dom.refresh_secret(),
        &Claims { sub: sub_refresh, role, exp: now + REFRESH_TTL_SECONDS, iat: now },
    );
    Ok(Passport { access_token, refresh_token })
}

/// The reissuance step of a refresh: the presented refresh token is checked
/// under the role's refresh secret at time `now`; any failure is the single
/// merged `InvalidToken`. On success the new access token is issued fresh,
/// and the new refresh token keeps the verified token's expiry — refreshing
/// never extends the original grant — with a fresh issue instant.
pub fn refresh_passport(
    role: Role,
    refresh_token: &Vec<u8>,
    now: u64,
    dom: &SecretDomain,
) -> (r: Result<Passport, AuthError>)
    requires
        now <= MAX_TOKEN_TIME,
    ensures
        ({
            let v = spec_verify(dom.refresh(), role, now, refresh_token@);
            match r {
                Ok(p) => v is Ok && p@.access_token == spec_token(
                    dom.access(),
                    access_claims(v->Ok_0.sub, role, now),
                ) && p@.refresh_token == spec_token(
                    dom.refresh(),
                    ClaimsSpec { sub: v->Ok_0.sub, role, exp: v->Ok_0.exp, iat: now },
                ),
                Err(AuthError::InvalidToken) => v is Err,
                Err(_) => false,
            }
        }),
{
    let claims = match parse_and_verify(dom.refresh_secret(), role, now, refresh_token) {
        Err(_) => {
            return Err(AuthError::InvalidToken);
        },
        Ok(c) => c,
    };
    let mut sub_access: Vec<u8> = Vec::new();
    append_bytes(&mut sub_access, &claims.sub);
    proof {
        assert(sub_access@ =~= claims.sub@);
    }
    let access_token = issue(
        dom.access_secret(),
        &Claims { sub: sub_access, role, exp: now + ACCESS_TTL_SECONDS, iat: now },
    );
    let new_refresh_token = issue(
        dom.refresh_secret(),
        &Claims { sub: claims.sub, role, exp: claims.exp, iat: now },
    );
    Ok(Passport { access_token, refresh_token: new_refresh_token })
}

/// What a refreshed pair decodes to, stated over the token model: the new
/// access token lives exactly one access lifetime from the refresh instant,
/// and the renewed refresh token expires exactly when the presented one did
/// — refreshing never extends the original grant.
pub proof fn lemma_refresh_preserves_expiry(dom: SecretDomain, role: Role, now: u64, v: ClaimsSpec)
    requires
        wf_claims(v),
        now <= MAX_TOKEN_TIME,
    ensures
        ({
            let a = access_claims(v.sub, role, now);
            let r = (ClaimsSpec { sub: v.sub, role, exp: v.exp, iat: now });
            &&& a.exp - a.iat == ACCESS_TTL_SECONDS
            &&& r.exp == v.exp
            &&& r.iat == now
            &&& spec_verify(dom.access(), role, now, spec_token(dom.access(), a)) == Ok::<
                ClaimsSpec,
                crate::errors::TokenError,
            >(a)
            &&& now < v.exp ==> spec_verify(
                dom.refresh(),
                role,
                now,
                spec_token(dom.refresh(), r),
            ) == Ok::<ClaimsSpec, crate::errors::TokenError>(r)
        }),
{
    let a = access_claims(v.sub, role, now);
    let r = (ClaimsSpec { sub: v.sub, role, exp: v.exp, iat: now });
    crate::token::lemma_issue_verify_round_trip(dom.access(), now, a);
    if now < v.exp {
        crate::token::lemma_issue_verify_round_trip(dom.refresh(), now, r);
    }
}

/// Reads the clock and clamps it into the range the token builders accept.
fn now_clamped() -> (r: u64)
    ensures
        r <= MAX_TOKEN_TIME,
{
    let t = unix_now();
    if t < 0 {
        0
    } else {
        t as u64
    }
}

/// The stateless login/refresh orchestrator: one account store per principal
/// kind, and the process-wide secrets, injected once at startup.
pub struct AuthenticationUsecase<T1, T2> where
    T1: AdventuresRepository,
    T2: GuildCommandersRepository,
 {
    pub adventures_repository: Arc<T1>,
    pub guild_commanders_repository: Arc<T2>,
    pub secrets: AuthSecrets,
}

impl<T1, T2> AuthenticationUsecase<T1, T2> where
    T1: AdventuresRepository,
    T2: GuildCommandersRepository,
 {
    pub fn new(
        adventures_repository: Arc<T1>,
        guild_commanders_repository: Arc<T2>,
        secrets: AuthSecrets,
    ) -> (r: Self)
        ensures
            r.adventures_repository == adventures_repository,
            r.guild_commanders_repository == guild_commanders_repository,
            r.secrets == secrets,
    {
        Self { adventures_repository, guild_commanders_repository, secrets }
    }

    /// Adventurer login: look the username up, check the password, and on
    /// success issue a passport under the adventurer secret domain.
    pub fn adventurer_login(&self, login_model: LoginModel) -> (r: Result<Passport, AuthError>)
        ensures
            r is Ok ==> issued_for(self.secrets.adventurer, Role::Adventurer, r->Ok_0@),
    {
        let found = self.adventures_repository.find_by_username(&login_model.username);
        let account = match found {
            None => None,
            Some(e) => Some(AccountRecord { id: e.id, password_hash: e.password }),
        };
        let now = now_clamped();
        let r = issue_login_passport(
            Role::Adventurer,
            account,
            login_model.password,
            now,
            self.secrets.secrets_for(Role::Adventurer),
        );
        proof {
            if r is Ok {
                let ghost sub = spec_u64_digits(account->0.id as nat);
                assert(issued_for(self.secrets.adventurer, Role::Adventurer, r->Ok_0@)) by {
                    let c1 = access_claims(sub, Role::Adventurer, now);
                    let c2 = refresh_claims(sub, Role::Adventurer, now);
                    assert(r->Ok_0@.access_token == spec_token(
                        self.secrets.adventurer.access(),
                        c1,
                    ) && r->Ok_0@.refresh_token == spec_token(self.secrets.adventurer.refresh(), c2));
                }
            }
        }
        r
    }

    /// Adventurer refresh: verify the presented refresh token under the
    /// adventurer refresh secret and reissue, keeping the original expiry.
    pub fn adventurer_refresh_token(&self, refresh_token: Vec<u8>) -> (r: Result<
        Passport,
        AuthError,
    >)
        ensures
            r is Ok ==> issued_for(self.secrets.adventurer, Role::Adventurer, r->Ok_0@),
    {
        let now = now_clamped();
        let r = refresh_passport(
            Role::Adventurer,
            &refresh_token,
            now,
            self.secrets.secrets_for(Role::Adventurer),
        );
        proof {
            if r is Ok {
                let ghost v = spec_verify(
                    self.secrets.adventurer.refresh(),
                    Role::Adventurer,
                    now,
                    refresh_token@,
                );
                assert(issued_for(self.secrets.adventurer, Role::Adventurer, r->Ok_0@)) by {
                    let c1 = access_claims(v->Ok_0.sub, Role::Adventurer, now);
                    let c2 = ClaimsSpec {
                        sub: v->Ok_0.sub,
                        role: Role::Adventurer,
                        exp: v->Ok_0.exp,
                        iat: now,
                    };
                    assert(r->Ok_0@.access_token == spec_token(
                        self.secrets.adventurer.access(),
                        c1,
                    ) && r->Ok_0@.refresh_token == spec_token(self.secrets.adventurer.refresh(), c2));
                }
            }
        }
        r
    }

    /// Guild commander login, the parallel flow under the other secret
    /// domain and account store; the two flows never cross.
    pub fn guild_commander_login(&self, login_model: LoginModel) -> (r: Result<Passport, AuthError>)
        ensures
            r is Ok ==> issued_for(self.secrets.guild_commander, Role::GuildCommander, r->Ok_0@),
    {
        let found = self.guild_commanders_repository.find_by_username(&login_model.username);
        let account = match found {
            None => None,
            Some(e) => Some(AccountRecord { id: e.id, password_hash: e.password }),
        };
        let now = now_clamped();
        let r = issue_login_passport(
            Role::GuildCommander,
            account,
            login_model.password,
            now,
            self.secrets.secrets_for(Role::GuildCommander),
        );
        proof {
            if r is Ok {
                let ghost sub = spec_u64_digits(account->0.id as nat);
                assert(issued_for(self.secrets.guild_commander, Role::GuildCommander, r->Ok_0@))
                    by {
                    let c1 = access_claims(sub, Role::GuildCommander, now);
                    let c2 = refresh_claims(sub, Role::GuildCommander, now);
                    assert(r->Ok_0@.access_token == spec_token(
                        self.secrets.guild_commander.access(),
                        c1,
                    ) && r->Ok_0@.refresh_token == spec_token(
                        self.secrets.guild_commander.refresh(),
                        c2,
                    ));
                }
            }
        }
        r
    }

    /// Guild commander refresh.
    pub fn guild_commander_refresh_token(&self, refresh_token: Vec<u8>) -> (r: Result<
        Passport,
        AuthError,
    >)
        ensures
            r is Ok ==> issued_for(self.secrets.guild_commander, Role::GuildCommander, r->Ok_0@),
    {
        let now = now_clamped();
        let r = refresh_passport(
            Role::GuildCommander,
            &refresh_token,
            now,
            self.secrets.secrets_for(Role::GuildCommander),
        );
        proof {
            if r is Ok {
                let ghost v = spec_verify(
                    self.secrets.guild_commander.refresh(),
                    Role::GuildCommander,
                    now,
                    refresh_token@,
                );
                assert(issued_for(self.secrets.guild_commander, Role::GuildCommander, r->Ok_0@))
                    by {
                    let c1 = access_claims(v->Ok_0.sub, Role::GuildCommander, now);
                    let c2 = ClaimsSpec {
                        sub: v->Ok_0.sub,
                        role: Role::GuildCommander,
                        exp: v->Ok_0.exp,
                        iat: now,
                    };
                    assert(r->Ok_0@.access_token == spec_token(
                        self.secrets.guild_commander.access(),
                        c1,
                    ) && r->Ok_0@.refresh_token == spec_token(
                        self.secrets.guild_commander.refresh(),
                        c2,
                    ));
                }
            }
        }
        r
    }
}

} // verus!
