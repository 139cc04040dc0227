use vstd::prelude::*;
use crate::claims::vecs_equal;
use crate::errors::AuthError;
use crate::roles::Role;

verus! {

/// The signing secrets of one role: one for access tokens and a distinct one
/// for refresh tokens. The fields are private so a domain can only be built
/// through `new`, which enforces the invariant.
pub struct SecretDomain {
    secret: Vec<u8>,
    refresh_secret: Vec<u8>,
}

impl SecretDomain {
    /// The access-token signing secret.
    pub closed spec fn access(&self) -> Seq<u8> {
        self.secret@
    }

    /// The refresh-token signing secret.
    pub closed spec fn refresh(&self) -> Seq<u8> {
        self.refresh_secret@
    }

    /// Both secrets nonempty, and never equal to each other.
    pub open spec fn wf(&self) -> bool {
        self.access().len() > 0 && self.refresh().len() > 0 && self.access() != self.refresh()
    }

    /// Builds a domain; rejects an absent (empty) secret and an equal pair,
    /// which would collapse the two token kinds into one.
    pub fn new(secret: Vec<u8>, refresh_secret: Vec<u8>) -> (r: Result<SecretDomain, AuthError>)
        ensures
            (r is Ok) == (secret@.len() > 0 && refresh_secret@.len() > 0 && secret@
                != refresh_secret@),
            r is Ok ==> r->Ok_0.access() == secret@ && r->Ok_0.refresh() == refresh_secret@
                && r->Ok_0.wf(),
            r is Err ==> r->Err_0 == AuthError::ConfigurationError,
    {
        if secret.len() == 0 || refresh_secret.len() == 0 {
            return Err(AuthError::ConfigurationError);
        }
        if vecs_equal(&secret, &refresh_secret) {
            return Err(AuthError::ConfigurationError);
        }
        Ok(SecretDomain { secret, refresh_secret })
    }

    /// The access secret, for signing and verifying access tokens.
    pub fn access_secret(&self) -> (r: &Vec<u8>)
        ensures
            r@ == self.access(),
    {
        &self.secret
    }

    /// The refresh secret, for signing and verifying refresh tokens.
    pub fn refresh_secret(&self) -> (r: &Vec<u8>)
        ensures
            r@ == self.refresh(),
    {
        &self.refresh_secret
    }
}

/// The process-wide secret material: one secret domain per role, loaded once
/// at startup and passed explicitly to whoever needs it.
pub struct AuthSecrets {
    pub adventurer: SecretDomain,
    pub guild_commander: SecretDomain,
}

impl AuthSecrets {
    pub open spec fn wf(&self) -> bool {
        self.adventurer.wf() && self.guild_commander.wf()
    }

    /// The secret domain that signs and checks tokens of `role`.
    pub open spec fn spec_secrets_for(&self, role: Role) -> SecretDomain {
        match role {
            Role::Adventurer => self.adventurer,
            Role::GuildCommander => self.guild_commander,
        }
    }

    pub fn new(adventurer: SecretDomain, guild_commander: SecretDomain) -> (r: AuthSecrets)
        ensures
            r.adventurer == adventurer,
            r.guild_commander == guild_commander,
    {
        AuthSecrets { adventurer, guild_commander }
    }

    /// The secret domain of a role.
    pub fn secrets_for(&self, role: Role) -> (r: &SecretDomain)
        ensures
            *r == self.spec_secrets_for(role),
    {
        match role {
            Role::Adventurer => &self.adventurer,
            Role::GuildCommander => &self.guild_commander,
        }
    }
}

} // verus!
