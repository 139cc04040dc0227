use vstd::prelude::*;
use std::sync::Arc;
use crate::argon2_hashing::{hash, hash_parses, password_matches};
use crate::entities::{RegisterGuildCommanderEntity, RegisterGuildCommanderModel};
use crate::repositories::GuildCommandersRepository;

verus! {

/// Turns a registration request into what storage gets, with the plaintext
/// replaced by a hash that verifies it.
pub fn secure_guild_commander_entity(model: RegisterGuildCommanderModel) -> (r: Option<
    RegisterGuildCommanderEntity,
>)
    ensures
        r is Some ==> r->0.username == model.username && hash_parses(r->0.password@)
            && password_matches(model.password@, r->0.password@),
{
    match hash(model.password) {
        Ok(hashed) => Some(
            RegisterGuildCommanderEntity { username: model.username, password: hashed },
        ),
        Err(_) => None,
    }
}

/// Guild commander registration.
pub struct GuildCommandersUsecase<T> where T: GuildCommandersRepository {
    pub guild_commanders_repository: Arc<T>,
}

impl<T> GuildCommandersUsecase<T> where T: GuildCommandersRepository {
    pub fn new(guild_commanders_repository: Arc<T>) -> (r: Self)
        ensures
            r.guild_commanders_repository == guild_commanders_repository,
    {
        Self { guild_commanders_repository }
    }

    /// Registers a new guild commander; `None` when hashing or storage
    /// failed.
    pub fn register(&self, register_guild_commander_model: RegisterGuildCommanderModel) -> Option<
        u64,
    > {
        let entity = match secure_guild_commander_entity(register_guild_commander_model) {
            None => {
                return None;
            },
            Some(e) => e,
        };
        self.guild_commanders_repository.register(entity)
    }
}

} // verus!
