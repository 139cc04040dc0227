use vstd::prelude::*;
use std::sync::Arc;
use crate::argon2_hashing::{hash, hash_parses, password_matches};
use crate::entities::{RegisterAdventurerEntity, RegisterAdventurerModel};
use crate::repositories::AdventuresRepository;

verus! {

/// Turns a registration request into what storage gets: the username kept,
/// the plaintext replaced by a hash that verifies it.
pub fn secure_adventurer_entity(model: RegisterAdventurerModel) -> (r: Option<
    RegisterAdventurerEntity,
>)
    ensures
        r is Some ==> r->0.username == model.username && hash_parses(r->0.password@)
            && password_matches(model.password@, r->0.password@),
{
    match hash(model.password) {
        Ok(hashed) => Some(RegisterAdventurerEntity { username: model.username, password: hashed }),
        Err(_) => None,
    }
}

/// Adventurer registration: hash the password, store the account.
pub struct AdventuresUsecase<T> where T: AdventuresRepository {
    pub adventures_repository: Arc<T>,
}

impl<T> AdventuresUsecase<T> where T: AdventuresRepository {
    pub fn new(adventures_repository: Arc<T>) -> (r: Self)
        ensures
            r.adventures_repository == adventures_repository,
    {
        Self { adventures_repository }
    }

    /// Registers a new adventurer: the stored record never holds the
    /// plaintext, only a hash that verifies it. `None` when hashing or
    /// storage failed.
    pub fn register(&self, register_adventurer_model: RegisterAdventurerModel) -> Option<u64> {
        let entity = match secure_adventurer_entity(register_adventurer_model) {
            None => {
                return None;
            },
            Some(e) => e,
        };
        self.adventures_repository.register(entity)
    }
}

} // verus!
