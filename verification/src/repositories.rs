use vstd::prelude::*;
use crate::board_checking_filter::BoardCheckingFilter;
use crate::entities::{
    AdventurerEntity, GuildCommanderEntity, QuestAdventurerJunction, QuestEntity,
    RegisterAdventurerEntity, RegisterGuildCommanderEntity,
};

verus! {

/// Storage of adventurer accounts. Implementations live outside the library
/// (a database, an in-memory table in tests); nothing is assumed of them.
pub trait AdventuresRepository {
    /// The stored account under this username, or `None` when absent.
    fn find_by_username(&self, username: &String) -> Option<AdventurerEntity>;

    /// Stores a new account and returns its id, or `None` when storage
    /// refuses.
    fn register(&self, register_adventurer_entity: RegisterAdventurerEntity) -> Option<u64>;
}

/// Storage of guild commander accounts.
pub trait GuildCommandersRepository {
    fn find_by_username(&self, username: &String) -> Option<GuildCommanderEntity>;

    fn register(&self, register_guild_commander_entity: RegisterGuildCommanderEntity) -> Option<
        u64,
    >;
}

/// Read access to the quest board.
pub trait QuestViewingRepository {
    fn view_details(&self, quest_id: i32) -> Option<QuestEntity>;

    fn board_checking(&self, filter: &BoardCheckingFilter) -> Option<Vec<QuestEntity>>;

    fn adventurers_counting_by_quest_id(&self, quest_id: i32) -> Option<i64>;
}

/// Membership changes of quest crews; `true` means the change was stored.
pub trait CrewSwithboardRepository {
    fn join(&self, junction_body: QuestAdventurerJunction) -> bool;

    fn leave(&self, junction_body: QuestAdventurerJunction) -> bool;
}

} // verus!
