use vstd::prelude::*;
use crate::quest_statuses::QuestStatuses;

verus! {

/// A stored adventurer account: the hash stands in for the password and the
/// plaintext is never kept.
pub struct AdventurerEntity {
    pub id: u64,
    pub username: String,
    pub password: String,
}

/// A stored guild commander account.
pub struct GuildCommanderEntity {
    pub id: u64,
    pub username: String,
    pub password: String,
}

/// A registration request: the password here is still the plaintext.
pub struct RegisterAdventurerModel {
    pub username: String,
    pub password: String,
}

/// What is handed to storage for a new adventurer: the password field holds
/// the encoded hash.
pub struct RegisterAdventurerEntity {
    pub username: String,
    pub password: String,
}

pub struct RegisterGuildCommanderModel {
    pub username: String,
    pub password: String,
}

pub struct RegisterGuildCommanderEntity {
    pub username: String,
    pub password: String,
}

/// A stored quest.
pub struct QuestEntity {
    pub id: i32,
    pub name: String,
    pub description: Option<String>,
    pub status: QuestStatuses,
    pub guild_commander_id: i32,
}

/// A quest as shown to clients: the entity plus how many adventurers joined.
pub struct QuestModel {
    pub id: i32,
    pub name: String,
    pub description: Option<String>,
    pub status: QuestStatuses,
    pub guild_commander_id: i32,
    pub adventurers_count: i64,
}

/// The membership record tying an adventurer to a quest.
pub struct QuestAdventurerJunction {
    pub quest_id: i32,
    pub adventurer_id: i32,
}

impl QuestEntity {
    /// The client view of this quest with its crew count attached.
    pub fn to_model(self, adventurers_count: i64) -> (m: QuestModel)
        ensures
            m.id == self.id,
            m.name == self.name,
            m.description == self.description,
            m.status == self.status,
            m.guild_commander_id == self.guild_commander_id,
            m.adventurers_count == adventurers_count,
    {
        QuestModel {
            id: self.id,
            name: self.name,
            description: self.description,
            status: self.status,
            guild_commander_id: self.guild_commander_id,
            adventurers_count,
        }
    }
}

} // verus!
