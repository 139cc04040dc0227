use vstd::prelude::*;
use crate::quest_statuses::QuestStatuses;

verus! {

/// What a board query filters quests by: an optional name fragment and an
/// optional status.
pub struct BoardCheckingFilter {
    pub name: Option<String>,
    pub status: Option<QuestStatuses>,
}

} // verus!
