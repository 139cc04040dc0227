use vstd::prelude::*;
use std::sync::Arc;
use crate::entities::QuestAdventurerJunction;
use crate::quest_statuses::QuestStatuses;
use crate::repositories::{CrewSwithboardRepository, QuestViewingRepository};

verus! {

/// Why a crew change was refused.
#[derive(Clone, Copy, Debug, PartialEq, Eq, Structural)]
pub enum CrewError {
    /// No quest under that id.
    QuestNotFound,
    /// The quest is under way or concluded, so its crew is frozen.
    QuestClosed,
    /// Storage refused the change.
    StorageFailure,
}

/// Whether a quest in this state accepts adventurers joining or leaving:
/// only an open quest, or a failed one being retried, does.
pub fn quest_accepts_crew_changes(status: &QuestStatuses) -> (r: bool)
    ensures
        r == (status is Open || status is Failed),
{
    match status {
        QuestStatuses::Open => true,
        QuestStatuses::Failed => true,
        QuestStatuses::InJourney => false,
        QuestStatuses::Completed => false,
    }
}

/// Joining and leaving quest crews, allowed only in certain quest states.
pub struct CrewSwithboardUsecase<T1, T2> where
    T1: CrewSwithboardRepository,
    T2: QuestViewingRepository,
 {
    pub crew_swithboard_repository: Arc<T1>,
    pub quest_viewing_repository: Arc<T2>,
}

impl<T1, T2> CrewSwithboardUsecase<T1, T2> where
    T1: CrewSwithboardRepository,
    T2: QuestViewingRepository,
 {
    pub fn new(crew_swithboard_repository: Arc<T1>, quest_viewing_repository: Arc<T2>) -> (r: Self)
        ensures
            r.crew_swithboard_repository == crew_swithboard_repository,
            r.quest_viewing_repository == quest_viewing_repository,
    {
        Self { crew_swithboard_repository, quest_viewing_repository }
    }

    /// Adds an adventurer to a quest's crew, if the quest accepts changes.
    pub fn join(&self, quest_id: i32, adventurer_id: i32) -> Result<(), CrewError> {
        let quest = match self.quest_viewing_repository.view_details(quest_id) {
            None => {
                return Err(CrewError::QuestNotFound);
            },
            Some(q) => q,
        };
        if !quest_accepts_crew_changes(&quest.status) {
            return Err(CrewError::QuestClosed);
        }
        let junction_body = QuestAdventurerJunction { quest_id, adventurer_id };
        if self.crew_swithboard_repository.join(junction_body) {
            Ok(())
        } else {
            Err(CrewError::StorageFailure)
        }
    }

    /// Removes an adventurer from a quest's crew, under the same state rule.
    pub fn leave(&self, quest_id: i32, adventurer_id: i32) -> Result<(), CrewError> {
        let quest = match self.quest_viewing_repository.view_details(quest_id) {
            None => {
                return Err(CrewError::QuestNotFound);
            },
            Some(q) => q,
        };
        if !quest_accepts_crew_changes(&quest.status) {
            return Err(CrewError::QuestClosed);
        }
        let junction_body = QuestAdventurerJunction { quest_id, adventurer_id };
        if self.crew_swithboard_repository.leave(junction_body) {
            Ok(())
        } else {
            Err(CrewError::StorageFailure)
        }
    }
}

} // verus!
