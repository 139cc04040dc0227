use vstd::prelude::*;
use std::sync::Arc;
use crate::board_checking_filter::BoardCheckingFilter;
use crate::entities::{QuestEntity, QuestModel};
use crate::repositories::QuestViewingRepository;

verus! {

/// Pairs each quest with its crew count, in order.
pub fn quests_to_models(quests: Vec<QuestEntity>, counts: &Vec<i64>) -> (r: Vec<QuestModel>)
    requires
        quests@.len() == counts@.len(),
    ensures
        r@.len() == quests@.len(),
        forall|i: int|
            0 <= i < r@.len() ==> (#[trigger] r@[i]).id == quests@[i].id && r@[i].status
                == quests@[i].status && r@[i].adventurers_count == counts@[i],
{
    let mut out: Vec<QuestModel> = Vec::new();
    let mut quests = quests;
    let ghost original = quests@;
    let mut i: usize = 0;
    while i < counts.len()
        invariant
            i <= counts@.len() == original.len(),
            quests@ == original.skip(i as int),
            out@.len() == i,
            forall|j: int|
                0 <= j < i ==> (#[trigger] out@[j]).id == original[j].id && out@[j].status
                    == original[j].status && out@[j].adventurers_count == counts@[j],
        decreases counts@.len() - i,
    {
        let entity = quests.remove(0);
        proof {
            assert(entity == original[i as int]);
            assert(quests@ =~= original.skip(i + 1));
        }
        out.push(entity.to_model(counts[i]));
        proof {
            assert(out@[i as int].id == original[i as int].id && out@[i as int].status
                == original[i as int].status && out@[i as int].adventurers_count
                == counts@[i as int]);
        }
        i = i + 1;
    }
    out
}

/// Read-only views of the quest board.
pub struct QuestViewingUsecase<T> where T: QuestViewingRepository {
    pub quest_viewing_repository: Arc<T>,
}

impl<T> QuestViewingUsecase<T> where T: QuestViewingRepository {
    pub fn new(quest_viewing_repository: Arc<T>) -> (r: Self)
        ensures
            r.quest_viewing_repository == quest_viewing_repository,
    {
        Self { quest_viewing_repository }
    }

    /// One quest with its crew count, or `None` when either lookup fails.
    pub fn view_details(&self, quest_id: i32) -> Option<QuestModel> {
        let entity = match self.quest_viewing_repository.view_details(quest_id) {
            None => {
                return None;
            },
            Some(e) => e,
        };
        let count = match self.quest_viewing_repository.adventurers_counting_by_quest_id(quest_id) {
            None => {
                return None;
            },
            Some(n) => n,
        };
        Some(entity.to_model(count))
    }

    /// The filtered board, each quest with its crew count.
    pub fn board_checking(&self, filter: &BoardCheckingFilter) -> Option<Vec<QuestModel>> {
        let quests = match self.quest_viewing_repository.board_checking(filter) {
            None => {
                return None;
            },
            Some(qs) => qs,
        };
        let mut counts: Vec<i64> = Vec::new();
        let mut i: usize = 0;
        while i < quests.len()
            invariant
                i <= quests@.len(),
                counts@.len() == i,
            decreases quests@.len() - i,
        {
            let count = match self.quest_viewing_repository.adventurers_counting_by_quest_id(
                quests[i].id,
            ) {
                None => {
                    return None;
                },
                Some(n) => n,
            };
            counts.push(count);
            i = i + 1;
        }
        Some(quests_to_models(quests, &counts))
    }

    /// How many adventurers have joined a quest.
    pub fn adventurers_counting_by_quest_id(&self, quest_id: i32) -> Option<i64> {
        self.quest_viewing_repository.adventurers_counting_by_quest_id(quest_id)
    }
}

} // verus!
