use std::sync::Arc;

use quest_tracker::argon2_hashing::verify;
use quest_tracker::adventures::AdventuresUsecase;
use quest_tracker::board_checking_filter::BoardCheckingFilter;
use quest_tracker::crew_swithboard::{CrewError, CrewSwithboardUsecase};
use quest_tracker::entities::{
    AdventurerEntity, QuestAdventurerJunction, QuestEntity, RegisterAdventurerEntity,
    RegisterAdventurerModel,
};
use quest_tracker::quest_statuses::QuestStatuses;
use quest_tracker::quest_viewing::QuestViewingUsecase;
use quest_tracker::repositories::{
    AdventuresRepository, CrewSwithboardRepository, QuestViewingRepository,
};

use std::cell::RefCell;

struct OneQuest {
    status: QuestStatuses,
}

impl QuestViewingRepository for OneQuest {
    fn view_details(&self, quest_id: i32) -> Option<QuestEntity> {
        if quest_id == 1 {
            Some(QuestEntity {
                id: 1,
                name: "Slay the dragon".to_string(),
                description: None,
                status: self.status,
                guild_commander_id: 9,
            })
        } else {
            None
        }
    }

    fn board_checking(&self, _filter: &BoardCheckingFilter) -> Option<Vec<QuestEntity>> {
        Some(vec![
            QuestEntity {
                id: 1,
                name: "Slay the dragon".to_string(),
                description: None,
                status: self.status,
                guild_commander_id: 9,
            },
            QuestEntity {
                id: 2,
                name: "Fetch the herbs".to_string(),
                description: Some("by the river".to_string()),
                status: self.status,
                guild_commander_id: 9,
            },
        ])
    }

    fn adventurers_counting_by_quest_id(&self, quest_id: i32) -> Option<i64> {
        Some(quest_id as i64 * 10)
    }
}

struct RecordingCrew;

impl CrewSwithboardRepository for RecordingCrew {
    fn join(&self, junction_body: QuestAdventurerJunction) -> bool {
        junction_body.quest_id == 1
    }

    fn leave(&self, junction_body: QuestAdventurerJunction) -> bool {
        junction_body.quest_id == 1
    }
}

fn crew_usecase(status: QuestStatuses) -> CrewSwithboardUsecase<RecordingCrew, OneQuest> {
    CrewSwithboardUsecase::new(Arc::new(RecordingCrew), Arc::new(OneQuest { status }))
}

#[test]
fn joining_depends_on_quest_status() {
    assert_eq!(crew_usecase(QuestStatuses::Open).join(1, 5), Ok(()));
    assert_eq!(crew_usecase(QuestStatuses::Failed).join(1, 5), Ok(()));
    assert_eq!(
        crew_usecase(QuestStatuses::InJourney).join(1, 5),
        Err(CrewError::QuestClosed)
    );
    assert_eq!(
        crew_usecase(QuestStatuses::Completed).join(1, 5),
        Err(CrewError::QuestClosed)
    );
    assert_eq!(
        crew_usecase(QuestStatuses::Open).join(99, 5),
        Err(CrewError::QuestNotFound)
    );
}

#[test]
fn leaving_follows_the_same_state_rule() {
    assert_eq!(crew_usecase(QuestStatuses::Open).leave(1, 5), Ok(()));
    assert_eq!(
        crew_usecase(QuestStatuses::Completed).leave(1, 5),
        Err(CrewError::QuestClosed)
    );
}

#[test]
fn view_details_attaches_the_crew_count() {
    let usecase = QuestViewingUsecase::new(Arc::new(OneQuest { status: QuestStatuses::Open }));
    let model = usecase.view_details(1).unwrap();
    assert_eq!(model.id, 1);
    assert_eq!(model.adventurers_count, 10);
    assert!(matches!(model.status, QuestStatuses::Open));
    assert!(usecase.view_details(3).is_none());
}

#[test]
fn board_checking_pairs_each_quest_with_its_count() {
    let usecase = QuestViewingUsecase::new(Arc::new(OneQuest { status: QuestStatuses::Open }));
    let filter = BoardCheckingFilter { name: None, status: None };
    let board = usecase.board_checking(&filter).unwrap();
    assert_eq!(board.len(), 2);
    assert_eq!(board[0].id, 1);
    assert_eq!(board[0].adventurers_count, 10);
    assert_eq!(board[1].id, 2);
    assert_eq!(board[1].adventurers_count, 20);
}

#[test]
fn status_names_round_trip_and_reject_unknown_values() {
    let all = [
        QuestStatuses::Open,
        QuestStatuses::InJourney,
        QuestStatuses::Completed,
        QuestStatuses::Failed,
    ];
    for status in all {
        let text = status.to_text();
        assert_eq!(QuestStatuses::from_text(&text), Some(status));
    }
    assert_eq!(QuestStatuses::to_text(&QuestStatuses::Open), "Open".to_string());
    assert_eq!(QuestStatuses::from_text(&"Abandoned".to_string()), None);
    assert_eq!(QuestStatuses::from_text(&"open".to_string()), None);
    assert_eq!(QuestStatuses::from_text(&String::new()), None);
}

#[test]
fn default_status_is_open() {
    assert_eq!(QuestStatuses::default(), QuestStatuses::Open);
}

struct CapturingAdventurers {
    stored: RefCell<Option<RegisterAdventurerEntity>>,
}

impl AdventuresRepository for CapturingAdventurers {
    fn find_by_username(&self, _username: &String) -> Option<AdventurerEntity> {
        None
    }

    fn register(&self, register_adventurer_entity: RegisterAdventurerEntity) -> Option<u64> {
        *self.stored.borrow_mut() = Some(register_adventurer_entity);
        Some(77)
    }
}

#[test]
fn registration_stores_a_hash_that_verifies_the_plaintext() {
    let repo = Arc::new(CapturingAdventurers { stored: RefCell::new(None) });
    let usecase = AdventuresUsecase::new(repo.clone());
    let id = usecase.register(RegisterAdventurerModel {
        username: "alice".to_string(),
        password: "open sesame".to_string(),
    });
    assert_eq!(id, Some(77));
    let stored = repo.stored.borrow();
    let entity = stored.as_ref().expect("an entity was stored");
    assert_eq!(entity.username, "alice");
    let hash = entity.password.clone();
    assert_ne!(hash, "open sesame");
    assert_eq!(verify("open sesame".to_string(), hash.clone()), Ok(true));
    assert_eq!(verify("wrong".to_string(), hash), Ok(false));
}
