use vstd::prelude::*;

verus! {

/// The lifecycle states of a quest.
#[derive(Clone, Copy, Debug, PartialEq, Eq, Structural)]
pub enum QuestStatuses {
    Open,
    InJourney,
    Completed,
    Failed,
}

impl Default for QuestStatuses {
    fn default() -> (r: Self)
        ensures
            r == QuestStatuses::Open,
    {
        QuestStatuses::Open
    }
}

/// The canonical name of a status, as it is stored and serialized.
pub open spec fn spec_status_text(s: QuestStatuses) -> Seq<char> {
    match s {
        QuestStatuses::Open => "Open"@,
        QuestStatuses::InJourney => "InJourney"@,
        QuestStatuses::Completed => "Completed"@,
        QuestStatuses::Failed => "Failed"@,
    }
}

impl QuestStatuses {
    /// The canonical name of this status.
    pub fn to_text(&self) -> (r: String)
        ensures
            r@ == spec_status_text(*self),
    {
        match self {
            QuestStatuses::Open => "Open".to_owned(),
            QuestStatuses::InJourney => "InJourney".to_owned(),
            QuestStatuses::Completed => "Completed".to_owned(),
            QuestStatuses::Failed => "Failed".to_owned(),
        }
    }

    /// Parses a stored status name; any value outside the closed set is
    /// invalid input, not a state.
    pub fn from_text(value: &String) -> (r: Option<QuestStatuses>)
        ensures
            r is Some ==> value@ == spec_status_text(r->0),
            r is None ==> forall|s: QuestStatuses| value@ != spec_status_text(s),
    {
        if value.eq(&"Open".to_owned()) {
            Some(QuestStatuses::Open)
        } else if value.eq(&"InJourney".to_owned()) {
            Some(QuestStatuses::InJourney)
        } else if value.eq(&"Completed".to_owned()) {
            Some(QuestStatuses::Completed)
        } else if value.eq(&"Failed".to_owned()) {
            Some(QuestStatuses::Failed)
        } else {
            proof {
                assert forall|s: QuestStatuses| value@ != spec_status_text(s) by {
                }
            }
            None
        }
    }
}

} // verus!
