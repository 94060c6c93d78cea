use xharness::queue::{plan_queue_update, QueueAction, QueueError};

fn blocks(types: &[Option<&str>]) -> Option<Vec<Option<String>>> {
    Some(types.iter().map(|t| t.map(str::to_owned)).collect())
}

#[test]
fn queue_requests_pick_their_action() {
    assert_eq!(plan_queue_update(Some(true), "q1", "remove", None), Ok(QueueAction::Remove));
    assert_eq!(plan_queue_update(Some(true), "q1", "steer", None), Ok(QueueAction::Steer));
    assert_eq!(plan_queue_update(Some(true), "q1", "edit", blocks(&[Some("text"), Some("text")])), Ok(QueueAction::Edit));
    assert_eq!(plan_queue_update(Some(true), "q1", "edit", blocks(&[])), Ok(QueueAction::Edit));
}

#[test]
fn queue_requests_are_refused_in_order() {
    assert_eq!(
        plan_queue_update(None, "q9", "bogus", None),
        Err(QueueError::ItemNotFound { item_id: "q9".into() })
    );
    assert_eq!(
        plan_queue_update(Some(false), "q1", "remove", None),
        Err(QueueError::ReadOnly { item_id: "q1".into() })
    );
    assert_eq!(plan_queue_update(Some(true), "q1", "edit", None), Err(QueueError::EditNeedsContent));
    assert_eq!(
        plan_queue_update(Some(true), "q1", "edit", blocks(&[Some("text"), Some("image")])),
        Err(QueueError::NonTextEdit)
    );
    assert_eq!(plan_queue_update(Some(true), "q1", "edit", blocks(&[None])), Err(QueueError::NonTextEdit));
    assert_eq!(plan_queue_update(Some(true), "q1", "rename", None), Err(QueueError::UnsupportedAction));
}
