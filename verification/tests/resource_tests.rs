use tick_engine::resources::Resources;
use tick_engine::types::{EngineError, InputEvent, KeyKind, PressState};

#[test]
fn reading_an_unset_resource_fails_loudly() {
    let res = Resources::new();
    assert_eq!(res.delta(), Err(EngineError::MissingResource));
    assert_eq!(res.viewport(), Err(EngineError::MissingResource));
    assert!(res.pending_events().is_err());
}

#[test]
fn setting_a_resource_replaces_the_previous_value() {
    let mut res = Resources::new();
    res.set_delta(16);
    assert_eq!(res.delta(), Ok(16));
    res.set_delta(1000);
    assert_eq!(res.delta(), Ok(1000));
    res.set_viewport(800, 600);
    res.set_viewport(1024, 768);
    assert_eq!(res.viewport(), Ok((1024, 768)));
}

#[test]
fn pending_queue_appends_in_order_after_init() {
    let mut res = Resources::new();
    let left = InputEvent { key: KeyKind::LeftArrow, state: PressState::Pressed };
    let other = InputEvent { key: KeyKind::Other, state: PressState::Released };
    assert_eq!(res.push_pending(left), Err(EngineError::MissingResource));
    res.init_pending();
    res.push_pending(left).unwrap();
    res.push_pending(other).unwrap();
    assert_eq!(res.pending_events().unwrap(), vec![left, other]);
    // Reinstalling the queue drains it.
    res.init_pending();
    assert_eq!(res.pending_events().unwrap(), vec![]);
}
