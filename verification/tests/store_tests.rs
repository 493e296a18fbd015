use tick_engine::types::{ComponentKind, EngineError, Vec2};
use tick_engine::world::World;

#[test]
fn create_entity_hands_out_fresh_ids() {
    let mut w = World::new();
    let a = w.create_entity().unwrap();
    let b = w.create_entity().unwrap();
    assert_eq!(a, 0);
    assert_eq!(b, 1);
    assert_ne!(a, b);
}

#[test]
fn attach_before_register_fails_fast() {
    let mut w = World::new();
    let e = w.create_entity().unwrap();
    let r = w.attach_position(e, Vec2 { x: 1, y: 2 });
    assert_eq!(r, Err(EngineError::NotRegistered));
}

#[test]
fn attach_to_unknown_entity_fails() {
    let mut w = World::new();
    w.register(ComponentKind::Position);
    let r = w.attach_position(7, Vec2 { x: 1, y: 2 });
    assert_eq!(r, Err(EngineError::NoSuchEntity));
}

#[test]
fn attach_then_get_returns_the_value() {
    let mut w = World::new();
    w.register(ComponentKind::Position);
    let e = w.create_entity().unwrap();
    w.attach_position(e, Vec2 { x: 4000, y: 7000 }).unwrap();
    assert_eq!(w.get_position(e), Ok(Some(Vec2 { x: 4000, y: 7000 })));
}

#[test]
fn attach_replaces_an_earlier_value() {
    let mut w = World::new();
    w.register(ComponentKind::Rotation);
    let e = w.create_entity().unwrap();
    w.attach_rotation(e, 10).unwrap();
    w.attach_rotation(e, 20).unwrap();
    assert_eq!(w.get_rotation(e), Ok(Some(20)));
    assert_eq!(w.get_all_rotations().unwrap().len(), 1);
}

#[test]
fn get_before_register_fails_fast() {
    let w = World::new();
    assert_eq!(w.get_position(0), Err(EngineError::NotRegistered));
    assert_eq!(w.get_all_positions(), Err(EngineError::NotRegistered));
}

#[test]
fn get_all_keeps_insertion_order() {
    let mut w = World::new();
    w.register(ComponentKind::Rotation);
    let a = w.create_entity().unwrap();
    let b = w.create_entity().unwrap();
    w.attach_rotation(b, 2).unwrap();
    w.attach_rotation(a, 1).unwrap();
    let all = w.get_all_rotations().unwrap();
    assert_eq!(all, vec![(b, 2), (a, 1)]);
}

#[test]
fn join_yields_only_entities_in_both_containers() {
    let mut w = World::new();
    w.register(ComponentKind::Position);
    w.register(ComponentKind::Velocity);
    let both = w.create_entity().unwrap();
    let pos_only = w.create_entity().unwrap();
    w.attach_position(both, Vec2 { x: 1, y: 1 }).unwrap();
    w.attach_position(pos_only, Vec2 { x: 9, y: 9 }).unwrap();
    w.attach_velocity(both, Vec2 { x: 2, y: 2 }).unwrap();
    let joined = w.join_position_velocity().unwrap();
    assert_eq!(joined, vec![(both, Vec2 { x: 1, y: 1 }, Vec2 { x: 2, y: 2 })]);
}

#[test]
fn join_before_register_fails_fast() {
    let mut w = World::new();
    w.register(ComponentKind::Position);
    assert_eq!(w.join_position_velocity(), Err(EngineError::NotRegistered));
    assert_eq!(
        w.join_rotational_velocity_rotation(),
        Err(EngineError::NotRegistered)
    );
}
