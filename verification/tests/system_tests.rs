use tick_engine::resources::Resources;
use tick_engine::systems::{
    run_input_system, run_movement_scaled_system, run_movement_system, run_rotation_system,
};
use tick_engine::types::{ComponentKind, EngineError, KeyKind, Vec2, TWO_PI_MILLI};
use tick_engine::engine::{route_event, EngineEvent};
use tick_engine::world::World;

fn world_with_player(rotation: i64, rot_vel: i64) -> (World, u64) {
    let mut w = World::new();
    w.register(ComponentKind::Rotation);
    w.register(ComponentKind::RotationalVelocity);
    w.register(ComponentKind::Player);
    let e = w.create_entity().unwrap();
    w.attach_rotation(e, rotation).unwrap();
    w.attach_rotational_velocity(e, rot_vel).unwrap();
    w.attach_player(e).unwrap();
    (w, e)
}

#[test]
fn rotation_integrates_velocity_times_delta() {
    let (mut w, e) = world_with_player(0, 2000);
    let mut res = Resources::new();
    res.set_delta(1);
    run_rotation_system(&mut w, &res).unwrap();
    assert_eq!(w.get_rotation(e), Ok(Some(2000)));
}

#[test]
fn rotation_past_two_pi_wraps_to_exactly_zero() {
    let (mut w, e) = world_with_player(6000, 1000);
    let mut res = Resources::new();
    res.set_delta(1);
    run_rotation_system(&mut w, &res).unwrap();
    assert_eq!(w.get_rotation(e), Ok(Some(0)));
}

#[test]
fn rotation_below_negative_two_pi_wraps_to_exactly_zero() {
    let (mut w, e) = world_with_player(-6000, -1000);
    let mut res = Resources::new();
    res.set_delta(1);
    run_rotation_system(&mut w, &res).unwrap();
    assert_eq!(w.get_rotation(e), Ok(Some(0)));
}

#[test]
fn rotation_landing_exactly_on_the_bound_is_kept() {
    let (mut w, e) = world_with_player(TWO_PI_MILLI - 1, 1);
    let mut res = Resources::new();
    res.set_delta(1);
    run_rotation_system(&mut w, &res).unwrap();
    assert_eq!(w.get_rotation(e), Ok(Some(TWO_PI_MILLI)));
}

#[test]
fn rotation_without_delta_resource_errors() {
    let (mut w, _e) = world_with_player(0, 2000);
    let mut res = Resources::new();
    res.init_pending();
    assert_eq!(
        run_rotation_system(&mut w, &res),
        Err(EngineError::MissingResource)
    );
}

#[test]
fn rotation_overflow_is_reported_not_wrapped() {
    let (mut w, e) = world_with_player(1, i64::MAX);
    let mut res = Resources::new();
    res.set_delta(2);
    assert_eq!(run_rotation_system(&mut w, &res), Err(EngineError::Overflow));
    // Nothing changed.
    assert_eq!(w.get_rotation(e), Ok(Some(1)));
}

fn world_with_moving_entity(px: i64, py: i64, vx: i64, vy: i64) -> (World, u64) {
    let mut w = World::new();
    w.register(ComponentKind::Position);
    w.register(ComponentKind::Velocity);
    let e = w.create_entity().unwrap();
    w.attach_position(e, Vec2 { x: px, y: py }).unwrap();
    w.attach_velocity(e, Vec2 { x: vx, y: vy }).unwrap();
    (w, e)
}

#[test]
fn movement_raw_fixture_one_second_tick() {
    // Position (4.0, 7.0), velocity (0.5, 0.5), delta 1000 (raw rule):
    // the position becomes (504.0, 507.0), in thousandths of a unit.
    let (mut w, e) = world_with_moving_entity(4000, 7000, 500, 500);
    let mut res = Resources::new();
    res.set_delta(1000);
    run_movement_system(&mut w, &res).unwrap();
    assert_eq!(w.get_position(e), Ok(Some(Vec2 { x: 504000, y: 507000 })));
}

#[test]
fn movement_scaled_fixture_one_tick() {
    // Position (4.0, 7.0), velocity (0.5, 0.5), fixed one-twentieth scale:
    // the position becomes (4.025, 7.025), in thousandths of a unit.
    let (mut w, e) = world_with_moving_entity(4000, 7000, 500, 500);
    run_movement_scaled_system(&mut w).unwrap();
    assert_eq!(w.get_position(e), Ok(Some(Vec2 { x: 4025, y: 7025 })));
}

#[test]
fn movement_updates_every_entity_componentwise() {
    let mut w = World::new();
    w.register(ComponentKind::Position);
    w.register(ComponentKind::Velocity);
    let a = w.create_entity().unwrap();
    let b = w.create_entity().unwrap();
    let still = w.create_entity().unwrap();
    w.attach_position(a, Vec2 { x: 10, y: 20 }).unwrap();
    w.attach_position(b, Vec2 { x: -5, y: 5 }).unwrap();
    w.attach_position(still, Vec2 { x: 1, y: 1 }).unwrap();
    w.attach_velocity(a, Vec2 { x: 3, y: -4 }).unwrap();
    w.attach_velocity(b, Vec2 { x: 0, y: 7 }).unwrap();
    let mut res = Resources::new();
    res.set_delta(2);
    run_movement_system(&mut w, &res).unwrap();
    assert_eq!(w.get_position(a), Ok(Some(Vec2 { x: 16, y: 12 })));
    assert_eq!(w.get_position(b), Ok(Some(Vec2 { x: -5, y: 19 })));
    // An entity without a velocity keeps its position.
    assert_eq!(w.get_position(still), Ok(Some(Vec2 { x: 1, y: 1 })));
}

#[test]
fn left_press_negates_rotational_velocity_and_drains_queue() {
    let (mut w, e) = world_with_player(0, 2000);
    let mut res = Resources::new();
    res.init_pending();
    route_event(&mut res, EngineEvent::Press(KeyKind::LeftArrow)).unwrap();
    run_input_system(&mut w, &mut res).unwrap();
    assert_eq!(w.get_rotational_velocity(e), Ok(Some(-2000)));
    assert_eq!(res.pending_events().unwrap().len(), 0);
}

#[test]
fn left_then_right_press_cancel_out() {
    let (mut w, e) = world_with_player(0, 2000);
    let mut res = Resources::new();
    res.init_pending();
    route_event(&mut res, EngineEvent::Press(KeyKind::LeftArrow)).unwrap();
    run_input_system(&mut w, &mut res).unwrap();
    assert_eq!(w.get_rotational_velocity(e), Ok(Some(-2000)));
    route_event(&mut res, EngineEvent::Press(KeyKind::RightArrow)).unwrap();
    run_input_system(&mut w, &mut res).unwrap();
    assert_eq!(w.get_rotational_velocity(e), Ok(Some(2000)));
    assert_eq!(res.pending_events().unwrap().len(), 0);
}

#[test]
fn releases_and_other_keys_do_not_flip_but_are_drained() {
    let (mut w, e) = world_with_player(0, 2000);
    let mut res = Resources::new();
    res.init_pending();
    route_event(&mut res, EngineEvent::Release(KeyKind::LeftArrow)).unwrap();
    route_event(&mut res, EngineEvent::Press(KeyKind::Other)).unwrap();
    run_input_system(&mut w, &mut res).unwrap();
    assert_eq!(w.get_rotational_velocity(e), Ok(Some(2000)));
    assert_eq!(res.pending_events().unwrap().len(), 0);
}

#[test]
fn input_without_any_player_reports_no_match() {
    let mut w = World::new();
    w.register(ComponentKind::RotationalVelocity);
    w.register(ComponentKind::Player);
    let mut res = Resources::new();
    res.init_pending();
    assert_eq!(
        run_input_system(&mut w, &mut res),
        Err(EngineError::NoMatch)
    );
}

#[test]
fn input_without_pending_queue_reports_missing_resource() {
    let (mut w, _e) = world_with_player(0, 2000);
    let mut res = Resources::new();
    assert_eq!(
        run_input_system(&mut w, &mut res),
        Err(EngineError::MissingResource)
    );
}
