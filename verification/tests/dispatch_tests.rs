use tick_engine::resources::Resources;
use tick_engine::schedule::DispatcherBuilder;
use tick_engine::types::{ComponentKind, EngineError, KeyKind, SystemKind, Vec2};
use tick_engine::engine::{route_event, DriverAction, EngineEvent};
use tick_engine::world::World;

#[test]
fn build_rejects_a_two_cycle() {
    let mut b = DispatcherBuilder::new();
    b.add(SystemKind::InputHandling, vec![1]);
    b.add(SystemKind::UpdateRotation, vec![0]);
    assert!(matches!(b.build(), Err(EngineError::CyclicGraph)));
}

#[test]
fn build_rejects_a_self_cycle() {
    let mut b = DispatcherBuilder::new();
    b.add(SystemKind::MovementRaw, vec![0]);
    assert!(matches!(b.build(), Err(EngineError::CyclicGraph)));
}

#[test]
fn build_rejects_an_unknown_dependency() {
    let mut b = DispatcherBuilder::new();
    b.add(SystemKind::MovementRaw, vec![5]);
    assert!(matches!(b.build(), Err(EngineError::UnknownDependency)));
}

#[test]
fn build_orders_an_explicit_edge_across_stages() {
    let mut b = DispatcherBuilder::new();
    let first = b.add(SystemKind::InputHandling, vec![]);
    let second = b.add(SystemKind::UpdateRotation, vec![first]);
    let d = b.build().unwrap();
    assert_eq!(d.order, vec![first, second]);
    assert_eq!(d.stages, vec![vec![first], vec![second]]);
}

#[test]
fn conflicting_writers_are_forced_into_distinct_stages() {
    // Two rotation systems both write the rotation container: even without
    // an edge, the plan must serialize them.
    let mut b = DispatcherBuilder::new();
    b.add(SystemKind::UpdateRotation, vec![]);
    b.add(SystemKind::UpdateRotation, vec![]);
    let d = b.build().unwrap();
    assert_eq!(d.stages, vec![vec![0], vec![1]]);
}

#[test]
fn non_conflicting_systems_share_a_stage() {
    // Rotation and raw movement both only read the delta resource and
    // write disjoint containers: one stage holds both.
    let mut b = DispatcherBuilder::new();
    b.add(SystemKind::UpdateRotation, vec![]);
    b.add(SystemKind::MovementRaw, vec![]);
    let d = b.build().unwrap();
    assert_eq!(d.stages, vec![vec![0, 1]]);
}

#[test]
fn thread_local_systems_run_after_every_staged_system() {
    let mut b = DispatcherBuilder::new();
    b.add_thread_local(SystemKind::UpdateRotation);
    b.add(SystemKind::MovementRaw, vec![]);
    let d = b.build().unwrap();
    assert_eq!(
        d.run_list,
        vec![SystemKind::MovementRaw, SystemKind::UpdateRotation]
    );
}

fn spinning_world() -> (World, u64) {
    let mut w = World::new();
    w.register(ComponentKind::Rotation);
    w.register(ComponentKind::RotationalVelocity);
    w.register(ComponentKind::Player);
    let e = w.create_entity().unwrap();
    w.attach_rotation(e, 0).unwrap();
    w.attach_rotational_velocity(e, 2000).unwrap();
    w.attach_player(e).unwrap();
    (w, e)
}

#[test]
fn update_tick_routes_input_then_integrates_rotation() {
    let (mut w, e) = spinning_world();
    let mut res = Resources::new();
    res.init_pending();

    let mut b = DispatcherBuilder::new();
    let input = b.add(SystemKind::InputHandling, vec![]);
    b.add(SystemKind::UpdateRotation, vec![input]);
    let update = b.build().unwrap();

    // A left-arrow press, then an update tick of one delta unit.
    assert_eq!(
        route_event(&mut res, EngineEvent::Press(KeyKind::LeftArrow)),
        Ok(DriverAction::DispatchNone)
    );
    assert_eq!(
        route_event(&mut res, EngineEvent::Update(1)),
        Ok(DriverAction::DispatchUpdate)
    );
    update.dispatch(&mut w, &mut res).unwrap();

    // The press negated the rotational velocity before integration.
    assert_eq!(w.get_rotational_velocity(e), Ok(Some(-2000)));
    assert_eq!(w.get_rotation(e), Ok(Some(-2000)));
    assert_eq!(res.pending_events().unwrap().len(), 0);

    // A second tick with no pending presses keeps spinning the same way.
    assert_eq!(
        route_event(&mut res, EngineEvent::Update(1)),
        Ok(DriverAction::DispatchUpdate)
    );
    update.dispatch(&mut w, &mut res).unwrap();
    assert_eq!(w.get_rotation(e), Ok(Some(-4000)));
}

#[test]
fn dispatch_stops_on_the_first_missing_resource() {
    let (mut w, e) = spinning_world();
    let mut res = Resources::new();
    // No pending queue was ever installed: the input system cannot run.
    res.set_delta(1);

    let mut b = DispatcherBuilder::new();
    let input = b.add(SystemKind::InputHandling, vec![]);
    b.add(SystemKind::UpdateRotation, vec![input]);
    let update = b.build().unwrap();

    assert_eq!(
        update.dispatch(&mut w, &mut res),
        Err(EngineError::MissingResource)
    );
    // The failed tick left the world untouched.
    assert_eq!(w.get_rotation(e), Ok(Some(0)));
}

#[test]
fn render_event_installs_the_viewport() {
    let mut res = Resources::new();
    assert_eq!(res.viewport(), Err(EngineError::MissingResource));
    assert_eq!(
        route_event(&mut res, EngineEvent::Render(800, 600)),
        Ok(DriverAction::DispatchRender)
    );
    assert_eq!(res.viewport(), Ok((800, 600)));
}

#[test]
fn press_event_without_queue_is_a_missing_resource() {
    let mut res = Resources::new();
    assert_eq!(
        route_event(&mut res, EngineEvent::Press(KeyKind::LeftArrow)),
        Err(EngineError::MissingResource)
    );
}

#[test]
fn movement_dispatch_moves_a_population() {
    let mut w = World::new();
    w.register(ComponentKind::Position);
    w.register(ComponentKind::Velocity);
    let a = w.create_entity().unwrap();
    let b = w.create_entity().unwrap();
    w.attach_position(a, Vec2 { x: 4000, y: 7000 }).unwrap();
    w.attach_velocity(a, Vec2 { x: 500, y: 500 }).unwrap();
    w.attach_position(b, Vec2 { x: 0, y: 0 }).unwrap();
    w.attach_velocity(b, Vec2 { x: -100, y: 250 }).unwrap();
    let mut res = Resources::new();
    res.set_delta(1000);

    let mut builder = DispatcherBuilder::new();
    builder.add(SystemKind::MovementRaw, vec![]);
    let plan = builder.build().unwrap();
    plan.dispatch(&mut w, &mut res).unwrap();

    assert_eq!(w.get_position(a), Ok(Some(Vec2 { x: 504000, y: 507000 })));
    assert_eq!(w.get_position(b), Ok(Some(Vec2 { x: -100000, y: 250000 })));
}
