//! The tick engine: executing a built plan against a world and its
//! resources, and routing driver events.
//!
//! `dispatch` runs every system of the plan exactly once, in the plan's
//! order (stages flattened, then the thread-confined systems). Each system
//! either completes in full or reports an error having changed nothing, and
//! an error stops the dispatch at once: the returned state is exactly the
//! fold of the systems that completed, and the driver treats the error as
//! fatal.

use vstd::prelude::*;
use crate::types::{EngineError, InputEvent, KeyKind, PressState, SystemKind};
use crate::resources::{Resources, ResourcesView};
use crate::schedule::Dispatcher;
use crate::systems::{
    input_err, input_ready, input_step_res, input_step_world, movement_err, movement_ready,
    movement_step, rotation_err, rotation_ready, rotation_step, run_input_system,
    run_movement_scaled_system, run_movement_system, run_rotation_system, scaled_ready,
    scaled_step,
};
use crate::world::{World, WorldView};

verus! {

/// The whole state one tick acts on: the world and the resource store.
pub struct EngState {
    pub w: WorldView,
    pub r: ResourcesView,
}

/// Whether the system finds the state it needs to complete its tick.
pub open spec fn sys_ready(k: SystemKind, s: EngState) -> bool {
    match k {
        SystemKind::InputHandling => input_ready(s.w, s.r),
        SystemKind::UpdateRotation => rotation_ready(s.w, s.r),
        SystemKind::MovementRaw => movement_ready(s.w, s.r),
        SystemKind::MovementScaled => scaled_ready(s.w),
    }
}

/// The state after the system's tick.
pub open spec fn sys_step(k: SystemKind, s: EngState) -> EngState {
    match k {
        SystemKind::InputHandling => EngState {
            w: input_step_world(s.w, s.r),
            r: input_step_res(s.r),
        },
        SystemKind::UpdateRotation => EngState { w: rotation_step(s.w, s.r), r: s.r },
        SystemKind::MovementRaw => EngState { w: movement_step(s.w, s.r), r: s.r },
        SystemKind::MovementScaled => EngState { w: scaled_step(s.w), r: s.r },
    }
}

/// The error the system reports when it is not ready.
pub open spec fn sys_err(k: SystemKind, s: EngState) -> EngineError {
    match k {
        SystemKind::InputHandling => input_err(s.w, s.r),
        SystemKind::UpdateRotation => rotation_err(s.w, s.r),
        SystemKind::MovementRaw => movement_err(s.w, s.r),
        SystemKind::MovementScaled => EngineError::Overflow,
    }
}

/// The state after running the kinds left to right.
pub open spec fn run_seq(ks: Seq<SystemKind>, s: EngState) -> EngState
    decreases ks.len(),
{
    if ks.len() == 0 {
        s
    } else {
        sys_step(ks.last(), run_seq(ks.drop_last(), s))
    }
}

/// Whether every system along the sequence finds the state it needs when
/// its turn comes.
pub open spec fn all_ready(ks: Seq<SystemKind>, s: EngState) -> bool
    decreases ks.len(),
{
    if ks.len() == 0 {
        true
    } else {
        all_ready(ks.drop_last(), s) && sys_ready(ks.last(), run_seq(ks.drop_last(), s))
    }
}

/// A sequence that is ready throughout is ready at each of its prefixes.
pub proof fn lemma_all_ready_prefix(ks: Seq<SystemKind>, s: EngState, j: int)
    requires
        all_ready(ks, s),
        0 <= j <= ks.len(),
    ensures
        all_ready(ks.take(j), s),
        j < ks.len() ==> sys_ready(ks[j], run_seq(ks.take(j), s)),
    decreases ks.len(),
{
    if j == ks.len() {
        assert(ks.take(j) =~= ks);
    } else {
        assert(ks.drop_last() =~= ks.take(ks.len() - 1));
        if j < ks.len() - 1 {
            assert(ks.drop_last().take(j) =~= ks.take(j));
            lemma_all_ready_prefix(ks.drop_last(), s, j);
            assert(ks.drop_last()[j] == ks[j]);
        }
    }
}

/// Runs one system against the world and the resources.
pub fn run_system(k: SystemKind, w: &mut World, res: &mut Resources) -> (r: Result<
    (),
    EngineError,
>)
    requires
        old(w)@.wf(),
    ensures
        final(w)@.wf(),
        r is Ok <==> sys_ready(k, EngState { w: old(w)@, r: old(res)@ }),
        r is Ok ==> (EngState { w: final(w)@, r: final(res)@ }) == sys_step(
            k,
            EngState { w: old(w)@, r: old(res)@ },
        ),
        r is Err ==> final(w)@ == old(w)@ && final(res)@ == old(res)@,
        r is Err ==> r == Err::<(), EngineError>(
            sys_err(k, EngState { w: old(w)@, r: old(res)@ }),
        ),
{
    match k {
        SystemKind::InputHandling => run_input_system(w, res),
        SystemKind::UpdateRotation => run_rotation_system(w, res),
        SystemKind::MovementRaw => run_movement_system(w, res),
        SystemKind::MovementScaled => run_movement_scaled_system(w),
    }
}

impl Dispatcher {
    /// Runs every system of the plan exactly once, in the plan's order. On
    /// success the state is the fold of every system's step; on the first
    /// system that is not ready, dispatch stops with its error, leaving the
    /// state exactly as the completed prefix left it.
    pub fn dispatch(&self, w: &mut World, res: &mut Resources) -> (r: Result<(), EngineError>)
        requires
            self.wf(),
            old(w)@.wf(),
        ensures
            final(w)@.wf(),
            r is Ok <==> all_ready(
                self.run_list@,
                EngState { w: old(w)@, r: old(res)@ },
            ),
            r is Ok ==> (EngState { w: final(w)@, r: final(res)@ }) == run_seq(
                self.run_list@,
                EngState { w: old(w)@, r: old(res)@ },
            ),
            r is Err ==> exists|j: int|
                #![trigger self.run_list@.take(j)]
                {
                    let st0 = EngState { w: old(w)@, r: old(res)@ };
                    &&& 0 <= j < self.run_list@.len()
                    &&& all_ready(self.run_list@.take(j), st0)
                    &&& !sys_ready(self.run_list@[j], run_seq(self.run_list@.take(j), st0))
                    &&& (EngState { w: final(w)@, r: final(res)@ }) == run_seq(
                        self.run_list@.take(j),
                        st0,
                    )
                    &&& r == Err::<(), EngineError>(
                        sys_err(self.run_list@[j], run_seq(self.run_list@.take(j), st0)),
                    )
                },
    {
        let ghost st0 = EngState { w: old(w)@, r: old(res)@ };
        let n = self.run_list.len();
        let mut i: usize = 0;
        let mut failure: Option<EngineError> = None;
        let ghost mut fail_at: int = 0;
        while i < n && failure.is_none()
            invariant
                i <= n,
                n == self.run_list@.len(),
                w@.wf(),
                failure is None ==> all_ready(self.run_list@.take(i as int), st0) && (EngState {
                    w: w@,
                    r: res@,
                }) == run_seq(self.run_list@.take(i as int), st0),
                failure is Some ==> {
                    &&& 0 <= fail_at < n
                    &&& all_ready(self.run_list@.take(fail_at), st0)
                    &&& !sys_ready(
                        self.run_list@[fail_at],
                        run_seq(self.run_list@.take(fail_at), st0),
                    )
                    &&& (EngState { w: w@, r: res@ }) == run_seq(
                        self.run_list@.take(fail_at),
                        st0,
                    )
                    &&& failure == Some(
                        sys_err(
                            self.run_list@[fail_at],
                            run_seq(self.run_list@.take(fail_at), st0),
                        ),
                    )
                },
            decreases n - i,
        {
            let k = self.run_list[i];
            let ghost pre = EngState { w: w@, r: res@ };
            let step_result = run_system(k, w, res);
            proof {
                assert(self.run_list@.take(i + 1).drop_last() =~= self.run_list@.take(i as int));
                assert(self.run_list@.take(i + 1).last() == self.run_list@[i as int]);
            }
            match step_result {
                Ok(()) => {},
                Err(e) => {
                    proof {
                        fail_at = i as int;
                    }
                    failure = Some(e);
                },
            }
            i += 1;
        }
        match failure {
            Some(e) => {
                proof {
                    if all_ready(self.run_list@, st0) {
                        lemma_all_ready_prefix(self.run_list@, st0, fail_at);
                    }
                }
                Err(e)
            },
            None => {
                proof {
                    assert(self.run_list@.take(n as int) =~= self.run_list@);
                }
                Ok(())
            },
        }
    }
}

/// One event handed in by the driver's event source.
#[derive(Clone, Copy, Debug, PartialEq, Eq, Structural)]
pub enum EngineEvent {
    /// A key went down.
    Press(KeyKind),
    /// A key came up.
    Release(KeyKind),
    /// An update tick carrying its elapsed delta.
    Update(i64),
    /// A render tick carrying the viewport width and height.
    Render(i64, i64),
}

/// What the driver should do with an event once it is routed.
#[derive(Clone, Copy, Debug, PartialEq, Eq, Structural)]
pub enum DriverAction {
    /// Run the update dispatcher.
    DispatchUpdate,
    /// Run the render dispatcher.
    DispatchRender,
    /// Nothing to dispatch: the event was queued or recorded.
    DispatchNone,
}

/// Routes one driver event: key events append to the pending-input queue,
/// an update tick installs the delta and asks for an update dispatch, a
/// render tick installs the viewport and asks for a render dispatch.
pub fn route_event(res: &mut Resources, ev: EngineEvent) -> (r: Result<DriverAction, EngineError>)
    ensures
        ev matches EngineEvent::Press(k) ==> {
            &&& r is Ok <==> old(res)@.pending is Some
            &&& r is Ok ==> r == Ok::<DriverAction, EngineError>(DriverAction::DispatchNone)
                && final(res)@ == (ResourcesView {
                pending: Some(
                    old(res)@.pending.unwrap().push(
                        InputEvent { key: k, state: PressState::Pressed },
                    ),
                ),
                ..old(res)@
            })
            &&& r is Err ==> r == Err::<DriverAction, EngineError>(EngineError::MissingResource)
                && final(res)@ == old(res)@
        },
        ev matches EngineEvent::Release(k) ==> {
            &&& r is Ok <==> old(res)@.pending is Some
            &&& r is Ok ==> r == Ok::<DriverAction, EngineError>(DriverAction::DispatchNone)
                && final(res)@ == (ResourcesView {
                pending: Some(
                    old(res)@.pending.unwrap().push(
                        InputEvent { key: k, state: PressState::Released },
                    ),
                ),
                ..old(res)@
            })
            &&& r is Err ==> r == Err::<DriverAction, EngineError>(EngineError::MissingResource)
                && final(res)@ == old(res)@
        },
        ev matches EngineEvent::Update(d) ==> r == Ok::<DriverAction, EngineError>(
            DriverAction::DispatchUpdate,
        ) && final(res)@ == (ResourcesView { delta: Some(d), ..old(res)@ }),
        ev matches EngineEvent::Render(vw, vh) ==> r == Ok::<DriverAction, EngineError>(
            DriverAction::DispatchRender,
        ) && final(res)@ == (ResourcesView { viewport: Some((vw, vh)), ..old(res)@ }),
{
    match ev {
        EngineEvent::Press(k) => {
            match res.push_pending(InputEvent { key: k, state: PressState::Pressed }) {
                Ok(()) => Ok(DriverAction::DispatchNone),
                Err(e) => Err(e),
            }
        },
        EngineEvent::Release(k) => {
            match res.push_pending(InputEvent { key: k, state: PressState::Released }) {
                Ok(()) => Ok(DriverAction::DispatchNone),
                Err(e) => Err(e),
            }
        },
        EngineEvent::Update(d) => {
            res.set_delta(d);
            Ok(DriverAction::DispatchUpdate)
        },
        EngineEvent::Render(vw, vh) => {
            res.set_viewport(vw, vh);
            Ok(DriverAction::DispatchRender)
        },
    }
}

} // verus!
