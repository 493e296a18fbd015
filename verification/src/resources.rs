//! The resource store: at most one process-wide value per resource type.
//!
//! Writing a resource replaces the stored value, overwriting any unread
//! previous one; reading a resource that was never set fails loudly with
//! `MissingResource` rather than inventing a default. The three resources
//! the tick drivers use: the elapsed delta of the current update tick, the
//! queue of pending input events, and the viewport carried by the latest
//! render tick.

use vstd::prelude::*;
use crate::types::{EngineError, InputEvent, KeyKind, PressState};

verus! {

/// The mathematical value of a `Resources`: each slot either never set
/// (`None`) or holding its current value.
pub struct ResourcesView {
    pub delta: Option<i64>,
    pub pending: Option<Seq<InputEvent>>,
    pub viewport: Option<(i64, i64)>,
}

/// The resource store.
pub struct Resources {
    pub delta: Option<i64>,
    pub pending: Option<Vec<InputEvent>>,
    pub viewport: Option<(i64, i64)>,
}

impl View for Resources {
    type V = ResourcesView;

    open spec fn view(&self) -> ResourcesView {
        ResourcesView {
            delta: self.delta,
            pending: match self.pending {
                Some(ref v) => Some(v@),
                None => None,
            },
            viewport: self.viewport,
        }
    }
}

impl Resources {
    /// An empty store: no resource has ever been set.
    pub fn new() -> (r: Resources)
        ensures
            r@.delta is None,
            r@.pending is None,
            r@.viewport is None,
    {
        Resources { delta: None, pending: None, viewport: None }
    }

    /// Replaces the delta-time resource (the update tick's elapsed time).
    pub fn set_delta(&mut self, d: i64)
        ensures
            final(self)@ == (ResourcesView { delta: Some(d), ..old(self)@ }),
    {
        self.delta = Some(d);
    }

    /// The current delta-time resource; never set is an error.
    pub fn delta(&self) -> (r: Result<i64, EngineError>)
        ensures
            r is Err <==> self@.delta is None,
            r is Err ==> r == Err::<i64, EngineError>(EngineError::MissingResource),
            self@.delta is Some ==> r == Ok::<i64, EngineError>(self@.delta.unwrap()),
    {
        match self.delta {
            Some(d) => Ok(d),
            None => Err(EngineError::MissingResource),
        }
    }

    /// Installs an empty pending-input queue, replacing any earlier queue.
    pub fn init_pending(&mut self)
        ensures
            final(self)@.pending == Some(Seq::<InputEvent>::empty()),
            final(self)@.delta == old(self)@.delta,
            final(self)@.viewport == old(self)@.viewport,
    {
        let q: Vec<InputEvent> = Vec::new();
        proof {
            assert(q@ =~= Seq::<InputEvent>::empty());
        }
        self.pending = Some(q);
    }

    /// Appends one event to the pending-input queue; a queue that was never
    /// installed is an error.
    pub fn push_pending(&mut self, ev: InputEvent) -> (r: Result<(), EngineError>)
        ensures
            r is Err <==> old(self)@.pending is None,
            r is Err ==> r == Err::<(), EngineError>(EngineError::MissingResource) && final(self)@
                == old(self)@,
            r is Ok ==> final(self)@ == (ResourcesView {
                pending: Some(old(self)@.pending.unwrap().push(ev)),
                ..old(self)@
            }),
    {
        match self.pending {
            Some(ref mut q) => {
                q.push(ev);
                Ok(())
            },
            None => Err(EngineError::MissingResource),
        }
    }

    /// A copy of the pending-input queue; never installed is an error.
    pub fn pending_events(&self) -> (r: Result<Vec<InputEvent>, EngineError>)
        ensures
            r is Err <==> self@.pending is None,
            r is Err ==> r == Err::<Vec<InputEvent>, EngineError>(EngineError::MissingResource),
            r is Ok ==> r.unwrap()@ == self@.pending.unwrap(),
    {
        match self.pending {
            Some(ref q) => {
                let mut out: Vec<InputEvent> = Vec::new();
                let mut i: usize = 0;
                while i < q.len()
                    invariant
                        i <= q@.len(),
                        out@ == q@.take(i as int),
                    decreases q@.len() - i,
                {
                    out.push(q[i]);
                    proof {
                        assert(out@ =~= q@.take(i + 1));
                    }
                    i += 1;
                }
                proof {
                    assert(q@.take(q@.len() as int) =~= q@);
                }
                Ok(out)
            },
            None => Err(EngineError::MissingResource),
        }
    }

    /// Replaces the viewport resource (the render tick's width and height).
    pub fn set_viewport(&mut self, width: i64, height: i64)
        ensures
            final(self)@ == (ResourcesView { viewport: Some((width, height)), ..old(self)@ }),
    {
        self.viewport = Some((width, height));
    }

    /// The current viewport resource; never set is an error.
    pub fn viewport(&self) -> (r: Result<(i64, i64), EngineError>)
        ensures
            r is Err <==> self@.viewport is None,
            r is Err ==> r == Err::<(i64, i64), EngineError>(EngineError::MissingResource),
            self@.viewport is Some ==> r == Ok::<(i64, i64), EngineError>(self@.viewport.unwrap()),
    {
        match self.viewport {
            Some(v) => Ok(v),
            None => Err(EngineError::MissingResource),
        }
    }
}

/// Whether one pending event flips the rotational-velocity sign: an arrow-key
/// press does, anything else (other keys, releases) does not.
pub open spec fn flips_sign(ev: InputEvent) -> bool {
    ev.state == PressState::Pressed && (ev.key == KeyKind::LeftArrow || ev.key
        == KeyKind::RightArrow)
}

/// How many events of a batch flip the sign.
pub open spec fn flip_count(evs: Seq<InputEvent>) -> nat
    decreases evs.len(),
{
    if evs.len() == 0 {
        0
    } else {
        (if flips_sign(evs.last()) {
            1nat
        } else {
            0nat
        }) + flip_count(evs.drop_last())
    }
}

} // verus!
