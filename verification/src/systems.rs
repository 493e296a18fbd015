//! The per-tick systems.
//!
//! Each system is a function from the world and the resource store to their
//! next values, with an exact contract: the input-handling system drains the
//! pending-event queue and flips the first player entity's rotational
//! velocity once per handled arrow-key press; the rotation system integrates
//! `rotation += rotational_velocity * delta` with the wrap-to-zero rule; the
//! two movement systems integrate `position += velocity * delta` (raw rule)
//! or `position += velocity / 20` (fixed one-twentieth scale rule).
//!
//! A system either completes its tick in full or reports an error having
//! changed nothing; the driver treats every error as fatal.

use vstd::prelude::*;
use crate::types::{EngineError, InputEvent, KeyKind, PressState, Vec2, TWO_PI_MILLI};
use crate::resources::{flip_count, flips_sign, Resources, ResourcesView};
use crate::world::{
    keys_below, lookup, lookup_vec, unique_keys, upsert, upsert_vec, World, WorldView,
};

verus! {

/// Whether a mathematical integer is representable as an `i64`.
pub open spec fn fits_i64(x: int) -> bool {
    i64::MIN <= x <= i64::MAX
}

/// The wrap rule: a rotation driven past one full turn in either direction
/// resets to exactly zero (not a modulo); otherwise it stands.
pub open spec fn wrap_rotation(x: int) -> int {
    if x > TWO_PI_MILLI || x < -TWO_PI_MILLI {
        0
    } else {
        x
    }
}

/// Driving a rotation past a full turn in either direction lands exactly on
/// zero; a value within one turn is kept as integrated.
pub proof fn lemma_rotation_wraps_to_zero(rot: int, v: int, d: int)
    ensures
        rot + v * d > TWO_PI_MILLI ==> wrap_rotation(rot + v * d) == 0,
        rot + v * d < -TWO_PI_MILLI ==> wrap_rotation(rot + v * d) == 0,
        -TWO_PI_MILLI <= rot + v * d <= TWO_PI_MILLI ==> wrap_rotation(rot + v * d) == rot + v * d,
{
}

/// The sign of a rotational velocity after one batch of pending events is
/// consumed: negated once per sign-flipping press.
pub open spec fn net_velocity(v: int, evs: Seq<InputEvent>) -> int {
    if flip_count(evs) % 2 == 1 {
        -v
    } else {
        v
    }
}

/// A left-arrow press negates the tracked rotational velocity and a
/// right-arrow press negates it again: two batches that each hold an odd
/// number of handled presses cancel, restoring the original sign.
pub proof fn lemma_opposite_presses_cancel(
    v: int,
    first_batch: Seq<InputEvent>,
    second_batch: Seq<InputEvent>,
)
    requires
        flip_count(first_batch) % 2 == 1,
        flip_count(second_batch) % 2 == 1,
    ensures
        net_velocity(net_velocity(v, first_batch), second_batch) == v,
{
}

/// The first entity, in player insertion order, that is a player and holds
/// a rotational velocity.
pub open spec fn first_player(players: Seq<u64>, rvs: Seq<(u64, i64)>) -> Option<u64>
    decreases players.len(),
{
    if players.len() == 0 {
        None
    } else if lookup(rvs, players[0]) is Some {
        Some(players[0])
    } else {
        first_player(players.drop_first(), rvs)
    }
}

pub proof fn lemma_first_player_at(players: Seq<u64>, rvs: Seq<(u64, i64)>, i: int)
    requires
        0 <= i < players.len(),
        lookup(rvs, players[i]) is Some,
        forall|j: int| 0 <= j < i ==> lookup(rvs, players[j]) is None,
    ensures
        first_player(players, rvs) == Some(players[i]),
    decreases i,
{
    if i > 0 {
        lemma_first_player_at(players.drop_first(), rvs, i - 1);
    }
}

pub proof fn lemma_first_player_absent(players: Seq<u64>, rvs: Seq<(u64, i64)>)
    requires
        forall|j: int| 0 <= j < players.len() ==> lookup(rvs, players[j]) is None,
    ensures
        first_player(players, rvs) is None,
    decreases players.len(),
{
    if players.len() > 0 {
        lemma_first_player_absent(players.drop_first(), rvs);
    }
}

// ---------------------------------------------------------------------------
// Input handling
// ---------------------------------------------------------------------------

/// When the input-handling system completes: the pending queue exists, some
/// player entity holds a rotational velocity, and a net sign flip would not
/// fall outside the fixed-point range.
pub open spec fn input_ready(w: WorldView, r: ResourcesView) -> bool {
    &&& r.pending is Some
    &&& first_player(w.players, w.rot_vels) is Some
    &&& (flip_count(r.pending.unwrap()) % 2 == 1 ==> lookup(
        w.rot_vels,
        first_player(w.players, w.rot_vels).unwrap(),
    ).unwrap() != i64::MIN)
}

/// The world after the input-handling system: the first player entity's
/// rotational velocity carries its net sign.
pub open spec fn input_step_world(w: WorldView, r: ResourcesView) -> WorldView {
    let e = first_player(w.players, w.rot_vels).unwrap();
    let v = lookup(w.rot_vels, e).unwrap();
    WorldView {
        rot_vels: upsert(w.rot_vels, e, net_velocity(v as int, r.pending.unwrap()) as i64),
        ..w
    }
}

/// The resources after the input-handling system: the pending queue is
/// drained unconditionally, whether or not any event matched a handled key.
pub open spec fn input_step_res(r: ResourcesView) -> ResourcesView {
    ResourcesView { pending: Some(Seq::<InputEvent>::empty()), ..r }
}

/// The error the input-handling system reports when it is not ready.
pub open spec fn input_err(w: WorldView, r: ResourcesView) -> EngineError {
    if r.pending is None {
        EngineError::MissingResource
    } else if first_player(w.players, w.rot_vels) is None {
        EngineError::NoMatch
    } else {
        EngineError::Overflow
    }
}

/// Drains the pending input events and flips the sign of the first player
/// entity's rotational velocity once per handled arrow-key press. Expects at
/// least one player entity with a rotational velocity; reports `NoMatch`
/// (rather than crashing opaquely) when there is none.
pub fn run_input_system(w: &mut World, res: &mut Resources) -> (r: Result<(), EngineError>)
    requires
        old(w)@.wf(),
    ensures
        final(w)@.wf(),
        r is Ok <==> input_ready(old(w)@, old(res)@),
        r is Ok ==> final(w)@ == input_step_world(old(w)@, old(res)@),
        r is Ok ==> final(res)@ == input_step_res(old(res)@),
        r is Err ==> final(w)@ == old(w)@ && final(res)@ == old(res)@,
        r is Err ==> r == Err::<(), EngineError>(input_err(old(w)@, old(res)@)),
{
    let evs = match res.pending_events() {
        Ok(v) => v,
        Err(er) => {
            return Err(er);
        },
    };
    // Net parity of the sign flips in the batch.
    let mut odd: bool = false;
    let mut i: usize = 0;
    while i < evs.len()
        invariant
            i <= evs@.len(),
            odd == (flip_count(evs@.take(i as int)) % 2 == 1),
        decreases evs@.len() - i,
    {
        let ev = evs[i];
        let f = match ev.state {
            PressState::Pressed => match ev.key {
                KeyKind::LeftArrow => true,
                KeyKind::RightArrow => true,
                KeyKind::Other => false,
            },
            PressState::Released => false,
        };
        proof {
            assert(f == flips_sign(evs@[i as int]));
            assert(evs@.take(i + 1).drop_last() =~= evs@.take(i as int));
            assert(evs@.take(i + 1).last() == evs@[i as int]);
        }
        if f {
            odd = !odd;
        }
        i += 1;
    }
    proof {
        assert(evs@.take(evs@.len() as int) =~= evs@);
    }
    // First player entity holding a rotational velocity, in insertion order.
    let mut sel_e: u64 = 0;
    let mut sel_v: i64 = 0;
    let mut found: bool = false;
    let mut pi: usize = 0;
    while pi < w.players.len() && !found
        invariant
            pi <= w.players@.len(),
            !found ==> forall|j: int| 0 <= j < pi ==> lookup(w.rot_vels@, w.players@[j]) is None,
            found ==> 1 <= pi <= w.players@.len() && w.players@[pi - 1] == sel_e && lookup(
                w.rot_vels@,
                sel_e,
            ) == Some(sel_v) && forall|j: int| 0 <= j < pi - 1 ==> lookup(
                w.rot_vels@,
                w.players@[j],
            ) is None,
        decreases w.players@.len() - pi,
    {
        let e = w.players[pi];
        match lookup_vec(&w.rot_vels, e) {
            Some(v) => {
                sel_e = e;
                sel_v = v;
                found = true;
            },
            None => {},
        }
        pi += 1;
    }
    if !found {
        proof {
            lemma_first_player_absent(w.players@, w.rot_vels@);
        }
        return Err(EngineError::NoMatch);
    }
    proof {
        lemma_first_player_at(w.players@, w.rot_vels@, pi - 1 as int);
    }
    if odd && sel_v == i64::MIN {
        return Err(EngineError::Overflow);
    }
    let nv: i64 = if odd {
        0 - sel_v
    } else {
        sel_v
    };
    let ghost w0 = w@;
    upsert_vec(&mut w.rot_vels, sel_e, nv);
    res.init_pending();
    proof {
        assert(w@ == input_step_world(w0, old(res)@));
        assert(res@.delta == old(res)@.delta);
        assert(res@.viewport == old(res)@.viewport);
        assert(res@ == input_step_res(old(res)@));
        assert(w0.players[pi - 1 as int] == sel_e && sel_e < w0.next_id);
        crate::world::lemma_upsert_wf(w0.rot_vels, sel_e, nv, w0.next_id);
    }
    Ok(())
}

// ---------------------------------------------------------------------------
// Rotation integration
// ---------------------------------------------------------------------------

/// Whether the integration of one rotation entry stays representable.
pub open spec fn rot_entry_ok(rots: Seq<(u64, i64)>, rvs: Seq<(u64, i64)>, d: i64, j: int) -> bool {
    match lookup(rvs, rots[j].0) {
        Some(v) => fits_i64(v * d) && fits_i64(rots[j].1 + v * d),
        None => true,
    }
}

/// When the rotation system completes: a delta is set and every entry's
/// integration stays representable.
pub open spec fn rotation_ready(w: WorldView, r: ResourcesView) -> bool {
    &&& r.delta is Some
    &&& forall|j: int|
        0 <= j < w.rotations.len() ==> #[trigger] rot_entry_ok(
            w.rotations,
            w.rot_vels,
            r.delta.unwrap(),
            j,
        )
}

/// The world after the rotation system: each entity that also holds a
/// rotational velocity gets `rotation + rotational_velocity * delta`, wrapped
/// to zero past a full turn; entities without one keep their rotation.
pub open spec fn rotation_step(w: WorldView, r: ResourcesView) -> WorldView {
    let d = r.delta.unwrap();
    WorldView {
        rotations: w.rotations.map(
            |j: int, p: (u64, i64)|
                match lookup(w.rot_vels, p.0) {
                    Some(v) => (p.0, wrap_rotation(p.1 + v * d) as i64),
                    None => p,
                },
        ),
        ..w
    }
}

/// The error the rotation system reports when it is not ready.
pub open spec fn rotation_err(w: WorldView, r: ResourcesView) -> EngineError {
    if r.delta is None {
        EngineError::MissingResource
    } else {
        EngineError::Overflow
    }
}

/// Integrates every rotation by its entity's rotational velocity times the
/// delta resource, wrapping past one full turn (in either direction) back to
/// exactly zero.
pub fn run_rotation_system(w: &mut World, res: &Resources) -> (r: Result<(), EngineError>)
    requires
        old(w)@.wf(),
    ensures
        final(w)@.wf(),
        r is Ok <==> rotation_ready(old(w)@, res@),
        r is Ok ==> final(w)@ == rotation_step(old(w)@, res@),
        r is Err ==> final(w)@ == old(w)@,
        r is Err ==> r == Err::<(), EngineError>(rotation_err(old(w)@, res@)),
{
    let d: i64 = match res.delta() {
        Ok(d) => d,
        Err(er) => {
            return Err(er);
        },
    };
    // First pass: check that every entry's integration fits.
    let mut i: usize = 0;
    let mut all_fit: bool = true;
    while i < w.rotations.len() && all_fit
        invariant
            i <= w.rotations@.len(),
            all_fit ==> forall|j: int|
                0 <= j < i ==> #[trigger] rot_entry_ok(w.rotations@, w.rot_vels@, d, j),
            !all_fit ==> exists|j: int|
                0 <= j < w.rotations@.len() && !(#[trigger] rot_entry_ok(
                    w.rotations@,
                    w.rot_vels@,
                    d,
                    j,
                )),
        decreases w.rotations@.len() - i,
    {
        let (_e, rot) = w.rotations[i];
        match lookup_vec(&w.rot_vels, _e) {
            Some(v) => {
                match v.checked_mul(d) {
                    Some(p) => {
                        match rot.checked_add(p) {
                            Some(_s) => {},
                            None => {
                                proof {
                                    assert(!rot_entry_ok(w.rotations@, w.rot_vels@, d, i as int));
                                }
                                all_fit = false;
                            },
                        }
                    },
                    None => {
                        proof {
                            assert(!rot_entry_ok(w.rotations@, w.rot_vels@, d, i as int));
                        }
                        all_fit = false;
                    },
                }
            },
            None => {},
        }
        i += 1;
    }
    if !all_fit {
        return Err(EngineError::Overflow);
    }
    // Second pass: integrate and wrap.
    let ghost w0 = w@;
    let ghost rots0 = w.rotations@;
    let mut i2: usize = 0;
    while i2 < w.rotations.len()
        invariant
            i2 <= w.rotations@.len(),
            w.rotations@.len() == rots0.len(),
            w@ == (WorldView { rotations: w.rotations@, ..w0 }),
            forall|j: int| i2 <= j < rots0.len() ==> w.rotations@[j] == rots0[j],
            forall|j: int|
                0 <= j < i2 ==> w.rotations@[j] == (match lookup(w0.rot_vels, #[trigger] rots0[j].0) {
                    Some(v) => (rots0[j].0, wrap_rotation(rots0[j].1 + v * d) as i64),
                    None => rots0[j],
                }),
            forall|j: int| 0 <= j < rots0.len() ==> #[trigger] rot_entry_ok(rots0, w0.rot_vels, d, j),
        decreases w.rotations@.len() - i2,
    {
        let (e, rot) = w.rotations[i2];
        proof {
            assert(rot_entry_ok(rots0, w0.rot_vels, d, i2 as int));
        }
        match lookup_vec(&w.rot_vels, e) {
            Some(v) => {
                let p = v.checked_mul(d).unwrap();
                let s = rot.checked_add(p).unwrap();
                let nr: i64 = if s > TWO_PI_MILLI || s < 0 - TWO_PI_MILLI {
                    0
                } else {
                    s
                };
                w.rotations[i2] = (e, nr);
            },
            None => {},
        }
        i2 += 1;
    }
    proof {
        let stepped = rotation_step(w0, res@);
        assert forall|j: int| 0 <= j < rots0.len() implies w.rotations@[j] == stepped.rotations[j] by {
            assert(rot_entry_ok(rots0, w0.rot_vels, d, j));
        }
        assert(w.rotations@ =~= stepped.rotations);
        assert(w@ == stepped);
        assert forall|j: int| 0 <= j < rots0.len() implies w.rotations@[j].0 == rots0[j].0 by {}
        assert(unique_keys(w.rotations@));
        assert(keys_below(w.rotations@, w0.next_id));
    }
    Ok(())
}

// ---------------------------------------------------------------------------
// Position integration
// ---------------------------------------------------------------------------

/// The fixed-scale rule's displacement: one twentieth of the velocity,
/// rounded toward zero (the fixed-point image of a 0.05 scale factor).
pub open spec fn scaled_delta(v: int) -> int {
    if v >= 0 {
        v / 20
    } else {
        -((-v) / 20)
    }
}

/// Whether the raw-rule integration of one position entry stays representable.
pub open spec fn move_entry_ok(ps: Seq<(u64, Vec2)>, vs: Seq<(u64, Vec2)>, d: i64, j: int) -> bool {
    match lookup(vs, ps[j].0) {
        Some(v) => fits_i64(v.x * d) && fits_i64(ps[j].1.x + v.x * d) && fits_i64(v.y * d)
            && fits_i64(ps[j].1.y + v.y * d),
        None => true,
    }
}

/// When the raw movement system completes.
pub open spec fn movement_ready(w: WorldView, r: ResourcesView) -> bool {
    &&& r.delta is Some
    &&& forall|j: int|
        0 <= j < w.positions.len() ==> #[trigger] move_entry_ok(
            w.positions,
            w.velocities,
            r.delta.unwrap(),
            j,
        )
}

/// The world after the raw movement system: every entity that also holds a
/// velocity gets `position + velocity * delta`, component-wise.
pub open spec fn movement_step(w: WorldView, r: ResourcesView) -> WorldView {
    let d = r.delta.unwrap();
    WorldView {
        positions: w.positions.map(
            |j: int, p: (u64, Vec2)|
                match lookup(w.velocities, p.0) {
                    Some(v) => (
                        p.0,
                        Vec2 { x: (p.1.x + v.x * d) as i64, y: (p.1.y + v.y * d) as i64 },
                    ),
                    None => p,
                },
        ),
        ..w
    }
}

/// The error the raw movement system reports when it is not ready.
pub open spec fn movement_err(w: WorldView, r: ResourcesView) -> EngineError {
    if r.delta is None {
        EngineError::MissingResource
    } else {
        EngineError::Overflow
    }
}

/// Integrates every position by its entity's velocity times the delta
/// resource (linear, component-wise). After a tick, every entity's position
/// equals its pre-tick position plus velocity times delta; entities without
/// a velocity keep their position.
pub fn run_movement_system(w: &mut World, res: &Resources) -> (r: Result<(), EngineError>)
    requires
        old(w)@.wf(),
    ensures
        final(w)@.wf(),
        r is Ok <==> movement_ready(old(w)@, res@),
        r is Ok ==> final(w)@ == movement_step(old(w)@, res@),
        r is Ok ==> forall|j: int|
            0 <= j < old(w)@.positions.len() ==> (#[trigger] final(w)@.positions[j]).0 == old(
                w,
            )@.positions[j].0 && (match lookup(old(w)@.velocities, old(w)@.positions[j].0) {
                Some(v) => final(w)@.positions[j].1.x == old(w)@.positions[j].1.x + v.x
                    * res@.delta.unwrap() && final(w)@.positions[j].1.y == old(w)@.positions[j].1.y
                    + v.y * res@.delta.unwrap(),
                None => final(w)@.positions[j].1 == old(w)@.positions[j].1,
            }),
        r is Err ==> final(w)@ == old(w)@,
        r is Err ==> r == Err::<(), EngineError>(movement_err(old(w)@, res@)),
{
    let d: i64 = match res.delta() {
        Ok(d) => d,
        Err(er) => {
            return Err(er);
        },
    };
    // First pass: check that every entry's integration fits.
    let mut i: usize = 0;
    let mut all_fit: bool = true;
    while i < w.positions.len() && all_fit
        invariant
            i <= w.positions@.len(),
            all_fit ==> forall|j: int|
                0 <= j < i ==> #[trigger] move_entry_ok(w.positions@, w.velocities@, d, j),
            !all_fit ==> exists|j: int|
                0 <= j < w.positions@.len() && !(#[trigger] move_entry_ok(
                    w.positions@,
                    w.velocities@,
                    d,
                    j,
                )),
        decreases w.positions@.len() - i,
    {
        let (_e, pos) = w.positions[i];
        match lookup_vec(&w.velocities, _e) {
            Some(v) => {
                let fits = match (v.x.checked_mul(d), v.y.checked_mul(d)) {
                    (Some(px), Some(py)) => match (pos.x.checked_add(px), pos.y.checked_add(py)) {
                        (Some(_), Some(_)) => true,
                        _ => false,
                    },
                    _ => false,
                };
                if !fits {
                    proof {
                        assert(!move_entry_ok(w.positions@, w.velocities@, d, i as int));
                    }
                    all_fit = false;
                }
            },
            None => {},
        }
        i += 1;
    }
    if !all_fit {
        return Err(EngineError::Overflow);
    }
    // Second pass: integrate.
    let ghost w0 = w@;
    let ghost ps0 = w.positions@;
    let mut i2: usize = 0;
    while i2 < w.positions.len()
        invariant
            i2 <= w.positions@.len(),
            w.positions@.len() == ps0.len(),
            w@ == (WorldView { positions: w.positions@, ..w0 }),
            forall|j: int| i2 <= j < ps0.len() ==> w.positions@[j] == ps0[j],
            forall|j: int|
                0 <= j < i2 ==> w.positions@[j] == (match lookup(w0.velocities, #[trigger] ps0[j].0) {
                    Some(v) => (
                        ps0[j].0,
                        Vec2 { x: (ps0[j].1.x + v.x * d) as i64, y: (ps0[j].1.y + v.y * d) as i64 },
                    ),
                    None => ps0[j],
                }),
            forall|j: int| 0 <= j < ps0.len() ==> #[trigger] move_entry_ok(ps0, w0.velocities, d, j),
        decreases w.positions@.len() - i2,
    {
        let (e, pos) = w.positions[i2];
        proof {
            assert(move_entry_ok(ps0, w0.velocities, d, i2 as int));
        }
        match lookup_vec(&w.velocities, e) {
            Some(v) => {
                let nx = pos.x.checked_add(v.x.checked_mul(d).unwrap()).unwrap();
                let ny = pos.y.checked_add(v.y.checked_mul(d).unwrap()).unwrap();
                w.positions[i2] = (e, Vec2 { x: nx, y: ny });
            },
            None => {},
        }
        i2 += 1;
    }
    proof {
        let stepped = movement_step(w0, res@);
        assert forall|j: int| 0 <= j < ps0.len() implies w.positions@[j] == stepped.positions[j] by {
            assert(move_entry_ok(ps0, w0.velocities, d, j));
        }
        assert(w.positions@ =~= stepped.positions);
        assert(w@ == stepped);
        assert forall|j: int| 0 <= j < ps0.len() implies w.positions@[j].0 == ps0[j].0 by {}
        assert(unique_keys(w.positions@));
        assert(keys_below(w.positions@, w0.next_id));
        assert forall|j: int| 0 <= j < ps0.len() implies ((#[trigger] w.positions@[j]).0
            == ps0[j].0 && (match lookup(w0.velocities, ps0[j].0) {
            Some(v) => w.positions@[j].1.x == ps0[j].1.x + v.x * d && w.positions@[j].1.y
                == ps0[j].1.y + v.y * d,
            None => w.positions@[j].1 == ps0[j].1,
        })) by {
            assert(move_entry_ok(ps0, w0.velocities, d, j));
        }
    }
    Ok(())
}

/// Whether the fixed-scale integration of one position entry stays
/// representable.
pub open spec fn scaled_entry_ok(ps: Seq<(u64, Vec2)>, vs: Seq<(u64, Vec2)>, j: int) -> bool {
    match lookup(vs, ps[j].0) {
        Some(v) => fits_i64(ps[j].1.x + scaled_delta(v.x as int)) && fits_i64(
            ps[j].1.y + scaled_delta(v.y as int),
        ),
        None => true,
    }
}

/// When the fixed-scale movement system completes. It reads no delta
/// resource: the scale is a constant of the rule.
pub open spec fn scaled_ready(w: WorldView) -> bool {
    forall|j: int|
        0 <= j < w.positions.len() ==> #[trigger] scaled_entry_ok(w.positions, w.velocities, j)
}

/// The world after the fixed-scale movement system: every entity that also
/// holds a velocity gets `position + velocity / 20`, component-wise.
pub open spec fn scaled_step(w: WorldView) -> WorldView {
    WorldView {
        positions: w.positions.map(
            |j: int, p: (u64, Vec2)|
                match lookup(w.velocities, p.0) {
                    Some(v) => (
                        p.0,
                        Vec2 {
                            x: (p.1.x + scaled_delta(v.x as int)) as i64,
                            y: (p.1.y + scaled_delta(v.y as int)) as i64,
                        },
                    ),
                    None => p,
                },
        ),
        ..w
    }
}

/// One twentieth of `v`, rounded toward zero.
fn scaled_delta_exec(v: i64) -> (r: i64)
    ensures
        r as int == scaled_delta(v as int),
{
    let m: u64 = if v >= 0 {
        v as u64
    } else if v == i64::MIN {
        9223372036854775808u64
    } else {
        (0 - v) as u64
    };
    proof {
        assert(m == if v >= 0 { v as int } else { -(v as int) });
    }
    let q: u64 = m / 20;
    proof {
        assert(q * 20 <= m);
        assert(q <= i64::MAX as u64);
    }
    if v >= 0 {
        q as i64
    } else {
        0 - (q as i64)
    }
}

/// Integrates every position by one twentieth of its entity's velocity
/// (the fixed-scale rule), component-wise.
pub fn run_movement_scaled_system(w: &mut World) -> (r: Result<(), EngineError>)
    requires
        old(w)@.wf(),
    ensures
        final(w)@.wf(),
        r is Ok <==> scaled_ready(old(w)@),
        r is Ok ==> final(w)@ == scaled_step(old(w)@),
        r is Err ==> final(w)@ == old(w)@,
        r is Err ==> r == Err::<(), EngineError>(EngineError::Overflow),
{
    // First pass: check that every entry's integration fits.
    let mut i: usize = 0;
    let mut all_fit: bool = true;
    while i < w.positions.len() && all_fit
        invariant
            i <= w.positions@.len(),
            all_fit ==> forall|j: int|
                0 <= j < i ==> #[trigger] scaled_entry_ok(w.positions@, w.velocities@, j),
            !all_fit ==> exists|j: int|
                0 <= j < w.positions@.len() && !(#[trigger] scaled_entry_ok(
                    w.positions@,
                    w.velocities@,
                    j,
                )),
        decreases w.positions@.len() - i,
    {
        let (_e, pos) = w.positions[i];
        match lookup_vec(&w.velocities, _e) {
            Some(v) => {
                let dx = scaled_delta_exec(v.x);
                let dy = scaled_delta_exec(v.y);
                let fits = match (pos.x.checked_add(dx), pos.y.checked_add(dy)) {
                    (Some(_), Some(_)) => true,
                    _ => false,
                };
                if !fits {
                    proof {
                        assert(!scaled_entry_ok(w.positions@, w.velocities@, i as int));
                    }
                    all_fit = false;
                }
            },
            None => {},
        }
        i += 1;
    }
    if !all_fit {
        return Err(EngineError::Overflow);
    }
    // Second pass: integrate.
    let ghost w0 = w@;
    let ghost ps0 = w.positions@;
    let mut i2: usize = 0;
    while i2 < w.positions.len()
        invariant
            i2 <= w.positions@.len(),
            w.positions@.len() == ps0.len(),
            w@ == (WorldView { positions: w.positions@, ..w0 }),
            forall|j: int| i2 <= j < ps0.len() ==> w.positions@[j] == ps0[j],
            forall|j: int|
                0 <= j < i2 ==> w.positions@[j] == (match lookup(w0.velocities, #[trigger] ps0[j].0) {
                    Some(v) => (
                        ps0[j].0,
                        Vec2 {
                            x: (ps0[j].1.x + scaled_delta(v.x as int)) as i64,
                            y: (ps0[j].1.y + scaled_delta(v.y as int)) as i64,
                        },
                    ),
                    None => ps0[j],
                }),
            forall|j: int| 0 <= j < ps0.len() ==> #[trigger] scaled_entry_ok(ps0, w0.velocities, j),
        decreases w.positions@.len() - i2,
    {
        let (e, pos) = w.positions[i2];
        proof {
            assert(scaled_entry_ok(ps0, w0.velocities, i2 as int));
        }
        match lookup_vec(&w.velocities, e) {
            Some(v) => {
                let nx = pos.x.checked_add(scaled_delta_exec(v.x)).unwrap();
                let ny = pos.y.checked_add(scaled_delta_exec(v.y)).unwrap();
                w.positions[i2] = (e, Vec2 { x: nx, y: ny });
            },
            None => {},
        }
        i2 += 1;
    }
    proof {
        let stepped = scaled_step(w0);
        assert forall|j: int| 0 <= j < ps0.len() implies w.positions@[j] == stepped.positions[j] by {
            assert(scaled_entry_ok(ps0, w0.velocities, j));
        }
        assert(w.positions@ =~= stepped.positions);
        assert(w@ == stepped);
        assert forall|j: int| 0 <= j < ps0.len() implies w.positions@[j].0 == ps0[j].0 by {}
        assert(unique_keys(w.positions@));
        assert(keys_below(w.positions@, w0.next_id));
    }
    Ok(())
}

} // verus!
