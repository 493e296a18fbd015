//! The entity/component store.
//!
//! An entity is an opaque `u64` identifier handed out by `create_entity`.
//! Each component type has one container: an association list from entity
//! identifier to value, kept in insertion order so that iteration is stable
//! within a tick. The store's invariant: at most one value of a component
//! type per entity, and every stored identifier was handed out earlier.
//! Using a component type before `register` declared it is reported as
//! `NotRegistered` (fail fast, never silently empty).

use vstd::prelude::*;
use crate::types::{ComponentKind, EngineError, Vec2};

verus! {

/// First value associated with key `e`, scanning left to right.
pub open spec fn lookup<T>(s: Seq<(u64, T)>, e: u64) -> Option<T>
    decreases s.len(),
{
    if s.len() == 0 {
        None
    } else if s[0].0 == e {
        Some(s[0].1)
    } else {
        lookup(s.drop_first(), e)
    }
}

/// Whether key `e` occurs in the association list.
pub open spec fn has_key<T>(s: Seq<(u64, T)>, e: u64) -> bool {
    exists|i: int| 0 <= i < s.len() && s[i].0 == e
}

/// No key occurs twice.
pub open spec fn unique_keys<T>(s: Seq<(u64, T)>) -> bool {
    forall|i: int, j: int| 0 <= i < j < s.len() ==> s[i].0 != s[j].0
}

/// Every key is below `bound`.
pub open spec fn keys_below<T>(s: Seq<(u64, T)>, bound: u64) -> bool {
    forall|i: int| 0 <= i < s.len() ==> s[i].0 < bound
}

/// Replace the value at key `e` when present, append otherwise.
pub open spec fn upsert<T>(s: Seq<(u64, T)>, e: u64, v: T) -> Seq<(u64, T)> {
    if has_key(s, e) {
        s.map(|i: int, p: (u64, T)| if p.0 == e { (e, v) } else { p })
    } else {
        s.push((e, v))
    }
}

/// Entities of `s` that also hold a value in `t`, in the order of `s`,
/// each paired with both values.
pub open spec fn join_pairs<A, B>(s: Seq<(u64, A)>, t: Seq<(u64, B)>) -> Seq<(u64, A, B)>
    decreases s.len(),
{
    if s.len() == 0 {
        Seq::empty()
    } else {
        let rest = join_pairs(s.drop_last(), t);
        match lookup(t, s.last().0) {
            Some(b) => rest.push((s.last().0, s.last().1, b)),
            None => rest,
        }
    }
}

pub proof fn lemma_lookup_at<T>(s: Seq<(u64, T)>, e: u64, i: int)
    requires
        0 <= i < s.len(),
        s[i].0 == e,
        forall|j: int| 0 <= j < i ==> s[j].0 != e,
    ensures
        lookup(s, e) == Some(s[i].1),
    decreases i,
{
    if i > 0 {
        lemma_lookup_at(s.drop_first(), e, i - 1);
    }
}

pub proof fn lemma_lookup_absent<T>(s: Seq<(u64, T)>, e: u64)
    requires
        forall|j: int| 0 <= j < s.len() ==> s[j].0 != e,
    ensures
        lookup(s, e) is None,
    decreases s.len(),
{
    if s.len() > 0 {
        lemma_lookup_absent(s.drop_first(), e);
    }
}

/// Replaces the value at key `e`, or appends `(e, v)` when absent.
pub(crate) fn upsert_vec<T: Copy>(s: &mut Vec<(u64, T)>, e: u64, v: T)
    requires
        unique_keys(old(s)@),
    ensures
        final(s)@ == upsert(old(s)@, e, v),
{
    let ghost s0 = s@;
    let mut i: usize = 0;
    while i < s.len() && s[i].0 != e
        invariant
            i <= s@.len(),
            s@ == s0,
            forall|j: int| 0 <= j < i ==> s0[j].0 != e,
        decreases s@.len() - i,
    {
        i += 1;
    }
    if i < s.len() {
        s[i] = (e, v);
        proof {
            assert(s0[i as int].0 == e);
            assert(has_key(s0, e));
            let u = upsert(s0, e, v);
            assert(u.len() == s0.len());
            assert forall|j: int| 0 <= j < s0.len() implies s@[j] == u[j] by {
                if j != i {
                    assert(s0[j].0 != e);
                }
            }
            assert(s@ =~= u);
        }
    } else {
        proof {
            assert(!has_key(s0, e));
        }
        s.push((e, v));
    }
}

/// First value associated with `e`, scanning left to right.
pub(crate) fn lookup_vec<T: Copy>(s: &Vec<(u64, T)>, e: u64) -> (r: Option<T>)
    ensures
        r == lookup(s@, e),
{
    let mut i: usize = 0;
    while i < s.len()
        invariant
            i <= s@.len(),
            forall|j: int| 0 <= j < i ==> s@[j].0 != e,
        decreases s@.len() - i,
    {
        if s[i].0 == e {
            proof {
                lemma_lookup_at(s@, e, i as int);
            }
            return Some(s[i].1);
        }
        i += 1;
    }
    proof {
        lemma_lookup_absent(s@, e);
    }
    None
}

/// A fresh copy of an association list.
fn copy_pairs<T: Copy>(s: &Vec<(u64, T)>) -> (r: Vec<(u64, T)>)
    ensures
        r@ == s@,
{
    let mut out: Vec<(u64, T)> = Vec::new();
    let mut i: usize = 0;
    while i < s.len()
        invariant
            i <= s@.len(),
            out@ == s@.take(i as int),
        decreases s@.len() - i,
    {
        out.push(s[i]);
        proof {
            assert(out@ =~= s@.take(i + 1));
        }
        i += 1;
    }
    proof {
        assert(s@.take(s@.len() as int) =~= s@);
    }
    out
}

/// Joins two association lists by entity identity, in the order of `s`.
fn join_vecs<A: Copy, B: Copy>(s: &Vec<(u64, A)>, t: &Vec<(u64, B)>) -> (r: Vec<(u64, A, B)>)
    ensures
        r@ == join_pairs(s@, t@),
{
    let mut out: Vec<(u64, A, B)> = Vec::new();
    let mut i: usize = 0;
    while i < s.len()
        invariant
            i <= s@.len(),
            out@ == join_pairs(s@.take(i as int), t@),
        decreases s@.len() - i,
    {
        let (e, a) = s[i];
        proof {
            assert(s@.take(i + 1).drop_last() =~= s@.take(i as int));
            assert(s@.take(i + 1).last() == s@[i as int]);
        }
        match lookup_vec(t, e) {
            Some(b) => { out.push((e, a, b)); },
            None => {},
        }
        i += 1;
    }
    proof {
        assert(s@.take(s@.len() as int) =~= s@);
    }
    out
}

/// The mathematical value of a `World`: the containers, the registration
/// flags, and the next fresh identifier.
pub struct WorldView {
    pub positions: Seq<(u64, Vec2)>,
    pub velocities: Seq<(u64, Vec2)>,
    pub rotations: Seq<(u64, i64)>,
    pub rot_vels: Seq<(u64, i64)>,
    pub players: Seq<u64>,
    pub reg_position: bool,
    pub reg_velocity: bool,
    pub reg_rotation: bool,
    pub reg_rot_vel: bool,
    pub reg_player: bool,
    pub next_id: u64,
}

impl WorldView {
    /// Well-formedness: one value per entity per type, and every stored
    /// identifier was handed out by `create_entity`.
    pub open spec fn wf(self) -> bool {
        &&& unique_keys(self.positions)
        &&& unique_keys(self.velocities)
        &&& unique_keys(self.rotations)
        &&& unique_keys(self.rot_vels)
        &&& self.players.no_duplicates()
        &&& keys_below(self.positions, self.next_id)
        &&& keys_below(self.velocities, self.next_id)
        &&& keys_below(self.rotations, self.next_id)
        &&& keys_below(self.rot_vels, self.next_id)
        &&& forall|i: int| 0 <= i < self.players.len() ==> self.players[i] < self.next_id
    }

    pub open spec fn registered(self, k: ComponentKind) -> bool {
        match k {
            ComponentKind::Position => self.reg_position,
            ComponentKind::Velocity => self.reg_velocity,
            ComponentKind::Rotation => self.reg_rotation,
            ComponentKind::RotationalVelocity => self.reg_rot_vel,
            ComponentKind::Player => self.reg_player,
        }
    }

    /// The containers and the identifier counter, disregarding registration.
    pub open spec fn contents(self) -> (Seq<(u64, Vec2)>, Seq<(u64, Vec2)>, Seq<(u64, i64)>, Seq<
        (u64, i64),
    >, Seq<u64>, u64) {
        (self.positions, self.velocities, self.rotations, self.rot_vels, self.players, self.next_id)
    }
}

/// The entity/component store. The fields are exposed to the rest of the
/// crate so that the systems can walk the containers; outside callers go
/// through the methods, whose contracts keep `wf` intact.
pub struct World {
    pub positions: Vec<(u64, Vec2)>,
    pub velocities: Vec<(u64, Vec2)>,
    pub rotations: Vec<(u64, i64)>,
    pub rot_vels: Vec<(u64, i64)>,
    pub players: Vec<u64>,
    pub reg_position: bool,
    pub reg_velocity: bool,
    pub reg_rotation: bool,
    pub reg_rot_vel: bool,
    pub reg_player: bool,
    pub next_id: u64,
}

impl View for World {
    type V = WorldView;

    open spec fn view(&self) -> WorldView {
        WorldView {
            positions: self.positions@,
            velocities: self.velocities@,
            rotations: self.rotations@,
            rot_vels: self.rot_vels@,
            players: self.players@,
            reg_position: self.reg_position,
            reg_velocity: self.reg_velocity,
            reg_rotation: self.reg_rotation,
            reg_rot_vel: self.reg_rot_vel,
            reg_player: self.reg_player,
            next_id: self.next_id,
        }
    }
}

impl World {
    /// An empty store: nothing registered, no entities.
    pub fn new() -> (w: World)
        ensures
            w@.wf(),
            w@.positions.len() == 0,
            w@.velocities.len() == 0,
            w@.rotations.len() == 0,
            w@.rot_vels.len() == 0,
            w@.players.len() == 0,
            w@.next_id == 0,
            forall|k: ComponentKind| !w@.registered(k),
    {
        World {
            positions: Vec::new(),
            velocities: Vec::new(),
            rotations: Vec::new(),
            rot_vels: Vec::new(),
            players: Vec::new(),
            reg_position: false,
            reg_velocity: false,
            reg_rotation: false,
            reg_rot_vel: false,
            reg_player: false,
            next_id: 0,
        }
    }

    /// Declares that component type `k` has a backing container; required
    /// before any entity is given a value of that type.
    pub fn register(&mut self, k: ComponentKind)
        ensures
            final(self)@.registered(k),
            forall|k2: ComponentKind| k2 != k ==> final(self)@.registered(k2) == old(
                self,
            )@.registered(k2),
            final(self)@.contents() == old(self)@.contents(),
            old(self)@.wf() ==> final(self)@.wf(),
    {
        match k {
            ComponentKind::Position => { self.reg_position = true; },
            ComponentKind::Velocity => { self.reg_velocity = true; },
            ComponentKind::Rotation => { self.reg_rotation = true; },
            ComponentKind::RotationalVelocity => { self.reg_rot_vel = true; },
            ComponentKind::Player => { self.reg_player = true; },
        }
    }

    /// Hands out a fresh identifier, which no container mentions yet.
    pub fn create_entity(&mut self) -> (r: Result<u64, EngineError>)
        requires
            old(self)@.wf(),
        ensures
            final(self)@.wf(),
            r is Err <==> old(self)@.next_id == u64::MAX,
            r is Err ==> r == Err::<u64, EngineError>(EngineError::Overflow) && final(self)@ == old(
                self,
            )@,
            r is Ok ==> {
                &&& r == Ok::<u64, EngineError>(old(self)@.next_id)
                &&& final(self)@ == WorldView { next_id: (old(self)@.next_id + 1) as u64, ..old(self)@ }
                &&& !has_key(old(self)@.positions, old(self)@.next_id)
                &&& !has_key(old(self)@.velocities, old(self)@.next_id)
                &&& !has_key(old(self)@.rotations, old(self)@.next_id)
                &&& !has_key(old(self)@.rot_vels, old(self)@.next_id)
                &&& !old(self)@.players.contains(old(self)@.next_id)
            },
    {
        if self.next_id == u64::MAX {
            Err(EngineError::Overflow)
        } else {
            let id = self.next_id;
            self.next_id = self.next_id + 1;
            proof {
                if self.players@.contains(id) {
                    let i = choose|i: int| 0 <= i < self.players@.len() && self.players@[i] == id;
                    assert(self.players@[i] < id);
                }
            }
            Ok(id)
        }
    }

    /// Gives entity `e` a position, replacing any earlier one.
    pub fn attach_position(&mut self, e: u64, v: Vec2) -> (r: Result<(), EngineError>)
        requires
            old(self)@.wf(),
        ensures
            final(self)@.wf(),
            r == Err::<(), EngineError>(EngineError::NotRegistered) <==> !old(self)@.reg_position,
            r == Err::<(), EngineError>(EngineError::NoSuchEntity) <==> (old(self)@.reg_position
                && e >= old(self)@.next_id),
            r is Err ==> final(self)@ == old(self)@,
            r is Ok <==> (old(self)@.reg_position && e < old(self)@.next_id),
            r is Ok ==> final(self)@ == (WorldView {
                positions: upsert(old(self)@.positions, e, v),
                ..old(self)@
            }),
    {
        if !self.reg_position {
            return Err(EngineError::NotRegistered);
        }
        if e >= self.next_id {
            return Err(EngineError::NoSuchEntity);
        }
        let ghost p0 = self.positions@;
        upsert_vec(&mut self.positions, e, v);
        proof {
            lemma_upsert_wf(p0, e, v, self.next_id);
        }
        Ok(())
    }

    /// Gives entity `e` a velocity, replacing any earlier one.
    pub fn attach_velocity(&mut self, e: u64, v: Vec2) -> (r: Result<(), EngineError>)
        requires
            old(self)@.wf(),
        ensures
            final(self)@.wf(),
            r == Err::<(), EngineError>(EngineError::NotRegistered) <==> !old(self)@.reg_velocity,
            r == Err::<(), EngineError>(EngineError::NoSuchEntity) <==> (old(self)@.reg_velocity
                && e >= old(self)@.next_id),
            r is Err ==> final(self)@ == old(self)@,
            r is Ok <==> (old(self)@.reg_velocity && e < old(self)@.next_id),
            r is Ok ==> final(self)@ == (WorldView {
                velocities: upsert(old(self)@.velocities, e, v),
                ..old(self)@
            }),
    {
        if !self.reg_velocity {
            return Err(EngineError::NotRegistered);
        }
        if e >= self.next_id {
            return Err(EngineError::NoSuchEntity);
        }
        let ghost p0 = self.velocities@;
        upsert_vec(&mut self.velocities, e, v);
        proof {
            lemma_upsert_wf(p0, e, v, self.next_id);
        }
        Ok(())
    }

    /// Gives entity `e` a rotation (thousandths of a radian).
    pub fn attach_rotation(&mut self, e: u64, v: i64) -> (r: Result<(), EngineError>)
        requires
            old(self)@.wf(),
        ensures
            final(self)@.wf(),
            r == Err::<(), EngineError>(EngineError::NotRegistered) <==> !old(self)@.reg_rotation,
            r == Err::<(), EngineError>(EngineError::NoSuchEntity) <==> (old(self)@.reg_rotation
                && e >= old(self)@.next_id),
            r is Err ==> final(self)@ == old(self)@,
            r is Ok <==> (old(self)@.reg_rotation && e < old(self)@.next_id),
            r is Ok ==> final(self)@ == (WorldView {
                rotations: upsert(old(self)@.rotations, e, v),
                ..old(self)@
            }),
    {
        if !self.reg_rotation {
            return Err(EngineError::NotRegistered);
        }
        if e >= self.next_id {
            return Err(EngineError::NoSuchEntity);
        }
        let ghost p0 = self.rotations@;
        upsert_vec(&mut self.rotations, e, v);
        proof {
            lemma_upsert_wf(p0, e, v, self.next_id);
        }
        Ok(())
    }

    /// Gives entity `e` a rotational velocity (thousandths of a radian
    /// per delta unit).
    pub fn attach_rotational_velocity(&mut self, e: u64, v: i64) -> (r: Result<(), EngineError>)
        requires
            old(self)@.wf(),
        ensures
            final(self)@.wf(),
            r == Err::<(), EngineError>(EngineError::NotRegistered) <==> !old(self)@.reg_rot_vel,
            r == Err::<(), EngineError>(EngineError::NoSuchEntity) <==> (old(self)@.reg_rot_vel
                && e >= old(self)@.next_id),
            r is Err ==> final(self)@ == old(self)@,
            r is Ok <==> (old(self)@.reg_rot_vel && e < old(self)@.next_id),
            r is Ok ==> final(self)@ == (WorldView {
                rot_vels: upsert(old(self)@.rot_vels, e, v),
                ..old(self)@
            }),
    {
        if !self.reg_rot_vel {
            return Err(EngineError::NotRegistered);
        }
        if e >= self.next_id {
            return Err(EngineError::NoSuchEntity);
        }
        let ghost p0 = self.rot_vels@;
        upsert_vec(&mut self.rot_vels, e, v);
        proof {
            lemma_upsert_wf(p0, e, v, self.next_id);
        }
        Ok(())
    }

    /// Marks entity `e` as a player; attaching twice is a no-op.
    pub fn attach_player(&mut self, e: u64) -> (r: Result<(), EngineError>)
        requires
            old(self)@.wf(),
        ensures
            final(self)@.wf(),
            r == Err::<(), EngineError>(EngineError::NotRegistered) <==> !old(self)@.reg_player,
            r == Err::<(), EngineError>(EngineError::NoSuchEntity) <==> (old(self)@.reg_player
                && e >= old(self)@.next_id),
            r is Err ==> final(self)@ == old(self)@,
            r is Ok <==> (old(self)@.reg_player && e < old(self)@.next_id),
            r is Ok ==> final(self)@ == (WorldView {
                players: if old(self)@.players.contains(e) {
                    old(self)@.players
                } else {
                    old(self)@.players.push(e)
                },
                ..old(self)@
            }),
    {
        if !self.reg_player {
            return Err(EngineError::NotRegistered);
        }
        if e >= self.next_id {
            return Err(EngineError::NoSuchEntity);
        }
        let mut i: usize = 0;
        while i < self.players.len() && self.players[i] != e
            invariant
                i <= self.players@.len(),
                forall|j: int| 0 <= j < i ==> self.players@[j] != e,
            decreases self.players@.len() - i,
        {
            i += 1;
        }
        if i < self.players.len() {
            proof {
                assert(self.players@[i as int] == e);
                assert(self.players@.contains(e));
            }
        } else {
            proof {
                assert(!self.players@.contains(e));
            }
            self.players.push(e);
            proof {
                let p0 = old(self)@.players;
                let p1 = self.players@;
                assert(p1 == p0.push(e));
                assert forall|a: int, b: int| 0 <= a < b < p1.len() implies p1[a] != p1[b] by {
                    if b == p1.len() - 1 {
                        assert(p0[a] == p1[a] && p0.contains(p1[a]));
                    }
                }
            }
        }
        Ok(())
    }

    /// The current position of entity `e`, if it has one.
    pub fn get_position(&self, e: u64) -> (r: Result<Option<Vec2>, EngineError>)
        ensures
            r is Err <==> !self@.reg_position,
            r is Err ==> r == Err::<Option<Vec2>, EngineError>(EngineError::NotRegistered),
            r is Ok ==> r == Ok::<Option<Vec2>, EngineError>(lookup(self@.positions, e)),
    {
        if !self.reg_position {
            return Err(EngineError::NotRegistered);
        }
        Ok(lookup_vec(&self.positions, e))
    }

    /// The current rotation of entity `e`, if it has one.
    pub fn get_rotation(&self, e: u64) -> (r: Result<Option<i64>, EngineError>)
        ensures
            r is Err <==> !self@.reg_rotation,
            r is Err ==> r == Err::<Option<i64>, EngineError>(EngineError::NotRegistered),
            r is Ok ==> r == Ok::<Option<i64>, EngineError>(lookup(self@.rotations, e)),
    {
        if !self.reg_rotation {
            return Err(EngineError::NotRegistered);
        }
        Ok(lookup_vec(&self.rotations, e))
    }

    /// The current rotational velocity of entity `e`, if it has one.
    pub fn get_rotational_velocity(&self, e: u64) -> (r: Result<Option<i64>, EngineError>)
        ensures
            r is Err <==> !self@.reg_rot_vel,
            r is Err ==> r == Err::<Option<i64>, EngineError>(EngineError::NotRegistered),
            r is Ok ==> r == Ok::<Option<i64>, EngineError>(lookup(self@.rot_vels, e)),
    {
        if !self.reg_rot_vel {
            return Err(EngineError::NotRegistered);
        }
        Ok(lookup_vec(&self.rot_vels, e))
    }

    /// Every `(entity, position)` pair, in insertion order.
    pub fn get_all_positions(&self) -> (r: Result<Vec<(u64, Vec2)>, EngineError>)
        ensures
            r is Err <==> !self@.reg_position,
            r is Err ==> r == Err::<Vec<(u64, Vec2)>, EngineError>(EngineError::NotRegistered),
            r is Ok ==> r.unwrap()@ == self@.positions,
    {
        if !self.reg_position {
            return Err(EngineError::NotRegistered);
        }
        Ok(copy_pairs(&self.positions))
    }

    /// Every `(entity, rotation)` pair, in insertion order.
    pub fn get_all_rotations(&self) -> (r: Result<Vec<(u64, i64)>, EngineError>)
        ensures
            r is Err <==> !self@.reg_rotation,
            r is Err ==> r == Err::<Vec<(u64, i64)>, EngineError>(EngineError::NotRegistered),
            r is Ok ==> r.unwrap()@ == self@.rotations,
    {
        if !self.reg_rotation {
            return Err(EngineError::NotRegistered);
        }
        Ok(copy_pairs(&self.rotations))
    }

    /// Entities holding both a position and a velocity, with both values,
    /// in position insertion order.
    pub fn join_position_velocity(&self) -> (r: Result<Vec<(u64, Vec2, Vec2)>, EngineError>)
        ensures
            r is Err <==> !(self@.reg_position && self@.reg_velocity),
            r is Err ==> r == Err::<Vec<(u64, Vec2, Vec2)>, EngineError>(EngineError::NotRegistered),
            r is Ok ==> r.unwrap()@ == join_pairs(self@.positions, self@.velocities),
    {
        if !self.reg_position || !self.reg_velocity {
            return Err(EngineError::NotRegistered);
        }
        Ok(join_vecs(&self.positions, &self.velocities))
    }

    /// Entities holding both a rotational velocity and a rotation, with both
    /// values, in rotational-velocity insertion order.
    pub fn join_rotational_velocity_rotation(&self) -> (r: Result<
        Vec<(u64, i64, i64)>,
        EngineError,
    >)
        ensures
            r is Err <==> !(self@.reg_rot_vel && self@.reg_rotation),
            r is Err ==> r == Err::<Vec<(u64, i64, i64)>, EngineError>(EngineError::NotRegistered),
            r is Ok ==> r.unwrap()@ == join_pairs(self@.rot_vels, self@.rotations),
    {
        if !self.reg_rot_vel || !self.reg_rotation {
            return Err(EngineError::NotRegistered);
        }
        Ok(join_vecs(&self.rot_vels, &self.rotations))
    }
}

/// An upsert with a key already handed out keeps the store's invariant.
pub proof fn lemma_upsert_wf<T>(s: Seq<(u64, T)>, e: u64, v: T, bound: u64)
    requires
        unique_keys(s),
        keys_below(s, bound),
        e < bound,
    ensures
        unique_keys(upsert(s, e, v)),
        keys_below(upsert(s, e, v), bound),
{
    let u = upsert(s, e, v);
    if has_key(s, e) {
        assert(forall|j: int| 0 <= j < s.len() ==> u[j].0 == s[j].0);
    }
}

} // verus!
