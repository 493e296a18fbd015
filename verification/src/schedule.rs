//! The dispatcher: a partial order over named systems.
//!
//! Each registered system declares a read-set and a write-set of component
//! and resource types, plus "runs after" edges naming earlier-registered or
//! later-registered systems by index. `build` validates the edges, rejects a
//! cyclic graph, and produces a plan: a sequence of stages whose flattening
//! satisfies every edge front to back, with no edge joining two systems of
//! one stage and no two systems of one stage in conflict (a conflict is a
//! type one of them writes and the other touches). Systems of one stage may
//! therefore run concurrently; conflicting
//! systems are forced into distinct stages, hence sequential order. A
//! thread-confined system joins no stage: it always runs on the driver's own
//! thread after every staged system.

use vstd::prelude::*;
use crate::types::{AccessTag, EngineError, SystemKind};

verus! {

broadcast use vstd::set::group_set_axioms, vstd::seq_lib::seq_to_set_is_finite;

/// One registered system: its behavior, its declared access sets, and the
/// indices of the systems it runs after.
pub struct SystemDecl {
    pub kind: SystemKind,
    pub reads: Vec<AccessTag>,
    pub writes: Vec<AccessTag>,
    pub after: Vec<usize>,
}

/// The component and resource types a system kind reads.
pub open spec fn reads_of(k: SystemKind) -> Seq<AccessTag> {
    match k {
        SystemKind::InputHandling => seq![AccessTag::PlayerComp],
        SystemKind::UpdateRotation => seq![AccessTag::DeltaRes, AccessTag::RotationalVelocityComp],
        SystemKind::MovementRaw => seq![AccessTag::DeltaRes, AccessTag::VelocityComp],
        SystemKind::MovementScaled => seq![AccessTag::VelocityComp],
    }
}

/// The component and resource types a system kind writes.
pub open spec fn writes_of(k: SystemKind) -> Seq<AccessTag> {
    match k {
        SystemKind::InputHandling => seq![
            AccessTag::PendingInputRes,
            AccessTag::RotationalVelocityComp,
        ],
        SystemKind::UpdateRotation => seq![AccessTag::RotationComp],
        SystemKind::MovementRaw => seq![AccessTag::PositionComp],
        SystemKind::MovementScaled => seq![AccessTag::PositionComp],
    }
}

/// The declared access sets of a system kind, as vectors.
pub fn access_for(k: SystemKind) -> (r: (Vec<AccessTag>, Vec<AccessTag>))
    ensures
        r.0@ == reads_of(k),
        r.1@ == writes_of(k),
{
    let mut reads: Vec<AccessTag> = Vec::new();
    let mut writes: Vec<AccessTag> = Vec::new();
    match k {
        SystemKind::InputHandling => {
            reads.push(AccessTag::PlayerComp);
            writes.push(AccessTag::PendingInputRes);
            writes.push(AccessTag::RotationalVelocityComp);
        },
        SystemKind::UpdateRotation => {
            reads.push(AccessTag::DeltaRes);
            reads.push(AccessTag::RotationalVelocityComp);
            writes.push(AccessTag::RotationComp);
        },
        SystemKind::MovementRaw => {
            reads.push(AccessTag::DeltaRes);
            reads.push(AccessTag::VelocityComp);
            writes.push(AccessTag::PositionComp);
        },
        SystemKind::MovementScaled => {
            reads.push(AccessTag::VelocityComp);
            writes.push(AccessTag::PositionComp);
        },
    }
    proof {
        assert(reads@ =~= reads_of(k));
        assert(writes@ =~= writes_of(k));
    }
    (reads, writes)
}

/// Whether access type `t` puts the two systems in conflict: one writes it
/// while the other reads or writes it.
pub open spec fn conflict_on(a: SystemDecl, b: SystemDecl, t: AccessTag) -> bool {
    ||| (a.writes@.contains(t) && (b.reads@.contains(t) || b.writes@.contains(t)))
    ||| (b.writes@.contains(t) && (a.reads@.contains(t) || a.writes@.contains(t)))
}

/// Whether the two systems conflict on any access type.
pub open spec fn conflicts(a: SystemDecl, b: SystemDecl) -> bool {
    exists|t: AccessTag| conflict_on(a, b, t)
}

/// Read-only access never conflicts: a type neither system writes raises no
/// conflict between them, however many of them read it.
pub proof fn lemma_read_only_no_conflict(a: SystemDecl, b: SystemDecl, t: AccessTag)
    requires
        !a.writes@.contains(t),
        !b.writes@.contains(t),
    ensures
        !conflict_on(a, b, t),
{
}

/// Two systems that both take write access to one type conflict, so a built
/// plan forces them into distinct stages: sequential order.
pub proof fn lemma_shared_write_conflicts(a: SystemDecl, b: SystemDecl, t: AccessTag)
    requires
        a.writes@.contains(t),
        b.writes@.contains(t),
    ensures
        conflicts(a, b),
{
    assert(conflict_on(a, b, t));
}

/// Whether the vector holds the tag.
fn contains_tag(v: &Vec<AccessTag>, t: AccessTag) -> (r: bool)
    ensures
        r == v@.contains(t),
{
    let mut i: usize = 0;
    let mut found: bool = false;
    while i < v.len() && !found
        invariant
            i <= v@.len(),
            !found ==> forall|j: int| 0 <= j < i ==> v@[j] != t,
            found ==> v@.contains(t),
        decreases v@.len() - i,
    {
        if v[i] == t {
            found = true;
        }
        i += 1;
    }
    found
}

/// Whether the two systems conflict on any access type.
pub fn conflicts_exec(a: &SystemDecl, b: &SystemDecl) -> (r: bool)
    ensures
        r == conflicts(*a, *b),
{
    let mut i: usize = 0;
    let mut found: bool = false;
    while i < a.writes.len() && !found
        invariant
            i <= a.writes@.len(),
            found ==> conflicts(*a, *b),
            !found ==> forall|j: int| 0 <= j < i ==> !conflict_on(*a, *b, #[trigger] a.writes@[j]),
        decreases a.writes@.len() - i,
    {
        let t = a.writes[i];
        if contains_tag(&b.reads, t) || contains_tag(&b.writes, t) {
            proof {
                assert(conflict_on(*a, *b, t));
            }
            found = true;
        }
        i += 1;
    }
    let mut k: usize = 0;
    while k < b.writes.len() && !found
        invariant
            k <= b.writes@.len(),
            found ==> conflicts(*a, *b),
            !found ==> forall|j: int| 0 <= j < i ==> !conflict_on(*a, *b, #[trigger] a.writes@[j]),
            !found ==> forall|j: int| 0 <= j < k ==> !conflict_on(*a, *b, #[trigger] b.writes@[j]),
            !found ==> i == a.writes@.len(),
        decreases b.writes@.len() - k,
    {
        let t = b.writes[k];
        if contains_tag(&a.reads, t) || contains_tag(&a.writes, t) {
            proof {
                assert(conflict_on(*a, *b, t));
            }
            found = true;
        }
        k += 1;
    }
    proof {
        if !found {
            assert forall|t: AccessTag| !conflict_on(*a, *b, t) by {
                if a.writes@.contains(t) {
                    let j = choose|j: int| 0 <= j < a.writes@.len() && a.writes@[j] == t;
                    assert(!conflict_on(*a, *b, a.writes@[j]));
                }
                if b.writes@.contains(t) {
                    let j = choose|j: int| 0 <= j < b.writes@.len() && b.writes@[j] == t;
                    assert(!conflict_on(*a, *b, b.writes@[j]));
                }
            }
        }
    }
    found
}

/// A "runs after" edge from system `a` to system `b`: `b` runs after `a`.
pub open spec fn has_edge(decls: Seq<SystemDecl>, a: usize, b: usize) -> bool {
    b < decls.len() && decls[b as int].after@.contains(a)
}

/// The order mentions every system index below `n`.
pub open spec fn covers(ord: Seq<usize>, n: int) -> bool {
    forall|x: usize| x < n ==> ord.contains(x)
}

/// Every edge points forward in the order.
pub open spec fn respects(ord: Seq<usize>, decls: Seq<SystemDecl>) -> bool {
    forall|p: int, q: int|
        0 <= p < ord.len() && 0 <= q < ord.len() && #[trigger] has_edge(decls, ord[p], ord[q]) ==> p
            < q
}

/// Whether some execution order satisfies every "runs after" edge.
pub open spec fn schedulable(decls: Seq<SystemDecl>) -> bool {
    exists|ord: Seq<usize>| covers(ord, decls.len() as int) && respects(ord, decls)
}

/// A cycle in the "runs after" edges: a nonempty chain of systems, each
/// running after the previous one, whose last member the first runs after.
pub open spec fn is_cycle(decls: Seq<SystemDecl>, c: Seq<usize>) -> bool {
    &&& c.len() >= 1
    &&& forall|i: int| #![trigger c[i]] 0 <= i < c.len() - 1 ==> has_edge(decls, c[i], c[i + 1])
    &&& has_edge(decls, c[c.len() - 1], c[0])
}

/// Whether the "runs after" edges contain a cycle.
pub open spec fn has_cycle(decls: Seq<SystemDecl>) -> bool {
    exists|c: Seq<usize>| is_cycle(decls, c)
}

/// Among the members of a nonempty finite set all appearing in `ord`, some
/// member takes the smallest index.
proof fn lemma_min_index_member(s: Set<usize>, ord: Seq<usize>, w: usize)
    requires
        s.finite(),
        s.contains(w),
        forall|x: usize| s.contains(x) ==> ord.contains(x),
    ensures
        exists|m: usize|
            s.contains(m) && (forall|x: usize| s.contains(x) ==> ord.index_of(m)
                <= ord.index_of(x)),
    decreases s.len(),
{
    let rest = s.remove(w);
    if exists|x: usize| rest.contains(x) {
        let w2 = choose|x: usize| rest.contains(x);
        lemma_min_index_member(rest, ord, w2);
        let m0 = choose|m: usize|
            rest.contains(m) && (forall|x: usize| rest.contains(x) ==> ord.index_of(m)
                <= ord.index_of(x));
        if ord.index_of(w) <= ord.index_of(m0) {
            assert forall|x: usize| s.contains(x) implies ord.index_of(w) <= ord.index_of(x) by {
                if x != w {
                    assert(rest.contains(x));
                }
            }
        } else {
            assert forall|x: usize| s.contains(x) implies ord.index_of(m0) <= ord.index_of(x) by {
                if x != w {
                    assert(rest.contains(x));
                }
            }
            assert(s.contains(m0));
        }
    } else {
        assert forall|x: usize| s.contains(x) implies ord.index_of(w) <= ord.index_of(x) by {
            assert(!rest.contains(x));
            assert(x == w);
        }
    }
}

/// A nonempty set of systems, each running after some member of the set,
/// admits no execution order: whichever member were scheduled first, one of
/// its predecessors would have to come earlier.
#[verifier::rlimit(100)]
proof fn lemma_blocked_set_unschedulable(decls: Seq<SystemDecl>, s: Set<usize>, w: usize)
    requires
        s.finite(),
        s.contains(w),
        forall|x: usize|
            s.contains(x) ==> exists|a: usize| s.contains(a) && #[trigger] has_edge(decls, a, x),
    ensures
        !schedulable(decls),
{
    if schedulable(decls) {
        let ord = choose|ord: Seq<usize>|
            covers(ord, decls.len() as int) && respects(ord, decls);
        assert forall|x: usize| s.contains(x) implies ord.contains(x) by {
            let a = choose|a: usize| s.contains(a) && has_edge(decls, a, x);
            assert(x < decls.len());
        }
        lemma_min_index_member(s, ord, w);
        let m = choose|m: usize|
            s.contains(m) && (forall|x: usize| s.contains(x) ==> ord.index_of(m)
                <= ord.index_of(x));
        let a = choose|a: usize| s.contains(a) && has_edge(decls, a, m);
        let pm = ord.index_of(m);
        let pa = ord.index_of(a);
        assert(ord.contains(m) && ord.contains(a));
        assert(0 <= pm < ord.len() && ord[pm] == m);
        assert(0 <= pa < ord.len() && ord[pa] == a);
        assert(has_edge(decls, ord[pa], ord[pm]));
        assert(pa < pm);
        assert(pm <= pa);
        assert(false);
    }
}

/// A graph whose "runs after" edges contain a cycle admits no execution
/// order, so `build` rejects it.
pub proof fn lemma_cycle_unschedulable(decls: Seq<SystemDecl>, c: Seq<usize>)
    requires
        is_cycle(decls, c),
    ensures
        !schedulable(decls),
{
    let s = c.to_set();
    assert(s.contains(c[0]));
    assert forall|x: usize| s.contains(x) implies exists|a: usize|
        s.contains(a) && #[trigger] has_edge(decls, a, x) by {
        assert(c.contains(x));
        let j = choose|j: int| 0 <= j < c.len() && c[j] == x;
        if j == 0 {
            let a = c[c.len() - 1];
            assert(has_edge(decls, a, x));
            assert(c.contains(a));
            assert(s.contains(a));
        } else {
            let a = c[j - 1];
            assert(has_edge(decls, a, c[j]));
            assert(c.contains(a));
            assert(s.contains(a));
        }
    }
    lemma_blocked_set_unschedulable(decls, s, c[0]);
}

/// The concatenation of the stages, in order.
pub open spec fn flatten_vecs(s: Seq<Vec<usize>>) -> Seq<usize>
    decreases s.len(),
{
    if s.len() == 0 {
        Seq::empty()
    } else {
        flatten_vecs(s.drop_last()) + s.last()@
    }
}

/// How many entries of the placement map are still false.
pub open spec fn count_false(s: Seq<bool>) -> nat
    decreases s.len(),
{
    if s.len() == 0 {
        0
    } else {
        count_false(s.drop_last()) + (if s.last() {
            0nat
        } else {
            1nat
        })
    }
}

proof fn lemma_count_false_mono(s1: Seq<bool>, s2: Seq<bool>)
    requires
        s1.len() == s2.len(),
        forall|j: int| 0 <= j < s1.len() && s1[j] ==> s2[j],
    ensures
        count_false(s2) <= count_false(s1),
        (exists|j: int| 0 <= j < s1.len() && !s1[j] && s2[j]) ==> count_false(s2) < count_false(
            s1,
        ),
    decreases s1.len(),
{
    if s1.len() > 0 {
        lemma_count_false_mono(s1.drop_last(), s2.drop_last());
        if exists|j: int| 0 <= j < s1.len() && !s1[j] && s2[j] {
            let j = choose|j: int| 0 <= j < s1.len() && !s1[j] && s2[j];
            if j < s1.len() - 1 {
                assert(!s1.drop_last()[j] && s2.drop_last()[j]);
            }
        }
    }
}

proof fn lemma_add_contains<T>(x: Seq<T>, y: Seq<T>, v: T)
    ensures
        (x + y).contains(v) <==> x.contains(v) || y.contains(v),
{
    if x.contains(v) {
        let i = choose|i: int| 0 <= i < x.len() && x[i] == v;
        assert((x + y)[i] == v);
    }
    if y.contains(v) {
        let i = choose|i: int| 0 <= i < y.len() && y[i] == v;
        assert((x + y)[x.len() + i] == v);
    }
    if (x + y).contains(v) {
        let i = choose|i: int| 0 <= i < (x + y).len() && (x + y)[i] == v;
        if i < x.len() {
            assert(x[i] == v);
        } else {
            assert(y[i - x.len()] == v);
        }
    }
}

proof fn lemma_finite_bounded_usize(s: Set<usize>, n: nat)
    requires
        forall|x: usize| s.contains(x) ==> x < n,
    ensures
        s.finite(),
        s.len() <= n,
    decreases n,
{
    if n == 0 {
        assert(s =~= Set::<usize>::empty());
    } else {
        let top = (n - 1) as usize;
        let rest = s.remove(top);
        assert(forall|x: usize| rest.contains(x) ==> x < n - 1);
        lemma_finite_bounded_usize(rest, (n - 1) as nat);
        if s.contains(top) {
            assert(s =~= rest.insert(top));
        } else {
            assert(s =~= rest);
        }
    }
}

/// Conflict is symmetric in the two systems.
pub proof fn lemma_conflicts_symmetric(a: SystemDecl, b: SystemDecl)
    ensures
        conflicts(a, b) == conflicts(b, a),
{
    if conflicts(a, b) {
        let t = choose|t: AccessTag| conflict_on(a, b, t);
        assert(conflict_on(b, a, t));
    }
    if conflicts(b, a) {
        let t = choose|t: AccessTag| conflict_on(b, a, t);
        assert(conflict_on(a, b, t));
    }
}

/// Every "runs after" edge names a system index inside the list.
pub open spec fn deps_in_range(decls: Seq<SystemDecl>) -> bool {
    forall|a: int, k: int|
        0 <= a < decls.len() && 0 <= k < decls[a].after@.len() ==> (#[trigger] decls[a].after@[k])
            < decls.len()
}

/// An executable plan, produced by `build` and reused tick after tick;
/// rebuilding means constructing a new builder. The staged systems run in
/// `order` (the stages flattened); the thread-confined systems follow, on
/// the driver's own thread.
pub struct Dispatcher {
    pub kinds: Vec<SystemKind>,
    pub stages: Vec<Vec<usize>>,
    pub order: Vec<usize>,
    pub run_list: Vec<SystemKind>,
    pub locals: Vec<SystemKind>,
}

impl Dispatcher {
    /// The plan's internal consistency: `order` is the stages flattened,
    /// every index names a registered system, and `run_list` is the kinds
    /// along `order` followed by the thread-confined kinds.
    pub open spec fn wf(self) -> bool {
        &&& self.order@ == flatten_vecs(self.stages@)
        &&& forall|k: int|
            0 <= k < self.order@.len() ==> (#[trigger] self.order@[k]) < self.kinds@.len()
        &&& self.run_list@.len() == self.order@.len() + self.locals@.len()
        &&& forall|k: int|
            0 <= k < self.order@.len() ==> (#[trigger] self.run_list@[k]) == self.kinds@[self.order@[k] as int]
        &&& forall|l: int|
            0 <= l < self.locals@.len() ==> (#[trigger] self.locals@[l]) == self.run_list@[self.order@.len() + l]
    }
}

/// A dispatcher being assembled: it accepts system registrations until
/// `build` validates the graph and produces the immutable plan.
pub struct DispatcherBuilder {
    pub decls: Vec<SystemDecl>,
    pub locals: Vec<SystemKind>,
}

impl DispatcherBuilder {
    /// A builder with no systems yet.
    pub fn new() -> (r: DispatcherBuilder)
        ensures
            r.decls@.len() == 0,
            r.locals@.len() == 0,
    {
        DispatcherBuilder { decls: Vec::new(), locals: Vec::new() }
    }

    /// Registers a system with its "runs after" edges (indices of other
    /// registered systems, earlier or later); returns its index. The access
    /// sets are the kind's declared ones.
    pub fn add(&mut self, kind: SystemKind, after: Vec<usize>) -> (idx: usize)
        ensures
            idx == old(self).decls@.len(),
            final(self).decls@.len() == old(self).decls@.len() + 1,
            forall|j: int|
                0 <= j < old(self).decls@.len() ==> final(self).decls@[j] == old(self).decls@[j],
            final(self).decls@.last().kind == kind,
            final(self).decls@.last().reads@ == reads_of(kind),
            final(self).decls@.last().writes@ == writes_of(kind),
            final(self).decls@.last().after@ == after@,
            final(self).locals@ == old(self).locals@,
    {
        let idx = self.decls.len();
        let (reads, writes) = access_for(kind);
        self.decls.push(SystemDecl { kind, reads, writes, after });
        idx
    }

    /// Registers a thread-confined system: it joins no stage and always runs
    /// on the driver's thread, after every staged system.
    pub fn add_thread_local(&mut self, kind: SystemKind)
        ensures
            final(self).locals@ == old(self).locals@.push(kind),
            final(self).decls@ == old(self).decls@,
    {
        self.locals.push(kind);
    }

    /// Validates the graph and produces the plan. Rejected: an edge naming
    /// an index outside the list (`UnknownDependency`), and a graph whose
    /// "runs after" edges admit no execution order, that is, one containing
    /// a cycle (`CyclicGraph`). In the plan, every system stands in exactly
    /// one stage, the flattened order satisfies every edge front to back,
    /// and no two systems of one stage conflict or are joined by an edge.
    #[verifier::rlimit(100)]
    pub fn build(self) -> (r: Result<Dispatcher, EngineError>)
        ensures
            r == Err::<Dispatcher, EngineError>(EngineError::UnknownDependency) <==> !deps_in_range(
                self.decls@,
            ),
            deps_in_range(self.decls@) ==> (r is Ok <==> schedulable(self.decls@)),
            r is Err ==> r == Err::<Dispatcher, EngineError>(EngineError::UnknownDependency) || r
                == Err::<Dispatcher, EngineError>(EngineError::CyclicGraph),
            r is Ok ==> {
                let d = r.unwrap();
                &&& d.wf()
                &&& d.kinds@.len() == self.decls@.len()
                &&& forall|j: int|
                    0 <= j < self.decls@.len() ==> (#[trigger] d.kinds@[j]) == self.decls@[j].kind
                &&& d.locals@ == self.locals@
                &&& d.order@.no_duplicates()
                &&& covers(d.order@, self.decls@.len() as int)
                &&& respects(d.order@, self.decls@)
                &&& forall|si: int, p: int, q: int|
                    0 <= si < d.stages@.len() && 0 <= p < d.stages@[si]@.len() && 0 <= q
                        < d.stages@[si]@.len() && p != q ==> !conflicts(
                        self.decls@[(#[trigger] d.stages@[si]@[p]) as int],
                        self.decls@[(#[trigger] d.stages@[si]@[q]) as int],
                    ) && !has_edge(self.decls@, d.stages@[si]@[p], d.stages@[si]@[q])
            },
    {
        let n = self.decls.len();
        // Validate the "runs after" indices.
        let mut bad: bool = false;
        let mut vi: usize = 0;
        while vi < n && !bad
            invariant
                vi <= n,
                n == self.decls@.len(),
                !bad ==> forall|a: int, k: int|
                    0 <= a < vi && 0 <= k < self.decls@[a].after@.len() ==> (
                    #[trigger] self.decls@[a].after@[k]) < n,
                bad ==> !deps_in_range(self.decls@),
            decreases n - vi,
        {
            let mut k: usize = 0;
            let al = self.decls[vi].after.len();
            while k < al && !bad
                invariant
                    k <= al,
                    vi < n,
                    n == self.decls@.len(),
                    al == self.decls@[vi as int].after@.len(),
                    !bad ==> forall|a: int, k2: int|
                        0 <= a < vi && 0 <= k2 < self.decls@[a].after@.len() ==> (
                        #[trigger] self.decls@[a].after@[k2]) < n,
                    !bad ==> forall|k2: int|
                        0 <= k2 < k ==> (#[trigger] self.decls@[vi as int].after@[k2]) < n,
                    bad ==> !deps_in_range(self.decls@),
                decreases al - k,
            {
                if self.decls[vi].after[k] >= n {
                    proof {
                        assert(self.decls@[vi as int].after@[k as int] >= n);
                    }
                    bad = true;
                }
                k += 1;
            }
            vi += 1;
        }
        if bad {
            return Err(EngineError::UnknownDependency);
        }
        assert(deps_in_range(self.decls@));
        // Layered construction: repeatedly gather every system whose
        // predecessors are all placed, split the gathering by conflicts,
        // and place it as the next stage.
        let mut placed: Vec<bool> = vec![false; n];
        let mut stages_v: Vec<Vec<usize>> = Vec::new();
        let mut order: Vec<usize> = Vec::new();
        let mut done: bool = false;
        let mut stuck: bool = false;
        proof {
            assert(order@ =~= flatten_vecs(stages_v@));
        }
        while !done && !stuck
            invariant
                n == self.decls@.len(),
                deps_in_range(self.decls@),
                placed@.len() == n,
                forall|j: usize| j < n ==> #[trigger] placed@[j as int] == order@.contains(j),
                order@.no_duplicates(),
                forall|k: int| 0 <= k < order@.len() ==> (#[trigger] order@[k]) < n,
                respects(order@, self.decls@),
                forall|a: usize, b: usize|
                    #[trigger] has_edge(self.decls@, a, b) && b < n && placed@[b as int] ==> a < n
                        && placed@[a as int],
                order@ == flatten_vecs(stages_v@),
                forall|si: int, p: int|
                    0 <= si < stages_v@.len() && 0 <= p < stages_v@[si]@.len() ==> (
                    #[trigger] stages_v@[si]@[p]) < n,
                forall|si: int, p: int, q: int|
                    0 <= si < stages_v@.len() && 0 <= p < stages_v@[si]@.len() && 0 <= q
                        < stages_v@[si]@.len() && p != q ==> !conflicts(
                        self.decls@[(#[trigger] stages_v@[si]@[p]) as int],
                        self.decls@[(#[trigger] stages_v@[si]@[q]) as int],
                    ) && !has_edge(self.decls@, stages_v@[si]@[p], stages_v@[si]@[q]),
                done ==> forall|j: usize| j < n ==> placed@[j as int],
                stuck ==> exists|u: usize| u < n && !placed@[u as int],
                stuck ==> forall|j: usize|
                    j < n && !(#[trigger] placed@[j as int]) ==> exists|a: usize|
                        a < n && !placed@[a as int] && has_edge(self.decls@, a, j),
            decreases count_false(placed@) + (if done || stuck { 0int } else { 1int }),
        {
            let ghost placed0 = placed@;
            let ghost order0 = order@;
            // Gather a stage: unplaced systems whose predecessors are all
            // placed and that conflict with nothing gathered so far.
            let mut stage: Vec<usize> = Vec::new();
            let mut i: usize = 0;
            while i < n
                invariant
                    i <= n,
                    n == self.decls@.len(),
                    deps_in_range(self.decls@),
                    placed@ == placed0,
                    placed@.len() == n,
                    forall|p: int, q: int|
                        0 <= p < q < stage@.len() ==> (#[trigger] stage@[p]) < (
                        #[trigger] stage@[q]),
                    forall|p: int|
                        0 <= p < stage@.len() ==> (#[trigger] stage@[p]) < i && stage@[p] < n
                            && !placed@[stage@[p] as int],
                    forall|p: int, a: usize|
                        0 <= p < stage@.len() && #[trigger] has_edge(
                            self.decls@,
                            a,
                            #[trigger] stage@[p],
                        ) ==> placed@[a as int],
                    forall|p: int, q: int|
                        0 <= p < stage@.len() && 0 <= q < stage@.len() && p != q ==> !conflicts(
                            self.decls@[(#[trigger] stage@[p]) as int],
                            self.decls@[(#[trigger] stage@[q]) as int],
                        ),
                    forall|p: int, q: int|
                        0 <= p < stage@.len() && 0 <= q < stage@.len() ==> !has_edge(
                            self.decls@,
                            #[trigger] stage@[p],
                            #[trigger] stage@[q],
                        ),
                    stage@.len() == 0 ==> forall|j: usize|
                        j < i && !(#[trigger] placed@[j as int]) ==> exists|a: usize|
                            a < n && !placed@[a as int] && has_edge(self.decls@, a, j),
                decreases n - i,
            {
                if !placed[i] {
                    // Are all predecessors placed?
                    let mut ready: bool = true;
                    let mut k: usize = 0;
                    let al = self.decls[i].after.len();
                    while k < al && ready
                        invariant
                            k <= al,
                            i < n,
                            n == self.decls@.len(),
                            deps_in_range(self.decls@),
                            placed@ == placed0,
                            placed@.len() == n,
                            al == self.decls@[i as int].after@.len(),
                            ready ==> forall|k2: int|
                                0 <= k2 < k ==> placed@[(
                                #[trigger] self.decls@[i as int].after@[k2]) as int],
                            !ready ==> exists|a: usize|
                                a < n && !placed@[a as int] && has_edge(
                                    self.decls@,
                                    a,
                                    i as usize,
                                ),
                        decreases al - k,
                    {
                        let a = self.decls[i].after[k];
                        if !placed[a] {
                            proof {
                                assert(has_edge(self.decls@, a, i as usize));
                            }
                            ready = false;
                        }
                        k += 1;
                    }
                    if ready {
                        proof {
                            assert forall|a: usize| has_edge(self.decls@, a, i as usize) implies placed@[a as int] by {
                                let k2 = choose|k2: int|
                                    0 <= k2 < self.decls@[i as int].after@.len() && self.decls@[i as int].after@[k2] == a;
                                assert(placed@[(self.decls@[i as int].after@[k2]) as int]);
                            }
                        }
                        // Does it conflict with anything gathered so far?
                        let mut conf: bool = false;
                        let mut m: usize = 0;
                        while m < stage.len() && !conf
                            invariant
                                m <= stage@.len(),
                                n == self.decls@.len(),
                                i < n,
                                conf ==> stage@.len() > 0,
                                forall|p: int|
                                    0 <= p < stage@.len() ==> (#[trigger] stage@[p]) < n,
                                !conf ==> forall|p: int|
                                    0 <= p < m ==> !conflicts(
                                        self.decls@[(#[trigger] stage@[p]) as int],
                                        self.decls@[i as int],
                                    ),
                            decreases stage@.len() - m,
                        {
                            if conflicts_exec(&self.decls[stage[m]], &self.decls[i]) {
                                conf = true;
                            }
                            m += 1;
                        }
                        if !conf {
                            proof {
                                assert forall|p: int|
                                    0 <= p < stage@.len() implies !conflicts(
                                    self.decls@[(#[trigger] stage@[p]) as int],
                                    self.decls@[i as int],
                                ) && !conflicts(
                                    self.decls@[i as int],
                                    self.decls@[stage@[p] as int],
                                ) by {
                                    lemma_conflicts_symmetric(
                                        self.decls@[stage@[p] as int],
                                        self.decls@[i as int],
                                    );
                                }
                            }
                            stage.push(i);
                        }
                    }
                }
                i += 1;
            }
            if stage.len() == 0 {
                // Nothing was ready: either everything is placed, or every
                // unplaced system waits on an unplaced predecessor.
                let mut any: bool = false;
                let mut u: usize = 0;
                while u < n
                    invariant
                        u <= n,
                        placed@ == placed0,
                        placed@.len() == n,
                        any <==> exists|j: usize| j < u && !placed@[j as int],
                    decreases n - u,
                {
                    if !placed[u] {
                        any = true;
                    }
                    u += 1;
                }
                if any {
                    stuck = true;
                } else {
                    done = true;
                }
            } else {
                // Place the stage.
                let mut m: usize = 0;
                while m < stage.len()
                    invariant
                        m <= stage@.len(),
                        placed@.len() == n,
                        n == self.decls@.len(),
                        forall|p: int, q: int|
                            0 <= p < q < stage@.len() ==> (#[trigger] stage@[p]) < (
                            #[trigger] stage@[q]),
                        forall|p: int|
                            0 <= p < stage@.len() ==> (#[trigger] stage@[p]) < n
                                && !placed0[stage@[p] as int],
                        forall|p: int, a: usize|
                            0 <= p < stage@.len() && #[trigger] has_edge(
                                self.decls@,
                                a,
                                #[trigger] stage@[p],
                            ) ==> placed0[a as int],
                        order@ == order0 + stage@.take(m as int),
                        forall|j: usize|
                            j < n ==> #[trigger] placed@[j as int] == (placed0[j as int]
                                || stage@.take(m as int).contains(j)),
                    decreases stage@.len() - m,
                {
                    let s = stage[m];
                    placed[s] = true;
                    order.push(s);
                    proof {
                        assert(stage@.take(m + 1).drop_last() =~= stage@.take(m as int));
                        assert(stage@.take(m + 1).last() == stage@[m as int]);
                        assert(order@ =~= order0 + stage@.take(m + 1));
                        assert(stage@.take(m + 1) =~= stage@.take(m as int) + seq![stage@[m as int]]);
                        assert forall|j: usize| j < n implies #[trigger] placed@[j as int] == (
                        placed0[j as int] || stage@.take(m + 1).contains(j)) by {
                            lemma_add_contains(stage@.take(m as int), seq![stage@[m as int]], j);
                            assert(seq![stage@[m as int]][0] == stage@[m as int]);
                            assert(seq![stage@[m as int]].contains(j) <==> j == s);
                        }
                    }
                    m += 1;
                }
                proof {
                    assert(stage@.take(stage@.len() as int) =~= stage@);
                }
                let ghost stg = stage@;
                let ghost stages_old = stages_v@;
                stages_v.push(stage);
                proof {
                    // The flat order is the old one followed by the stage.
                    assert(order@ == order0 + stg);
                    assert(stages_v@.drop_last() =~= stages_old);
                    assert(flatten_vecs(stages_v@) == flatten_vecs(stages_old) + stg);
                    // Placement still mirrors membership in the order.
                    assert forall|j: usize| j < n implies #[trigger] placed@[j as int]
                        == order@.contains(j) by {
                        lemma_add_contains(order0, stg, j);
                        assert(stg.take(stg.len() as int) =~= stg);
                    }
                    // The order stays duplicate-free: the stage is strictly
                    // increasing and disjoint from what was placed before.
                    assert forall|p: int, q: int| 0 <= p < q < order@.len() implies order@[p]
                        != order@[q] by {
                        if p < order0.len() && q >= order0.len() {
                            assert(order@[q] == stg[q - order0.len()]);
                            if order@[p] == order@[q] {
                                assert(order0.contains(stg[q - order0.len()]));
                                assert(placed0[stg[q - order0.len()] as int]);
                            }
                        }
                    }
                    // Every edge still points forward.
                    assert forall|p: int, q: int|
                        0 <= p < order@.len() && 0 <= q < order@.len() && #[trigger] has_edge(
                            self.decls@,
                            order@[p],
                            order@[q],
                        ) implies p < q by {
                        if q < order0.len() {
                            if p >= order0.len() {
                                assert(order@[p] == stg[p - order0.len()]);
                                assert(placed0[order@[q] as int]);
                                assert(placed0[order@[p] as int]);
                            }
                        } else {
                            if p >= order0.len() {
                                assert(!has_edge(
                                    self.decls@,
                                    stg[p - order0.len()],
                                    stg[q - order0.len()],
                                ));
                            }
                        }
                    }
                    // Predecessors of anything placed are placed.
                    assert forall|a: usize, b: usize|
                        #[trigger] has_edge(self.decls@, a, b) && b < n && placed@[b as int] implies a
                        < n && placed@[a as int] by {
                        let k3 = choose|k3: int|
                            0 <= k3 < self.decls@[b as int].after@.len()
                                && self.decls@[b as int].after@[k3] == a;
                        assert(self.decls@[b as int].after@[k3] < n);
                        if placed0[b as int] {
                        } else {
                            assert(stg.contains(b));
                            let p = choose|p: int| 0 <= p < stg.len() && stg[p] == b;
                            assert(placed0[a as int]);
                        }
                    }
                    // One placement became true, so the count went down.
                    lemma_count_false_mono(placed0, placed@);
                    assert(stg.contains(stg[0]));
                    assert(!placed0[stg[0] as int] && placed@[stg[0] as int]);
                }
            }
        }
        if stuck {
            proof {
                let s = Set::new(|x: usize| x < n && !placed@[x as int]);
                let u = choose|u: usize| u < n && !placed@[u as int];
                assert(s.contains(u));
                lemma_finite_bounded_usize(s, n as nat);
                assert forall|x: usize| s.contains(x) implies exists|a: usize|
                    s.contains(a) && #[trigger] has_edge(self.decls@, a, x) by {
                    let a = choose|a: usize|
                        a < n && !placed@[a as int] && has_edge(self.decls@, a, x);
                    assert(s.contains(a));
                }
                lemma_blocked_set_unschedulable(self.decls@, s, u);
            }
            return Err(EngineError::CyclicGraph);
        }
        // Everything is placed: the flat order is a witness schedule.
        proof {
            assert forall|x: usize| x < n implies order@.contains(x) by {
                assert(placed@[x as int]);
            }
            assert(covers(order@, self.decls@.len() as int));
            assert(schedulable(self.decls@));
        }
        let mut kinds: Vec<SystemKind> = Vec::new();
        let mut j: usize = 0;
        while j < n
            invariant
                j <= n,
                n == self.decls@.len(),
                kinds@.len() == j,
                forall|p: int| 0 <= p < j ==> (#[trigger] kinds@[p]) == self.decls@[p].kind,
            decreases n - j,
        {
            kinds.push(self.decls[j].kind);
            j += 1;
        }
        let mut run_list: Vec<SystemKind> = Vec::new();
        let mut k2: usize = 0;
        while k2 < order.len()
            invariant
                k2 <= order@.len(),
                kinds@.len() == n,
                forall|p: int| 0 <= p < order@.len() ==> (#[trigger] order@[p]) < n,
                run_list@.len() == k2,
                forall|p: int|
                    0 <= p < k2 ==> (#[trigger] run_list@[p]) == kinds@[order@[p] as int],
            decreases order@.len() - k2,
        {
            run_list.push(kinds[order[k2]]);
            k2 += 1;
        }
        let mut l: usize = 0;
        let ghost base = run_list@.len();
        while l < self.locals.len()
            invariant
                l <= self.locals@.len(),
                run_list@.len() == base + l,
                forall|p: int| 0 <= p < base ==> #[trigger] run_list@[p] == kinds@[order@[p] as int],
                base == order@.len(),
                kinds@.len() == n,
                forall|p: int| 0 <= p < order@.len() ==> (#[trigger] order@[p]) < n,
                forall|p: int|
                    0 <= p < l ==> (#[trigger] self.locals@[p]) == run_list@[base + p],
            decreases self.locals@.len() - l,
        {
            run_list.push(self.locals[l]);
            l += 1;
        }
        Ok(Dispatcher { kinds, stages: stages_v, order, run_list, locals: self.locals })
    }
}

} // verus!
