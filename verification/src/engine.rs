//! The memoization engine: per-query memo table, inputs, and the red/green
//! validation algorithm.
//!
//! Queries form a directed graph given by static definitions: each query's
//! value is the wrapping sum of its dependencies' values plus a constant.
//! `fetch` consults the memo for a query and, when the memo cannot be
//! revalidated cheaply (same revision, or durability check, or a deep walk of
//! the recorded dependencies), re-executes the query, recording dependencies
//! and the minimum durability, and preserving `changed_at` when the new value
//! equals the old one.
//!
//! The engine is a sequential model of the concurrent table: one thread, one
//! explicit active-query stack. Cycles in the dependency graph are detected
//! when a query is reached while already on the active stack; recovery is
//! per-query (error out, or supply a fallback value and tag the memos written
//! under the cycle as participants, forcing re-execution in later revisions).
//!
//! What `fetch`'s contract pins down:
//! - a memo verified at the current revision answers every further fetch of
//!   that revision unchanged, and is never rewritten within the revision
//!   (idempotence on a stable revision);
//! - a memo whose durability check passes answers without touching any other
//!   memo or execution counter (the durability skip);
//! - a query whose dependencies are all unchanged inputs is revalidated
//!   without executing anything (minimal recomputation, proved here for
//!   input-only dependency lists);
//! - when the function does run outside a cycle, the result is exactly the
//!   wrapping sum of the current dependency values plus the addend, and a
//!   fetch that does not run it returns exactly the memoized value;
//! - a reported cycle is a real cycle of the dependency graph, so an acyclic
//!   graph can never produce a cycle error.

use vstd::prelude::*;

use crate::revision::{Clock, Durability};

verus! {

/// A dependency edge target: an input cell or another query.
#[derive(Clone, Copy, PartialEq, Eq, Structural, Debug)]
pub enum DepRef {
    Input { index: usize },
    Query { index: usize },
}

/// What to do when this query is found on the active stack.
#[derive(Clone, Copy, PartialEq, Eq, Structural, Debug)]
pub enum CycleHandling {
    /// Report the cycle to the caller as an error.
    Panic,
    /// Every participant observes the fallback value; their memos are tagged
    /// as cycle participants.
    Fallback(u64),
}

/// Static definition of a derived query: the value is the wrapping sum of the
/// dependency values plus `addend`.
pub struct QueryDef {
    pub deps: Vec<DepRef>,
    pub addend: u64,
    /// An untracked read inside the query forces re-execution whenever the
    /// memo is not already verified at the current revision.
    pub untracked: bool,
    pub cycle: CycleHandling,
}

/// How a memo came to be.
#[derive(Clone, Copy, PartialEq, Eq, Structural, Debug)]
pub enum QueryOrigin {
    /// Computed by executing the query function; dependencies were recorded.
    Derived,
    /// Written by `specify`.
    Assigned,
}

/// A memoized result for one query.
pub struct Memo {
    /// The last computed output.
    pub value: u64,
    /// Revision at which the value was last known correct.
    pub verified_at: u64,
    /// Latest revision at which the value actually changed.
    pub changed_at: u64,
    /// Minimum durability across the recorded dependencies.
    pub durability: Durability,
    pub origin: QueryOrigin,
    /// The memo was produced under a dependency cycle; it must be
    /// re-executed, not revalidated, in later revisions.
    pub cycle_participant: bool,
    /// Dependency edges recorded during execution, in read order.
    pub deps: Vec<DepRef>,
}

/// An externally-set value, stamped with the revision of its last change.
#[derive(Clone, Copy, PartialEq, Eq, Structural, Debug)]
pub struct InputCell {
    pub value: u64,
    pub changed_at: u64,
    pub durability: Durability,
}

/// A dependency cycle, as the queries that form it, in encounter order.
#[derive(Debug)]
pub struct CycleError {
    pub participants: Vec<usize>,
}

/// The sequential memoization engine: clock, inputs, query definitions and
/// one memo slot per query.
pub struct Engine {
    pub clock: Clock,
    pub inputs: Vec<InputCell>,
    pub defs: Vec<QueryDef>,
    pub memos: Vec<Option<Memo>>,
    /// How many times each query's function has executed.
    pub exec_count: Vec<u64>,
}

/// The dependency reference is in range for the given table sizes.
pub open spec fn dep_in_range(defs_len: int, inputs_len: int, d: DepRef) -> bool {
    match d {
        DepRef::Input { index } => index < inputs_len,
        DepRef::Query { index } => index < defs_len,
    }
}

/// Every dependency of every definition is in range.
pub open spec fn defs_wf(defs: Seq<QueryDef>, inputs_len: int) -> bool {
    forall|q: int, j: int|
        0 <= q < defs.len() && 0 <= j < defs[q].deps@.len() ==> dep_in_range(
            defs.len() as int,
            inputs_len,
            #[trigger] defs[q].deps@[j],
        )
}

/// Query `b` is a direct dependency of query `a`.
pub open spec fn edge(defs: Seq<QueryDef>, a: usize, b: usize) -> bool {
    a < defs.len() && defs[a as int].deps@.contains(DepRef::Query { index: b })
}

/// The active-query stack is a duplicate-free path in the dependency graph.
pub open spec fn stack_wf(defs: Seq<QueryDef>, s: Seq<usize>) -> bool {
    &&& forall|i: int| 0 <= i < s.len() ==> (#[trigger] s[i]) < defs.len()
    &&& s.no_duplicates()
    &&& forall|i: int| 0 <= i < s.len() - 1 ==> edge(defs, #[trigger] s[i], s[i + 1])
}

/// Every dependency of query `q` is an input whose last change is at or
/// before revision `r`: nothing on `q`'s dependency paths has changed since
/// `r`.
pub open spec fn input_deps_fresh(db: Engine, q: int, r: u64) -> bool {
    forall|j: int|
        0 <= j < db.defs@[q].deps@.len() ==> ((#[trigger] db.defs@[q].deps@[j]) matches
            DepRef::Input { index } && db.inputs@[index as int].changed_at <= r)
}

/// The value one dependency contributes, as the current state shows it: an
/// input's value, or the memoized value of the dependency query.
pub open spec fn dep_value(db: Engine, d: DepRef) -> u64 {
    match d {
        DepRef::Input { index } => db.inputs@[index as int].value,
        DepRef::Query { index } => db.memos@[index as int]->Some_0.value,
    }
}

/// The wrapping sum of the first `j` dependency values of query `q`, plus
/// its addend: what executing the query's function computes from the current
/// state.
pub open spec fn step_prefix(db: Engine, q: int, j: int) -> u64
    decreases j,
{
    if j <= 0 {
        db.defs@[q].addend
    } else {
        vstd::wrapping::u64_specs::wrapping_add(
            step_prefix(db, q, j - 1),
            dep_value(db, db.defs@[q].deps@[j - 1]),
        )
    }
}

/// The value that executing query `q` computes from the current state.
pub open spec fn step_value(db: Engine, q: int) -> u64 {
    step_prefix(db, q, db.defs@[q].deps@.len() as int)
}

/// The durability one dependency reports: an input's own durability, or the
/// durability recorded on the dependency query's memo.
pub open spec fn dep_durability(db: Engine, d: DepRef) -> Durability {
    match d {
        DepRef::Input { index } => db.inputs@[index as int].durability,
        DepRef::Query { index } => db.memos@[index as int]->Some_0.durability,
    }
}

/// The minimum durability over the first `j` dependencies of query `q`:
/// what execution accumulates while reading them.
pub open spec fn dur_prefix(db: Engine, q: int, j: int) -> Durability
    decreases j,
{
    if j <= 0 {
        Durability::High
    } else {
        let a = dur_prefix(db, q, j - 1);
        let b = dep_durability(db, db.defs@[q].deps@[j - 1]);
        if a.level() <= b.level() {
            a
        } else {
            b
        }
    }
}

/// The minimum durability over all of query `q`'s dependencies, as the
/// current state reports them.
pub open spec fn recorded_durability(db: Engine, q: int) -> Durability {
    dur_prefix(db, q, db.defs@[q].deps@.len() as int)
}

/// Dependency `j` of query `q` is an input that changed after revision `r`,
/// and everything read before it is an input unchanged since `r`: deep
/// verification walks the dependencies in order, so it must find this one.
pub open spec fn stale_input_at(db: Engine, q: int, r: u64, j: int) -> bool {
    &&& 0 <= j < db.defs@[q].deps@.len()
    &&& (db.defs@[q].deps@[j] matches DepRef::Input { index } && db.inputs@[index as int].changed_at
        > r)
    &&& forall|j2: int|
        0 <= j2 < j ==> ((#[trigger] db.defs@[q].deps@[j2]) matches DepRef::Input { index }
            && db.inputs@[index as int].changed_at <= r)
}

/// Some dependency of `q` is a changed input preceded only by unchanged
/// inputs.
pub open spec fn stale_input_first(db: Engine, q: int, r: u64) -> bool {
    exists|j: int| stale_input_at(db, q, r, j)
}

/// The bookkeeping one validation of `q` guarantees, independent of the
/// returned value: which situations force the query function to run, what an
/// execution writes, and that memos (and execution counters) of queries
/// already verified at this revision are left alone.
pub open spec fn validated_transition(pre: Engine, post: Engine, q: int, ok: bool) -> bool {
    &&& forall|k: int|
        #![trigger post.memos@[k]]
        0 <= k < pre.memos@.len() ==> (pre.memos@[k] matches Some(m) ==> (m.verified_at
            == pre.clock.current ==> (post.memos@[k] == pre.memos@[k] && post.exec_count@[k]
            == pre.exec_count@[k])))
    &&& (ok && pre.memos@[q] is None) ==> post.exec_count@[q] == pre.exec_count@[q] + 1
    &&& (pre.memos@[q] matches Some(m) ==> ((ok && m.origin is Derived && m.verified_at
        < pre.clock.current && (m.cycle_participant || pre.defs@[q].untracked || (pre.clock.sub(
        m.durability,
    ) > m.verified_at && stale_input_first(pre, q, m.verified_at)))) ==> post.exec_count@[q]
        == pre.exec_count@[q] + 1))
    &&& (ok && post.exec_count@[q] != pre.exec_count@[q]) ==> (post.memos@[q] matches Some(m2)
        && m2.verified_at == post.clock.current && m2.origin is Derived && m2.changed_at == (
        match pre.memos@[q] {
            Some(m0) => if m0.value == m2.value {
                m0.changed_at
            } else {
                pre.clock.current
            },
            None => pre.clock.current,
        }) && (!m2.cycle_participant ==> m2.durability == recorded_durability(post, q)))
}

/// Two states showing the same values and durabilities for the first `j`
/// dependencies of `q` agree on what its execution computes and records.
proof fn lemma_step_prefix_same(db1: Engine, db2: Engine, q: int, j: int)
    requires
        db2.defs@ == db1.defs@,
        0 <= q < db1.defs@.len(),
        j <= db1.defs@[q].deps@.len(),
        forall|j2: int|
            0 <= j2 < j ==> (dep_value(db2, #[trigger] db1.defs@[q].deps@[j2]) == dep_value(
                db1,
                db1.defs@[q].deps@[j2],
            ) && dep_durability(db2, db1.defs@[q].deps@[j2]) == dep_durability(
                db1,
                db1.defs@[q].deps@[j2],
            )),
    ensures
        step_prefix(db2, q, j) == step_prefix(db1, q, j),
        dur_prefix(db2, q, j) == dur_prefix(db1, q, j),
    decreases j,
{
    if j > 0 {
        lemma_step_prefix_same(db1, db2, q, j - 1);
    }
}

/// `c` is a cycle in the dependency graph: consecutive elements are edges,
/// and the last element has an edge back to the first.
pub open spec fn is_cycle(defs: Seq<QueryDef>, c: Seq<usize>) -> bool {
    &&& c.len() >= 1
    &&& forall|i: int| 0 <= i < c.len() ==> (#[trigger] c[i]) < defs.len()
    &&& forall|i: int| 0 <= i < c.len() - 1 ==> edge(defs, #[trigger] c[i], c[i + 1])
    &&& edge(defs, c[c.len() - 1], c[0])
}

/// A duplicate-free sequence of indices below `n` has at most `n` elements.
pub proof fn lemma_distinct_bounded(s: Seq<usize>, n: nat)
    requires
        s.no_duplicates(),
        forall|i: int| 0 <= i < s.len() ==> (#[trigger] s[i]) < n,
    ensures
        s.len() <= n,
{
    let f = |x: usize| x as int;
    assert(vstd::relations::injective(f)) by {
        assert forall|x: usize, y: usize| #[trigger] f(x) == #[trigger] f(y) implies x == y by {}
    }
    s.lemma_no_duplicates_injective(f);
    let t = s.map_values(f);
    t.unique_seq_to_set();
    assert(t.to_set().subset_of(vstd::set_lib::set_int_range(0, n as int))) by {
        assert forall|x: int| t.to_set().contains(x) implies 0 <= x < n by {
            let i = choose|i: int| 0 <= i < t.len() && t[i] == x;
            assert(s[i] < n);
        }
    }
    vstd::set_lib::lemma_int_range(0, n as int);
    vstd::set_lib::lemma_len_subset(t.to_set(), vstd::set_lib::set_int_range(0, n as int));
}

/// Find some position of `q` on the stack.
fn stack_find(stack: &Vec<usize>, q: usize) -> (r: Option<usize>)
    ensures
        match r {
            Some(j) => j < stack@.len() && stack@[j as int] == q,
            None => !stack@.contains(q),
        },
{
    let mut j: usize = 0;
    while j < stack.len()
        invariant
            j <= stack@.len(),
            forall|i: int| 0 <= i < j ==> stack@[i] != q,
        decreases stack@.len() - j,
    {
        if stack[j] == q {
            return Some(j);
        }
        j = j + 1;
    }
    None
}

/// Copy the tail of the stack from position `j` on.
fn stack_suffix(stack: &Vec<usize>, j: usize) -> (r: Vec<usize>)
    requires
        j < stack@.len(),
    ensures
        r@ == stack@.subrange(j as int, stack@.len() as int),
{
    let mut r: Vec<usize> = Vec::new();
    let mut i: usize = j;
    while i < stack.len()
        invariant
            j <= i <= stack@.len(),
            r@ == stack@.subrange(j as int, i as int),
        decreases stack@.len() - i,
    {
        r.push(stack[i]);
        proof {
            assert(r@ =~= stack@.subrange(j as int, i as int + 1));
        }
        i = i + 1;
    }
    r
}

/// Copy a dependency list.
fn clone_deps(v: &Vec<DepRef>) -> (r: Vec<DepRef>)
    ensures
        r@ == v@,
{
    let mut r: Vec<DepRef> = Vec::new();
    let mut i: usize = 0;
    while i < v.len()
        invariant
            i <= v@.len(),
            r@ == v@.subrange(0, i as int),
        decreases v@.len() - i,
    {
        r.push(v[i]);
        proof {
            assert(r@ =~= v@.subrange(0, i as int + 1));
        }
        i = i + 1;
    }
    proof {
        assert(v@.subrange(0, v@.len() as int) =~= v@);
    }
    r
}

/// Pushing keeps every element of a sequence.
proof fn lemma_push_contains<A>(s: Seq<A>, x: A, y: A)
    requires
        s.contains(y),
    ensures
        s.push(x).contains(y),
{
    let i = choose|i: int| 0 <= i < s.len() && s[i] == y;
    assert(s.push(x)[i] == y);
}

/// Pushing a fresh query onto a well-formed stack along an edge keeps the
/// stack well-formed.
proof fn lemma_stack_push(defs: Seq<QueryDef>, s: Seq<usize>, q: usize)
    requires
        stack_wf(defs, s),
        q < defs.len(),
        !s.contains(q),
        s.len() > 0 ==> edge(defs, s[s.len() - 1], q),
    ensures
        stack_wf(defs, s.push(q)),
{
    let s1 = s.push(q);
    assert forall|i: int| 0 <= i < s1.len() implies (#[trigger] s1[i]) < defs.len() by {
        if i < s.len() {
            assert(s1[i] == s[i]);
        }
    }
    assert(s1.no_duplicates()) by {
        assert forall|i: int, j: int|
            0 <= i < s1.len() && 0 <= j < s1.len() && i != j implies s1[i] != s1[j] by {
            if i < s.len() && j < s.len() {
            } else if i < s.len() {
                assert(s1[j] == q);
                assert(s.contains(s[i]));
            } else if j < s.len() {
                assert(s1[i] == q);
                assert(s.contains(s[j]));
            }
        }
    }
    assert forall|i: int| 0 <= i < s1.len() - 1 implies edge(defs, #[trigger] s1[i], s1[i + 1]) by {
        if i < s.len() - 1 {
            assert(edge(defs, s[i], s[i + 1]));
        } else {
            assert(s1[i] == s[s.len() - 1]);
            assert(s1[i + 1] == q);
        }
    }
}

/// Replacing one memo slot with one that satisfies the slot invariant and is
/// verified at the current revision, while the clock, the inputs and the
/// definitions stay put, preserves the engine invariant.
proof fn lemma_wf_update_memo(pre: Engine, post: Engine, q: int)
    requires
        pre.wf(),
        0 <= q < pre.memos@.len(),
        post.clock == pre.clock,
        post.defs@ == pre.defs@,
        post.inputs@ == pre.inputs@,
        post.memos@.len() == pre.memos@.len(),
        post.exec_count@.len() == pre.exec_count@.len(),
        forall|k: int| 0 <= k < pre.memos@.len() && k != q ==> post.memos@[k] == pre.memos@[k],
        forall|k: int|
            0 <= k < pre.exec_count@.len() && k != q ==> post.exec_count@[k] == pre.exec_count@[k],
        post.exec_count@[q] <= post.clock.current,
        post.memo_wf(q),
        post.memos@[q] matches Some(m) && m.verified_at == post.clock.current,
    ensures
        post.wf(),
{
    assert forall|k: int| 0 <= k < post.memos@.len() implies post.memo_wf(k) by {
        if k != q {
            assert(pre.memo_wf(k));
        }
    }
    assert forall|i: int|
        0 <= i < post.inputs@.len() implies (#[trigger] post.inputs@[i]).changed_at
        <= post.clock.sub(post.inputs@[i].durability) by {
        assert(pre.inputs@[i].changed_at <= pre.clock.sub(pre.inputs@[i].durability));
    }
    assert forall|k: int|
        0 <= k < post.defs@.len() implies (#[trigger] post.exec_count@[k])
        <= post.clock.current by {
        if k != q {
            assert(pre.exec_count@[k] <= pre.clock.current);
        }
    }
    assert forall|k: int|
        0 <= k < post.defs@.len() && (post.memos@[k] is None || post.memos@[k]->Some_0.verified_at
            < post.clock.current) implies (#[trigger] post.exec_count@[k])
        < post.clock.current by {
        if k != q {
            assert(pre.exec_count@[k] <= pre.clock.current);
            assert(pre.memos@[k] is None || pre.memos@[k]->Some_0.verified_at
                < pre.clock.current);
        }
    }
}

impl Engine {
    /// Well-formedness of one memo slot.
    pub open spec fn memo_wf(self, q: int) -> bool {
        match self.memos@[q] {
            None => true,
            Some(m) => {
                &&& m.changed_at <= m.verified_at
                &&& m.verified_at <= self.clock.current
                &&& match m.origin {
                    QueryOrigin::Assigned => {
                        &&& m.deps@.len() == 0
                        &&& m.changed_at <= self.clock.sub(Durability::High)
                        &&& m.durability is High
                        &&& !m.cycle_participant
                    },
                    QueryOrigin::Derived => m.deps@ == self.defs@[q].deps@,
                }
            },
        }
    }

    /// The engine invariant.
    pub open spec fn wf(self) -> bool {
        &&& self.clock.wf()
        &&& self.clock.current >= 1
        &&& self.memos@.len() == self.defs@.len()
        &&& self.exec_count@.len() == self.defs@.len()
        &&& defs_wf(self.defs@, self.inputs@.len() as int)
        &&& forall|i: int|
            0 <= i < self.inputs@.len() ==> (#[trigger] self.inputs@[i]).changed_at
                <= self.clock.sub(self.inputs@[i].durability)
        &&& forall|q: int| 0 <= q < self.memos@.len() ==> self.memo_wf(q)
        &&& forall|q: int|
            0 <= q < self.defs@.len() ==> (#[trigger] self.exec_count@[q]) <= self.clock.current
        &&& forall|q: int|
            0 <= q < self.defs@.len() && (self.memos@[q] is None
                || (#[trigger] self.memos@[q])->Some_0.verified_at < self.clock.current)
                ==> self.exec_count@[q] < self.clock.current
    }

    /// An empty engine at revision 1.
    pub fn new() -> (r: Engine)
        ensures
            r.wf(),
            r.clock.current == 1,
            r.inputs@.len() == 0,
            r.defs@.len() == 0,
    {
        Engine {
            clock: Clock { current: 1, low: 1, medium: 1, high: 1 },
            inputs: Vec::new(),
            defs: Vec::new(),
            memos: Vec::new(),
            exec_count: Vec::new(),
        }
    }

    /// Create a new input with the given value and durability. Creating an
    /// input is a write: the revision is bumped and the cell is stamped with
    /// the new revision.
    pub fn add_input(&mut self, value: u64, durability: Durability) -> (r: usize)
        requires
            old(self).wf(),
            old(self).clock.current < u64::MAX,
        ensures
            final(self).wf(),
            r == old(self).inputs@.len(),
            final(self).inputs@.len() == old(self).inputs@.len() + 1,
            final(self).inputs@[r as int] == (InputCell {
                value,
                changed_at: final(self).clock.current,
                durability,
            }),
            final(self).defs@ == old(self).defs@,
            final(self).memos@ == old(self).memos@,
            final(self).exec_count@ == old(self).exec_count@,
            final(self).clock.current == old(self).clock.current + 1,
            forall|i: int|
                0 <= i < old(self).inputs@.len() ==> final(self).inputs@[i] == old(self).inputs@[i],
    {
        self.clock.bump(durability);
        let id = self.inputs.len();
        let cell = InputCell { value, changed_at: self.clock.current(), durability };
        self.inputs.push(cell);
        proof {
            let pre = *old(self);
            assert forall|q: int| 0 <= q < self.memos@.len() implies self.memo_wf(q) by {
                assert(pre.memo_wf(q));
            }
            assert forall|i: int|
                0 <= i < self.inputs@.len() implies (#[trigger] self.inputs@[i]).changed_at
                <= self.clock.sub(self.inputs@[i].durability) by {
                if i < pre.inputs@.len() {
                    assert(pre.inputs@[i].changed_at <= pre.clock.sub(pre.inputs@[i].durability));
                }
            }
            assert forall|q: int|
                0 <= q < self.defs@.len() implies (#[trigger] self.exec_count@[q])
                <= self.clock.current by {
                assert(pre.exec_count@[q] <= pre.clock.current);
            }
            assert forall|q: int|
                0 <= q < self.defs@.len() && (self.memos@[q] is None
                    || self.memos@[q]->Some_0.verified_at < self.clock.current) implies (
            #[trigger] self.exec_count@[q]) < self.clock.current by {
                assert(pre.exec_count@[q] <= pre.clock.current);
            }
            assert(defs_wf(self.defs@, self.inputs@.len() as int)) by {
                assert forall|q: int, j: int|
                    0 <= q < self.defs@.len() && 0 <= j < self.defs@[q].deps@.len() implies
                    dep_in_range(
                    self.defs@.len() as int,
                    self.inputs@.len() as int,
                    #[trigger] self.defs@[q].deps@[j],
                ) by {
                    assert(dep_in_range(
                        pre.defs@.len() as int,
                        pre.inputs@.len() as int,
                        pre.defs@[q].deps@[j],
                    ));
                }
            }
        }
        id
    }

    /// Register a derived query. Registration is not a write: the clock does
    /// not move.
    pub fn add_query(&mut self, deps: Vec<DepRef>, addend: u64, untracked: bool, cycle:
        CycleHandling) -> (r: usize)
        requires
            old(self).wf(),
            forall|j: int|
                0 <= j < deps@.len() ==> dep_in_range(
                    old(self).defs@.len() as int + 1,
                    old(self).inputs@.len() as int,
                    #[trigger] deps@[j],
                ),
        ensures
            final(self).wf(),
            r == old(self).defs@.len(),
            final(self).defs@.len() == old(self).defs@.len() + 1,
            final(self).defs@[r as int].deps@ == deps@,
            final(self).defs@[r as int].addend == addend,
            final(self).defs@[r as int].untracked == untracked,
            final(self).defs@[r as int].cycle == cycle,
            final(self).inputs@ == old(self).inputs@,
            final(self).clock == old(self).clock,
            final(self).memos@ == old(self).memos@.push(None::<Memo>),
            final(self).exec_count@ == old(self).exec_count@.push(0u64),
            forall|k: int| 0 <= k < old(self).defs@.len() ==> final(self).defs@[k] == old(self).defs@[k],
    {
        let ghost deps0 = deps@;
        let id = self.defs.len();
        self.defs.push(QueryDef { deps, addend, untracked, cycle });
        self.memos.push(None);
        self.exec_count.push(0);
        proof {
            let pre = *old(self);
            assert forall|q: int| 0 <= q < self.memos@.len() implies self.memo_wf(q) by {
                if q < pre.memos@.len() {
                    assert(pre.memo_wf(q));
                    assert(self.defs@[q] == pre.defs@[q]);
                }
            }
            assert forall|q: int|
                0 <= q < self.defs@.len() implies (#[trigger] self.exec_count@[q])
                <= self.clock.current by {
                if q < pre.defs@.len() {
                    assert(pre.exec_count@[q] <= pre.clock.current);
                }
            }
            assert forall|q: int|
                0 <= q < self.defs@.len() && (self.memos@[q] is None
                    || self.memos@[q]->Some_0.verified_at < self.clock.current) implies (
            #[trigger] self.exec_count@[q]) < self.clock.current by {
                if q < pre.defs@.len() {
                    assert(pre.exec_count@[q] <= pre.clock.current);
                    assert(pre.memos@[q] is None || pre.memos@[q]->Some_0.verified_at
                        < pre.clock.current);
                }
            }
            assert(defs_wf(self.defs@, self.inputs@.len() as int)) by {
                assert forall|q: int, j: int|
                    0 <= q < self.defs@.len() && 0 <= j < self.defs@[q].deps@.len() implies
                    dep_in_range(
                    self.defs@.len() as int,
                    self.inputs@.len() as int,
                    #[trigger] self.defs@[q].deps@[j],
                ) by {
                    if q < pre.defs@.len() {
                        assert(dep_in_range(
                            pre.defs@.len() as int,
                            pre.inputs@.len() as int,
                            pre.defs@[q].deps@[j],
                        ));
                    } else {
                        assert(self.defs@[q].deps@[j] == deps0[j]);
                    }
                }
            }
        }
        id
    }

    /// Set an input's value and durability. The revision is bumped at the
    /// larger of the old and the new durability (lowering an input's
    /// durability still invalidates everything that relied on the old level),
    /// and the cell is stamped with the new revision.
    pub fn set_input(&mut self, id: usize, value: u64, durability: Durability)
        requires
            old(self).wf(),
            id < old(self).inputs@.len(),
            old(self).clock.current < u64::MAX,
        ensures
            final(self).wf(),
            final(self).clock.current == old(self).clock.current + 1,
            final(self).inputs@.len() == old(self).inputs@.len(),
            final(self).inputs@[id as int] == (InputCell {
                value,
                changed_at: final(self).clock.current,
                durability,
            }),
            forall|i: int|
                0 <= i < old(self).inputs@.len() && i != id ==> final(self).inputs@[i] == old(
                    self).inputs@[i],
            final(self).defs@ == old(self).defs@,
            final(self).memos@ == old(self).memos@,
            final(self).exec_count@ == old(self).exec_count@,
    {
        let old_durability = self.inputs[id].durability;
        let bump_at = if old_durability.as_index() >= durability.as_index() {
            old_durability
        } else {
            durability
        };
        self.clock.bump(bump_at);
        let cell = InputCell { value, changed_at: self.clock.current(), durability };
        self.inputs[id] = cell;
        proof {
            let pre = *old(self);
            assert forall|q: int| 0 <= q < self.memos@.len() implies self.memo_wf(q) by {
                assert(pre.memo_wf(q));
            }
            assert forall|i: int|
                0 <= i < self.inputs@.len() implies (#[trigger] self.inputs@[i]).changed_at
                <= self.clock.sub(self.inputs@[i].durability) by {
                if i != id {
                    assert(pre.inputs@[i].changed_at <= pre.clock.sub(pre.inputs@[i].durability));
                } else {
                    assert(durability.le(bump_at));
                }
            }
            assert forall|q: int|
                0 <= q < self.defs@.len() implies (#[trigger] self.exec_count@[q])
                <= self.clock.current by {
                assert(pre.exec_count@[q] <= pre.clock.current);
            }
            assert forall|q: int|
                0 <= q < self.defs@.len() && (self.memos@[q] is None
                    || self.memos@[q]->Some_0.verified_at < self.clock.current) implies (
            #[trigger] self.exec_count@[q]) < self.clock.current by {
                assert(pre.exec_count@[q] <= pre.clock.current);
            }
        }
    }

    /// Read an input's current value.
    pub fn input_value(&self, id: usize) -> (r: u64)
        requires
            id < self.inputs@.len(),
        ensures
            r == self.inputs@[id as int].value,
    {
        self.inputs[id].value
    }

    /// Bump the revision as if an input of durability `d` had been written,
    /// without changing any value. Sub-revisions above `d` do not move, so
    /// memos of higher durability still pass the durability check.
    pub fn synthetic_write(&mut self, d: Durability)
        requires
            old(self).wf(),
            old(self).clock.current < u64::MAX,
        ensures
            final(self).wf(),
            final(self).clock.current == old(self).clock.current + 1,
            forall|e: Durability|
                d.level() < e.level() ==> final(self).clock.sub(e) == old(self).clock.sub(e),
            final(self).inputs@ == old(self).inputs@,
            final(self).defs@ == old(self).defs@,
            final(self).memos@ == old(self).memos@,
            final(self).exec_count@ == old(self).exec_count@,
    {
        self.clock.bump(d);
        proof {
            let pre = *old(self);
            assert forall|q: int| 0 <= q < self.memos@.len() implies self.memo_wf(q) by {
                assert(pre.memo_wf(q));
            }
            assert forall|i: int|
                0 <= i < self.inputs@.len() implies (#[trigger] self.inputs@[i]).changed_at
                <= self.clock.sub(self.inputs@[i].durability) by {
                assert(pre.inputs@[i].changed_at <= pre.clock.sub(pre.inputs@[i].durability));
            }
            assert forall|q: int|
                0 <= q < self.defs@.len() implies (#[trigger] self.exec_count@[q])
                <= self.clock.current by {
                assert(pre.exec_count@[q] <= pre.clock.current);
            }
            assert forall|q: int|
                0 <= q < self.defs@.len() && (self.memos@[q] is None
                    || self.memos@[q]->Some_0.verified_at < self.clock.current) implies (
            #[trigger] self.exec_count@[q]) < self.clock.current by {
                assert(pre.exec_count@[q] <= pre.clock.current);
            }
        }
    }

    /// Write an assigned memo for `q`: a later `fetch` returns this value
    /// without executing the query function. Assigning is a write of high
    /// durability: the revision is bumped and the memo is stamped with the
    /// new revision.
    pub fn specify(&mut self, q: usize, value: u64)
        requires
            old(self).wf(),
            q < old(self).defs@.len(),
            old(self).clock.current < u64::MAX,
        ensures
            final(self).wf(),
            final(self).clock.current == old(self).clock.current + 1,
            final(self).memos@[q as int] matches Some(m) && m.value == value && m.origin
                is Assigned && m.verified_at == final(self).clock.current && m.changed_at == final(
                self).clock.current,
            forall|k: int|
                0 <= k < old(self).memos@.len() && k != q ==> final(self).memos@[k] == old(
                    self).memos@[k],
            final(self).inputs@ == old(self).inputs@,
            final(self).defs@ == old(self).defs@,
            final(self).exec_count@ == old(self).exec_count@,
    {
        self.clock.bump(Durability::High);
        let memo = Memo {
            value,
            verified_at: self.clock.current(),
            changed_at: self.clock.current(),
            durability: Durability::High,
            origin: QueryOrigin::Assigned,
            cycle_participant: false,
            deps: Vec::new(),
        };
        self.memos[q] = Some(memo);
        proof {
            let pre = *old(self);
            assert forall|k: int| 0 <= k < self.memos@.len() implies self.memo_wf(k) by {
                if k != q {
                    assert(self.memos@[k] == pre.memos@[k]);
                    assert(pre.memo_wf(k));
                }
            }
            assert forall|i: int|
                0 <= i < self.inputs@.len() implies (#[trigger] self.inputs@[i]).changed_at
                <= self.clock.sub(self.inputs@[i].durability) by {
                assert(pre.inputs@[i].changed_at <= pre.clock.sub(pre.inputs@[i].durability));
            }
            assert forall|k: int|
                0 <= k < self.defs@.len() implies (#[trigger] self.exec_count@[k])
                <= self.clock.current by {
                assert(pre.exec_count@[k] <= pre.clock.current);
            }
            assert forall|k: int|
                0 <= k < self.defs@.len() && (self.memos@[k] is None
                    || self.memos@[k]->Some_0.verified_at < self.clock.current) implies (
            #[trigger] self.exec_count@[k]) < self.clock.current by {
                assert(pre.exec_count@[k] <= pre.clock.current);
            }
        }
    }

    /// The origin of the memo for the query with the given id, if any.
    pub fn origin(&self, key: crate::Id) -> (r: Option<QueryOrigin>)
        requires
            (key.value as int) < self.memos@.len(),
        ensures
            r == match self.memos@[key.value as int] {
                None => None::<QueryOrigin>,
                Some(m) => Some(m.origin),
            },
    {
        match &self.memos[key.as_u32() as usize] {
            None => None,
            Some(m) => Some(m.origin),
        }
    }

    /// One memo-table step with an explicit active-query stack: validate or
    /// recompute `q` and return its value, together with a flag that is set
    /// when the value was produced under a dependency cycle (in which case
    /// the memo for `q` itself may still be the in-progress one).
    #[verifier::loop_isolation(false)]
    #[verifier::rlimit(100)]
    pub(crate) fn fetch_with(&mut self, q: usize, stack: &mut Vec<usize>) -> (r: Result<
        (u64, bool),
        CycleError,
    >)
        requires
            old(self).wf(),
            q < old(self).defs@.len(),
            stack_wf(old(self).defs@, old(stack)@),
            old(stack)@.len() > 0 ==> edge(old(self).defs@, old(stack)@[old(stack)@.len() - 1], q),
        ensures
            final(self).wf(),
            final(self).clock == old(self).clock,
            final(self).defs@ == old(self).defs@,
            final(self).inputs@ == old(self).inputs@,
            final(self).memos@.len() == old(self).memos@.len(),
            final(self).exec_count@.len() == old(self).exec_count@.len(),
            forall|k: usize|
                old(stack)@.contains(k) ==> final(self).memos@[k as int] == old(self).memos@[k as int]
                    && final(self).exec_count@[k as int] == old(self).exec_count@[k as int],
            r is Ok ==> final(stack)@ == old(stack)@,
            (r is Ok && old(stack)@.contains(q)) ==> (r->Ok_0.1 == true && *final(self) == *old(self)),
            (r is Ok && !old(stack)@.contains(q)) ==> (final(self).memos@[q as int] matches Some(m)
                && m.verified_at == final(self).clock.current && m.value == r->Ok_0.0
                && m.cycle_participant == r->Ok_0.1),
            !old(stack)@.contains(q) ==> (old(self).memos@[q as int] matches Some(m) ==> (
            m.verified_at == old(self).clock.current ==> (*final(self) == *old(self) && r == Ok::<
                (u64, bool),
                CycleError,
            >((m.value, m.cycle_participant))))),
            !old(stack)@.contains(q) ==> (old(self).memos@[q as int] matches Some(m) ==> ((m.origin
                is Derived && !m.cycle_participant && !old(self).defs@[q as int].untracked && old(
                self,
            ).clock.sub(m.durability) <= m.verified_at) ==> (r == Ok::<
                (u64, bool),
                CycleError,
            >((m.value, false)) && final(self).exec_count@ == old(self).exec_count@ && (forall|
                k: int,
            |
                0 <= k < old(self).memos@.len() && k != q ==> final(self).memos@[k] == old(
                    self,
                ).memos@[k])))),
            // a memo already verified at this revision is never rewritten,
            // and its query never re-executed, whatever path is taken
            forall|k: int|
                #![trigger final(self).memos@[k]]
                #![trigger old(self).memos@[k]]
                0 <= k < old(self).memos@.len() ==> (old(self).memos@[k] matches Some(m) ==> (
                m.verified_at == old(self).clock.current ==> (final(self).memos@[k] == old(
                    self,
                ).memos@[k] && final(self).exec_count@[k] == old(self).exec_count@[k]))),
            // the execution bookkeeping: a missing, untracked, cycle-tainted
            // or visibly-stale memo forces the function to run; an execution
            // writes a memo with the documented changed_at and minimum
            // durability; memos verified at this revision are left alone
            !old(stack)@.contains(q) ==> validated_transition(
                *old(self),
                *final(self),
                q as int,
                r is Ok,
            ),
            // a cycle participant observes its configured fallback value
            (r is Ok && old(stack)@.contains(q)) ==> (old(self).defs@[q as int].cycle matches
                CycleHandling::Fallback(f) ==> r->Ok_0.0 == f),
            // minimal recomputation for a query that reads inputs only: when
            // none of them changed since the memo was verified, nothing runs
            !old(stack)@.contains(q) ==> (old(self).memos@[q as int] matches Some(m) ==> ((m.origin
                is Derived && !m.cycle_participant && !old(self).defs@[q as int].untracked
                && input_deps_fresh(*old(self), q as int, m.verified_at)) ==> (r == Ok::<
                (u64, bool),
                CycleError,
            >((m.value, false)) && final(self).exec_count@ == old(self).exec_count@ && (forall|
                k: int,
            |
                0 <= k < old(self).memos@.len() && k != q ==> final(self).memos@[k] == old(
                    self,
                ).memos@[k])))),
            // what execution computes: when the query function ran outside
            // any cycle, the result is the wrapping sum of the current
            // dependency values plus the addend
            r matches Ok(v) ==> ((!v.1 && final(self).exec_count@[q as int] != old(
                self,
            ).exec_count@[q as int]) ==> v.0 == step_value(*final(self), q as int)),
            // a fetch that answers without running the function returns the
            // memoized value
            !old(stack)@.contains(q) ==> (old(self).memos@[q as int] matches Some(m) ==> ((r is Ok
                && final(self).exec_count@[q as int] == old(self).exec_count@[q as int])
                ==> r->Ok_0.0 == m.value)),
            r matches Err(e) ==> is_cycle(old(self).defs@, e.participants@),
        decreases old(self).defs@.len() - old(stack)@.len(), 2int,
    {
        proof {
            lemma_distinct_bounded(old(stack)@, old(self).defs@.len());
        }
        // Cycle detection: `q` is already being computed further down the
        // stack.
        if let Some(j) = stack_find(stack, q) {
            match self.defs[q].cycle {
                CycleHandling::Fallback(v) => {
                    return Ok((v, true));
                },
                CycleHandling::Panic => {
                    let path = stack_suffix(stack, j);
                    proof {
                        let c = path@;
                        let s = old(stack)@;
                        assert(c.len() >= 1);
                        assert forall|i: int| 0 <= i < c.len() implies (#[trigger] c[i]) < old(
                            self,
                        ).defs@.len() by {
                            assert(c[i] == s[j + i]);
                        }
                        assert forall|i: int|
                            0 <= i < c.len() - 1 implies edge(
                            old(self).defs@,
                            #[trigger] c[i],
                            c[i + 1],
                        ) by {
                            assert(c[i] == s[j + i]);
                            assert(c[i + 1] == s[j + i + 1]);
                            assert(edge(old(self).defs@, s[j + i], s[j + i + 1]));
                        }
                        assert(c[c.len() - 1] == s[s.len() - 1]);
                        assert(c[0] == q);
                        assert(edge(old(self).defs@, s[s.len() - 1], q));
                        assert(is_cycle(old(self).defs@, c));
                    }
                    return Err(CycleError { participants: path });
                },
            }
        }
        let current = self.clock.current();
        let untracked = self.defs[q].untracked;
        let (has_memo, m_value, m_verified, m_changed, m_durability, m_assigned, m_participant) =
            match &self.memos[q] {
            None => (false, 0u64, 0u64, 0u64, Durability::Low, false, false),
            Some(m) => (
                true,
                m.value,
                m.verified_at,
                m.changed_at,
                m.durability,
                match m.origin {
                    QueryOrigin::Assigned => true,
                    QueryOrigin::Derived => false,
                },
                m.cycle_participant,
            ),
        };
        let mut pushed = false;
        if has_memo {
            // Fast path: the memo was already verified at this revision.
            if m_verified == current {
                return Ok((m_value, m_participant));
            }
            if m_assigned {
                // An assigned memo is returned without ever executing the
                // query function; re-stamp its verification revision.
                let memo = Memo {
                    value: m_value,
                    verified_at: current,
                    changed_at: m_changed,
                    durability: Durability::High,
                    origin: QueryOrigin::Assigned,
                    cycle_participant: false,
                    deps: Vec::new(),
                };
                self.memos[q] = Some(memo);
                proof {
                    assert(old(self).memo_wf(q as int));
                    assert(old(self).exec_count@[q as int] <= old(self).clock.current);
                    lemma_wf_update_memo(*old(self), *self, q as int);
                }
                return Ok((m_value, false));
            }
            if !m_participant && !untracked {
                // Durability check: no write at or below the memo's
                // durability since it was verified, so it is still good.
                let sub = self.clock.sub_revision(m_durability);
                if sub <= m_verified {
                    let deps = clone_deps(&self.defs[q].deps);
                    let memo = Memo {
                        value: m_value,
                        verified_at: current,
                        changed_at: m_changed,
                        durability: m_durability,
                        origin: QueryOrigin::Derived,
                        cycle_participant: false,
                        deps,
                    };
                    self.memos[q] = Some(memo);
                    proof {
                        assert(old(self).memo_wf(q as int));
                        assert(old(self).exec_count@[q as int] <= old(self).clock.current);
                        lemma_wf_update_memo(*old(self), *self, q as int);
                    }
                    return Ok((m_value, false));
                }
                // Deep verification: walk the recorded dependencies in
                // order; the memo is still good if none has changed since it
                // was last verified.
                match self.deep_verify(q, stack, m_value, m_verified, m_changed, m_durability) {
                    Err(e) => {
                        return Err(e);
                    },
                    Ok(Some(v)) => {
                        proof {
                            assert forall|k: int|
                                #![trigger self.memos@[k]]
                                0 <= k < old(self).memos@.len() implies (old(self).memos@[k]
                                matches Some(m) ==> (m.verified_at == old(self).clock.current
                                ==> (self.memos@[k] == old(self).memos@[k] && self.exec_count@[k]
                                == old(self).exec_count@[k]))) by {}
                        }
                        return Ok(v);
                    },
                    Ok(None) => {
                        pushed = true;
                        proof {
                            lemma_stack_push(old(self).defs@, old(stack)@, q);
                        }
                    },
                }
            }
        }
        // EXECUTE: run the query function, recording dependencies and the
        // minimum durability as they are read.
        if !pushed {
            stack.push(q);
            proof {
                lemma_stack_push(old(self).defs@, old(stack)@, q);
            }
        }
        proof {
            lemma_distinct_bounded(stack@, self.defs@.len());
            assert(self.memos@[q as int] == old(self).memos@[q as int]);
            assert(old(self).memo_wf(q as int));
        }
        let r = self.execute_query(q, stack, has_memo, m_value, m_changed);
        proof {
            assert(old(stack)@.push(q).drop_last() =~= old(stack)@);
            assert forall|k: usize| old(stack)@.contains(k) implies self.memos@[k as int] == old(
                self,
            ).memos@[k as int] && self.exec_count@[k as int] == old(self).exec_count@[k as int] by {
                lemma_push_contains(old(stack)@, q, k);
            }
        }
        r
    }



    /// Deep verification for `q`'s memo: push `q`, walk the recorded
    /// dependencies in order, validating each, until one has changed since
    /// the memo was verified. If none has, re-stamp the memo and hand back
    /// the memoized value with the frame popped; otherwise leave `q` on the
    /// stack and report that the caller must execute.
    #[verifier::loop_isolation(false)]
    #[verifier::rlimit(60)]
    fn deep_verify(
        &mut self,
        q: usize,
        stack: &mut Vec<usize>,
        m_value: u64,
        m_verified: u64,
        m_changed: u64,
        m_durability: Durability,
    ) -> (r: Result<Option<(u64, bool)>, CycleError>)
        requires
            old(self).wf(),
            q < old(self).defs@.len(),
            stack_wf(old(self).defs@, old(stack)@),
            !old(stack)@.contains(q),
            old(stack)@.len() > 0 ==> edge(old(self).defs@, old(stack)@[old(stack)@.len() - 1], q),
            old(self).memos@[q as int] matches Some(m) && m.value == m_value && m.verified_at
                == m_verified && m.changed_at == m_changed && m.durability == m_durability
                && m.origin is Derived && !m.cycle_participant && m.verified_at < old(
                self,
            ).clock.current,
        ensures
            final(self).wf(),
            final(self).clock == old(self).clock,
            final(self).defs@ == old(self).defs@,
            final(self).inputs@ == old(self).inputs@,
            final(self).memos@.len() == old(self).memos@.len(),
            final(self).exec_count@.len() == old(self).exec_count@.len(),
            forall|k: usize|
                old(stack)@.contains(k) ==> final(self).memos@[k as int] == old(self).memos@[k as int]
                    && final(self).exec_count@[k as int] == old(self).exec_count@[k as int],
            forall|k: int|
                #![trigger final(self).memos@[k]]
                #![trigger old(self).memos@[k]]
                0 <= k < old(self).memos@.len() ==> (old(self).memos@[k] matches Some(m) ==> (
                m.verified_at == old(self).clock.current ==> (final(self).memos@[k] == old(
                    self,
                ).memos@[k] && final(self).exec_count@[k] == old(self).exec_count@[k]))),
            final(self).exec_count@[q as int] == old(self).exec_count@[q as int],
            r matches Ok(o) ==> (match o {
                Some(v) => {
                    &&& final(stack)@ == old(stack)@
                    &&& v == (m_value, false)
                    &&& (final(self).memos@[q as int] matches Some(m2) && m2.value == m_value
                        && m2.verified_at == final(self).clock.current && m2.changed_at == m_changed
                        && m2.durability == m_durability && m2.origin is Derived
                        && !m2.cycle_participant)
                    &&& !stale_input_first(*old(self), q as int, m_verified)
                },
                None => {
                    &&& final(stack)@ == old(stack)@.push(q)
                    &&& final(self).memos@[q as int] == old(self).memos@[q as int]
                },
            }),
            input_deps_fresh(*old(self), q as int, m_verified) ==> (r == Ok::<
                Option<(u64, bool)>,
                CycleError,
            >(Some((m_value, false))) && final(self).exec_count@ == old(self).exec_count@ && (forall|
                k: int,
            |
                0 <= k < old(self).memos@.len() && k != q ==> final(self).memos@[k] == old(
                    self,
                ).memos@[k])),
            r matches Err(e) ==> is_cycle(old(self).defs@, e.participants@),
        decreases old(self).defs@.len() - old(stack)@.len(), 1int,
    {
        proof {
            lemma_distinct_bounded(old(stack)@, old(self).defs@.len());
        }
        let current = self.clock.current();
        stack.push(q);
        proof {
            lemma_stack_push(old(self).defs@, old(stack)@, q);
        }
        let mut changed = false;
        let n = self.defs[q].deps.len();
        let mut jj: usize = 0;
        while jj < n
            invariant
                self.wf(),
                q < self.defs@.len(),
                jj <= n,
                n == self.defs@[q as int].deps@.len(),
                stack@ == old(stack)@.push(q),
                stack_wf(self.defs@, stack@),
                self.clock == old(self).clock,
                self.defs@ == old(self).defs@,
                self.inputs@ == old(self).inputs@,
                self.memos@.len() == old(self).memos@.len(),
                self.exec_count@.len() == old(self).exec_count@.len(),
                forall|k: usize|
                    stack@.contains(k) ==> self.memos@[k as int] == old(self).memos@[k as int]
                        && self.exec_count@[k as int] == old(self).exec_count@[k as int],
                forall|k: int|
                    #![trigger self.memos@[k]]
                    0 <= k < old(self).memos@.len() ==> (old(self).memos@[k] matches Some(
                        m,
                    ) ==> (m.verified_at == old(self).clock.current ==> (self.memos@[k]
                        == old(self).memos@[k] && self.exec_count@[k] == old(
                        self,
                    ).exec_count@[k]))),
                !changed ==> (forall|j2: int|
                    0 <= j2 < jj ==> !((#[trigger] self.defs@[q as int].deps@[j2]) matches
                        DepRef::Input { index } && self.inputs@[index as int].changed_at
                        > m_verified)),
                input_deps_fresh(*old(self), q as int, m_verified) ==> (!changed
                    && self.memos@ == old(self).memos@ && self.exec_count@ == old(
                    self,
                ).exec_count@),
            decreases n - jj + (if changed {
                0int
            } else {
                1int
            }),
        {
            if changed {
                break;
            }
            let d = self.defs[q].deps[jj];
            match d {
                DepRef::Input { index } => {
                    proof {
                        assert(dep_in_range(
                            self.defs@.len() as int,
                            self.inputs@.len() as int,
                            self.defs@[q as int].deps@[jj as int],
                        ));
                    }
                    if self.inputs[index].changed_at > m_verified {
                        changed = true;
                    }
                },
                DepRef::Query { index } => {
                    proof {
                        assert(dep_in_range(
                            self.defs@.len() as int,
                            self.inputs@.len() as int,
                            self.defs@[q as int].deps@[jj as int],
                        ));
                        assert(self.defs@[q as int].deps@.contains(
                            DepRef::Query { index },
                        ));
                        assert(edge(self.defs@, q, index));
                        assert(stack@[stack@.len() - 1] == q);
                        lemma_distinct_bounded(stack@, self.defs@.len());
                    }
                    match self.fetch_with(index, stack) {
                        Err(e) => {
                            proof {
                                assert(old(stack)@.push(q)[old(stack)@.len() as int] == q);
                                assert(old(stack)@.push(q).contains(q));
                                assert forall|k: usize| old(stack)@.contains(k) implies
                                    self.memos@[k as int] == old(self).memos@[k as int]
                                    && self.exec_count@[k as int] == old(
                                    self,
                                ).exec_count@[k as int] by {
                                    lemma_push_contains(old(stack)@, q, k);
                                }
                            }
                            return Err(e);
                        },
                        Ok((_, t)) => {
                            if t {
                                changed = true;
                            } else {
                                let dep_changed = match &self.memos[index] {
                                    Some(mm) => mm.changed_at > m_verified,
                                    None => true,
                                };
                                if dep_changed {
                                    changed = true;
                                }
                            }
                        },
                    }
                },
            }
            if !changed {
                jj = jj + 1;
            }
        }
        if !changed {
            // Every dependency is unchanged since the memo was
            // verified: mark it verified at this revision.
            stack.pop();
            proof {
                assert(stack@ =~= old(stack)@);
                // no changed input can be hiding behind an
                // all-inputs-unchanged prefix: the walk covered them
                if stale_input_first(*old(self), q as int, m_verified) {
                    let jx = choose|jx: int|
                        stale_input_at(*old(self), q as int, m_verified, jx);
                    assert(false);
                }
            }
            let ghost mid = *self;
            let deps = clone_deps(&self.defs[q].deps);
            let memo = Memo {
                value: m_value,
                verified_at: current,
                changed_at: m_changed,
                durability: m_durability,
                origin: QueryOrigin::Derived,
                cycle_participant: false,
                deps,
            };
            self.memos[q] = Some(memo);
            proof {
                let s0 = old(stack)@;
                assert(s0.push(q)[s0.len() as int] == q);
                assert(s0.push(q).contains(q));
                assert(mid.memos@[q as int] == old(self).memos@[q as int]);
                assert(mid.exec_count@[q as int] == old(self).exec_count@[q as int]);
                assert(old(self).memo_wf(q as int));
                assert(mid.exec_count@[q as int] <= mid.clock.current);
                lemma_wf_update_memo(mid, *self, q as int);
                assert forall|k: usize| s0.contains(k) implies self.memos@[k as int]
                    == old(self).memos@[k as int] && self.exec_count@[k as int] == old(
                    self,
                ).exec_count@[k as int] by {
                    lemma_push_contains(s0, q, k);
                }
            }
            return Ok(Some((m_value, false)));
        }
        proof {
            assert(old(stack)@.push(q)[old(stack)@.len() as int] == q);
            assert(stack@.contains(q));
            assert forall|k: usize| old(stack)@.contains(k) implies self.memos@[k as int] == old(
                self,
            ).memos@[k as int] && self.exec_count@[k as int] == old(self).exec_count@[k as int] by {
                lemma_push_contains(old(stack)@, q, k);
            }
        }
        Ok(None)
    }

    /// Run query `q`'s function: read the dependencies in order (recording
    /// their values, the minimum durability and any cycle taint), pop the
    /// frame, and store the new memo. The caller has already pushed `q` onto
    /// the active stack; `has_memo`, `m_value` and `m_changed` describe `q`'s
    /// memo slot as the caller found it.
    #[verifier::loop_isolation(false)]
    #[verifier::rlimit(60)]
    fn execute_query(
        &mut self,
        q: usize,
        stack: &mut Vec<usize>,
        has_memo: bool,
        m_value: u64,
        m_changed: u64,
    ) -> (r: Result<(u64, bool), CycleError>)
        requires
            old(self).wf(),
            q < old(self).defs@.len(),
            stack_wf(old(self).defs@, old(stack)@),
            old(stack)@.len() > 0,
            old(stack)@[old(stack)@.len() - 1] == q,
            has_memo <==> old(self).memos@[q as int] is Some,
            has_memo ==> (old(self).memos@[q as int] matches Some(m) && m.value == m_value
                && m.changed_at == m_changed && m.verified_at < old(self).clock.current),
        ensures
            final(self).wf(),
            final(self).clock == old(self).clock,
            final(self).defs@ == old(self).defs@,
            final(self).inputs@ == old(self).inputs@,
            final(self).memos@.len() == old(self).memos@.len(),
            final(self).exec_count@.len() == old(self).exec_count@.len(),
            forall|k: usize|
                old(stack)@.contains(k) && k != q ==> final(self).memos@[k as int] == old(
                    self,
                ).memos@[k as int] && final(self).exec_count@[k as int] == old(
                    self,
                ).exec_count@[k as int],
            forall|k: int|
                #![trigger final(self).memos@[k]]
                #![trigger old(self).memos@[k]]
                0 <= k < old(self).memos@.len() ==> (old(self).memos@[k] matches Some(m) ==> (
                m.verified_at == old(self).clock.current ==> (final(self).memos@[k] == old(
                    self,
                ).memos@[k] && final(self).exec_count@[k] == old(self).exec_count@[k]))),
            r is Ok ==> final(stack)@ == old(stack)@.drop_last(),
            r is Ok ==> (final(self).exec_count@[q as int] == old(self).exec_count@[q as int] + 1
                && (final(self).memos@[q as int] matches Some(m2)
                && m2.verified_at == final(self).clock.current
                && m2.origin is Derived && m2.value == r->Ok_0.0
                && m2.cycle_participant == r->Ok_0.1 && m2.changed_at == (if has_memo && m2.value
                == m_value {
                m_changed
            } else {
                old(self).clock.current
            }) && (!m2.cycle_participant ==> (m2.durability == recorded_durability(
                *final(self),
                q as int,
            ) && r->Ok_0.0 == step_value(*final(self), q as int))))),
            r matches Err(e) ==> is_cycle(old(self).defs@, e.participants@),
        decreases old(self).defs@.len() - old(stack)@.len(), 3int,
    {
        let current = self.clock.current();
        let mut sum: u64 = self.defs[q].addend;
        let mut dur = Durability::High;
        let mut taint = false;
        let n = self.defs[q].deps.len();
        let mut jj: usize = 0;
        while jj < n
            invariant
                self.wf(),
                q < self.defs@.len(),
                jj <= n,
                n == self.defs@[q as int].deps@.len(),
                stack@ == old(stack)@,
                stack_wf(self.defs@, stack@),
                self.clock == old(self).clock,
                self.defs@ == old(self).defs@,
                self.inputs@ == old(self).inputs@,
                self.memos@.len() == old(self).memos@.len(),
                self.exec_count@.len() == old(self).exec_count@.len(),
                forall|k: usize|
                    stack@.contains(k) ==> self.memos@[k as int] == old(self).memos@[k as int]
                        && self.exec_count@[k as int] == old(self).exec_count@[k as int],
                forall|k: int|
                    #![trigger self.memos@[k]]
                    0 <= k < old(self).memos@.len() ==> (old(self).memos@[k] matches Some(m) ==> (
                    m.verified_at == old(self).clock.current ==> (self.memos@[k] == old(
                        self,
                    ).memos@[k] && self.exec_count@[k] == old(self).exec_count@[k]))),
                !taint ==> sum == step_prefix(*self, q as int, jj as int),
                !taint ==> dur == dur_prefix(*self, q as int, jj as int),
                !taint ==> (forall|j2: int|
                    0 <= j2 < jj ==> ((#[trigger] self.defs@[q as int].deps@[j2]) matches
                        DepRef::Query { index } ==> (self.memos@[index as int] matches Some(mm)
                        && mm.verified_at == self.clock.current))),
            decreases n - jj,
        {
            let d = self.defs[q].deps[jj];
            match d {
                DepRef::Input { index } => {
                    proof {
                        assert(dep_in_range(
                            self.defs@.len() as int,
                            self.inputs@.len() as int,
                            self.defs@[q as int].deps@[jj as int],
                        ));
                    }
                    let cell = self.inputs[index];
                    sum = sum.wrapping_add(cell.value);
                    dur = dur.min(cell.durability);
                    proof {
                        if !taint {
                            assert(sum == step_prefix(*self, q as int, jj as int + 1));
                            assert(dur == dur_prefix(*self, q as int, jj as int + 1));
                        }
                    }
                },
                DepRef::Query { index } => {
                    proof {
                        assert(dep_in_range(
                            self.defs@.len() as int,
                            self.inputs@.len() as int,
                            self.defs@[q as int].deps@[jj as int],
                        ));
                        assert(self.defs@[q as int].deps@.contains(DepRef::Query { index }));
                        assert(edge(self.defs@, q, index));
                        assert(stack@[stack@.len() - 1] == q);
                        lemma_distinct_bounded(stack@, self.defs@.len());
                    }
                    let ghost s1 = *self;
                    let ghost sum0 = sum;
                    match self.fetch_with(index, stack) {
                        Err(e) => {
                            return Err(e);
                        },
                        Ok((v, t)) => {
                            sum = sum.wrapping_add(v);
                            if t {
                                taint = true;
                                dur = dur.min(Durability::Low);
                            } else {
                                let dep_dur = match &self.memos[index] {
                                    Some(mm) => mm.durability,
                                    None => Durability::Low,
                                };
                                dur = dur.min(dep_dur);
                            }
                            proof {
                                if !taint {
                                    // dependencies already read keep their
                                    // values: their memos are fresh, and
                                    // fresh memos are never rewritten
                                    assert forall|j2: int| 0 <= j2 < jj implies (dep_value(
                                        *self,
                                        #[trigger] s1.defs@[q as int].deps@[j2],
                                    ) == dep_value(s1, s1.defs@[q as int].deps@[j2])
                                        && dep_durability(*self, s1.defs@[q as int].deps@[j2])
                                        == dep_durability(s1, s1.defs@[q as int].deps@[j2])) by {
                                        match s1.defs@[q as int].deps@[j2] {
                                            DepRef::Input { .. } => {},
                                            DepRef::Query { index: k } => {
                                                assert(self.memos@[k as int] == s1.memos@[k as int]);
                                            },
                                        }
                                    }
                                    lemma_step_prefix_same(s1, *self, q as int, jj as int);
                                    assert(self.memos@[index as int] matches Some(mm) && mm.value
                                        == v && mm.verified_at == self.clock.current);
                                    assert(sum == step_prefix(*self, q as int, jj as int + 1));
                                    assert(dur == dur_prefix(*self, q as int, jj as int + 1));
                                }
                            }
                        },
                    }
                },
            }
            jj = jj + 1;
        }
        stack.pop();
        proof {
            assert(stack@ =~= old(stack)@.drop_last());
        }
        let ghost mid = *self;
        proof {
            assert(old(stack)@.contains(q)) by {
                assert(old(stack)@[old(stack)@.len() - 1] == q);
            }
            assert(mid.memos@[q as int] == old(self).memos@[q as int]);
            assert(mid.exec_count@[q as int] == old(self).exec_count@[q as int]);
            assert(old(self).memo_wf(q as int));
            assert(old(self).exec_count@[q as int] < old(self).clock.current);
        }
        let ghost n0 = n;
        let changed_at = if has_memo && sum == m_value {
            m_changed
        } else {
            current
        };
        let deps = clone_deps(&self.defs[q].deps);
        let memo = Memo {
            value: sum,
            verified_at: current,
            changed_at,
            durability: dur,
            origin: QueryOrigin::Derived,
            cycle_participant: taint,
            deps,
        };
        self.memos[q] = Some(memo);
        let c = self.exec_count[q];
        self.exec_count[q] = c + 1;
        proof {
            assert(old(self).memo_wf(q as int));
            lemma_wf_update_memo(mid, *self, q as int);
            if !taint {
                // the write at q leaves every dependency's value in place:
                // under no taint, q itself cannot be among its dependencies
                assert forall|j2: int| 0 <= j2 < n0 implies (dep_value(
                    *self,
                    #[trigger] mid.defs@[q as int].deps@[j2],
                ) == dep_value(mid, mid.defs@[q as int].deps@[j2]) && dep_durability(
                    *self,
                    mid.defs@[q as int].deps@[j2],
                ) == dep_durability(mid, mid.defs@[q as int].deps@[j2])) by {
                    match mid.defs@[q as int].deps@[j2] {
                        DepRef::Input { .. } => {},
                        DepRef::Query { index: k } => {
                            assert(mid.memos@[k as int] matches Some(mm) && mm.verified_at
                                == mid.clock.current);
                            assert(k != q);
                        },
                    }
                }
                lemma_step_prefix_same(mid, *self, q as int, n0 as int);
                assert(sum == step_value(*self, q as int));
                assert(dur == recorded_durability(*self, q as int));
            }
        }
        Ok((sum, taint))
    }
    /// Fetch the value of query `q` at the current revision, validating or
    /// recomputing its memo as needed.
    pub fn fetch(&mut self, q: usize) -> (r: Result<u64, CycleError>)
        requires
            old(self).wf(),
            q < old(self).defs@.len(),
        ensures
            final(self).wf(),
            final(self).clock == old(self).clock,
            final(self).defs@ == old(self).defs@,
            final(self).inputs@ == old(self).inputs@,
            final(self).memos@.len() == old(self).memos@.len(),
            final(self).exec_count@.len() == old(self).exec_count@.len(),
            r matches Ok(v) ==> (final(self).memos@[q as int] matches Some(m) && m.verified_at
                == final(self).clock.current && m.value == v),
            old(self).memos@[q as int] matches Some(m) ==> (m.verified_at == old(
                self,
            ).clock.current ==> (*final(self) == *old(self) && r == Ok::<u64, CycleError>(m.value))),
            old(self).memos@[q as int] matches Some(m) ==> ((m.origin is Derived
                && !m.cycle_participant && !old(self).defs@[q as int].untracked && old(
                self,
            ).clock.sub(m.durability) <= m.verified_at) ==> (r == Ok::<u64, CycleError>(m.value)
                && final(self).exec_count@ == old(self).exec_count@ && (forall|k: int|
                0 <= k < old(self).memos@.len() && k != q ==> final(self).memos@[k] == old(
                    self,
                ).memos@[k]))),
            // the execution bookkeeping: a missing, untracked, cycle-tainted
            // or visibly-stale memo forces the function to run; an execution
            // writes a memo with the documented changed_at and minimum
            // durability; memos verified at this revision are left alone
            validated_transition(*old(self), *final(self), q as int, r is Ok),
            // minimal recomputation for a query that reads inputs only: when
            // none of them changed since the memo was verified, nothing runs
            old(self).memos@[q as int] matches Some(m) ==> ((m.origin is Derived
                && !m.cycle_participant && !old(self).defs@[q as int].untracked
                && input_deps_fresh(*old(self), q as int, m.verified_at)) ==> (r == Ok::<
                u64,
                CycleError,
            >(m.value) && final(self).exec_count@ == old(self).exec_count@ && (forall|k: int|
                0 <= k < old(self).memos@.len() && k != q ==> final(self).memos@[k] == old(
                    self,
                ).memos@[k]))),
            // when the query function ran and no cycle was hit, the result
            // is what executing it on the final state computes
            r matches Ok(v) ==> ((final(self).memos@[q as int] matches Some(m)
                && !m.cycle_participant && final(self).exec_count@[q as int] != old(
                self,
            ).exec_count@[q as int]) ==> v == step_value(*final(self), q as int)),
            // a fetch that answers without running the function returns the
            // memoized value
            old(self).memos@[q as int] matches Some(m) ==> ((r is Ok
                && final(self).exec_count@[q as int] == old(self).exec_count@[q as int])
                ==> r->Ok_0 == m.value),
            r matches Err(e) ==> is_cycle(final(self).defs@, e.participants@),
    {
        let mut stack: Vec<usize> = Vec::new();
        match self.fetch_with(q, &mut stack) {
            Ok((v, _)) => Ok(v),
            Err(e) => Err(e),
        }
    }

    /// Did the value of `q` last change after revision `rev`? Validates or
    /// recomputes the memo first, so the answer is about the current
    /// revision's value.
    pub fn maybe_changed_after(&mut self, q: usize, rev: u64) -> (r: Result<bool, CycleError>)
        requires
            old(self).wf(),
            q < old(self).defs@.len(),
        ensures
            final(self).wf(),
            final(self).clock == old(self).clock,
            final(self).defs@ == old(self).defs@,
            final(self).inputs@ == old(self).inputs@,
            final(self).memos@.len() == old(self).memos@.len(),
            r matches Ok(b) ==> (final(self).memos@[q as int] matches Some(m) && b == (
            m.cycle_participant || m.changed_at > rev)),
            // the same execution bookkeeping as a fetch: validation may run
            // the function, and does so exactly in the forced situations
            validated_transition(*old(self), *final(self), q as int, r is Ok),
            final(self).exec_count@.len() == old(self).exec_count@.len(),
            r matches Err(e) ==> is_cycle(final(self).defs@, e.participants@),
    {
        let mut stack: Vec<usize> = Vec::new();
        match self.fetch_with(q, &mut stack) {
            Err(e) => Err(e),
            Ok((_, t)) => {
                if t {
                    Ok(true)
                } else {
                    match &self.memos[q] {
                        Some(m) => Ok(m.changed_at > rev),
                        None => Ok(true),
                    }
                }
            },
        }
    }

    /// How many times `q`'s function has executed.
    pub fn executions(&self, q: usize) -> (r: u64)
        requires
            q < self.exec_count@.len(),
        ensures
            r == self.exec_count@[q as int],
    {
        self.exec_count[q]
    }
}

} // verus!
