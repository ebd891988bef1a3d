//! The tracked-struct ingredient: stable identity for values created inside
//! a query.
//!
//! A struct created during query execution is keyed by its disambiguator:
//! the creating query's identity and the creation's sequence number within
//! that execution. Re-executing the query re-creates the same disambiguators
//! in the same order, so each creation resolves to the id allocated the
//! first time; a field write only bumps that field's `changed_at` when the
//! value actually differs. Entries not re-asserted by the end of a revision
//! are tombstoned, and their ids are never reused.

use vstd::prelude::*;

verus! {

/// One allocated tracked struct: its disambiguator, its (single, modelled)
/// field, and its lifecycle stamps.
#[derive(Clone, Copy, PartialEq, Eq, Structural, Debug)]
pub struct TrackedEntry {
    /// Identity of the creating query.
    pub query: u64,
    /// Sequence number of this creation within one execution of the query.
    pub seq: u64,
    pub field: u64,
    /// Revision at which the field value last changed.
    pub field_changed_at: u64,
    /// Revision in which the entry was last created or re-asserted.
    pub asserted_at: u64,
    /// The entry was not re-asserted in some finished revision; its id is
    /// retained so stale dependency edges resolve as "changed".
    pub deleted: bool,
}

/// The tracked-struct table: the id of an entry is its position, so ids are
/// dense and never reused.
pub struct TrackedIngredient {
    pub entries: Vec<TrackedEntry>,
}

impl TrackedIngredient {
    /// Two live disambiguators never collide: ids are a function of the
    /// disambiguator.
    pub open spec fn wf(self) -> bool {
        forall|i: int, j: int|
            0 <= i < self.entries@.len() && 0 <= j < self.entries@.len() && i != j ==> !((
            #[trigger] self.entries@[i]).query == (#[trigger] self.entries@[j]).query
                && self.entries@[i].seq == self.entries@[j].seq)
    }

    /// Some entry carries this disambiguator.
    pub open spec fn has_key(self, query: u64, seq: u64) -> bool {
        exists|i: int|
            0 <= i < self.entries@.len() && (#[trigger] self.entries@[i]).query == query
                && self.entries@[i].seq == seq
    }

    pub fn new() -> (r: TrackedIngredient)
        ensures
            r.wf(),
            r.entries@.len() == 0,
    {
        TrackedIngredient { entries: Vec::new() }
    }

    /// The id an existing disambiguator resolves to.
    #[verifier::loop_isolation(false)]
    fn find(&self, query: u64, seq: u64) -> (r: Option<usize>)
        ensures
            match r {
                Some(i) => i < self.entries@.len() && self.entries@[i as int].query == query
                    && self.entries@[i as int].seq == seq,
                None => !self.has_key(query, seq),
            },
    {
        let mut i: usize = 0;
        while i < self.entries.len()
            invariant
                i <= self.entries@.len(),
                forall|j: int|
                    0 <= j < i ==> !((#[trigger] self.entries@[j]).query == query
                        && self.entries@[j].seq == seq),
            decreases self.entries@.len() - i,
        {
            let e = self.entries[i];
            if e.query == query && e.seq == seq {
                return Some(i);
            }
            i = i + 1;
        }
        None
    }

    /// Create (or re-assert) the tracked struct with the given disambiguator
    /// and field value at the current revision, and return its id.
    ///
    /// Identity is stable: if the disambiguator already has an entry, that
    /// entry's id is returned, whatever the field value; the field's
    /// `changed_at` moves to `current` only when the value differs.
    pub fn create(&mut self, query: u64, seq: u64, field: u64, current: u64) -> (r: usize)
        requires
            old(self).wf(),
        ensures
            final(self).wf(),
            r < final(self).entries@.len(),
            final(self).entries@[r as int].query == query,
            final(self).entries@[r as int].seq == seq,
            final(self).entries@[r as int].field == field,
            final(self).entries@[r as int].asserted_at == current,
            !final(self).entries@[r as int].deleted,
            old(self).has_key(query, seq) ==> (final(self).entries@.len() == old(self).entries@.len() && old(self).entries@[r as int].query == query && old(self).entries@[r as int].seq == seq && final(self).entries@[r as int].field_changed_at == (
            if old(self).entries@[r as int].field == field {
                old(self).entries@[r as int].field_changed_at
            } else {
                current
            })),
            !old(self).has_key(query, seq) ==> (r == old(self).entries@.len() && final(self).entries@.len() == old(self).entries@.len() + 1 && final(self).entries@[r as int].field_changed_at == current),
            forall|k: int|
                0 <= k < old(self).entries@.len() && k != r ==> final(self).entries@[k] == old(self).entries@[k],
    {
        match self.find(query, seq) {
            Some(i) => {
                let e = self.entries[i];
                let updated = TrackedEntry {
                    query,
                    seq,
                    field,
                    field_changed_at: if e.field == field {
                        e.field_changed_at
                    } else {
                        current
                    },
                    asserted_at: current,
                    deleted: false,
                };
                self.entries[i] = updated;
                proof {
                    assert forall|a: int, b: int|
                        0 <= a < self.entries@.len() && 0 <= b < self.entries@.len() && a
                            != b implies !((#[trigger] self.entries@[a]).query == (
                        #[trigger] self.entries@[b]).query && self.entries@[a].seq
                            == self.entries@[b].seq) by {
                        assert(old(self).entries@[a].query == self.entries@[a].query && old(self).entries@[a].seq == self.entries@[a].seq);
                        assert(old(self).entries@[b].query == self.entries@[b].query && old(self).entries@[b].seq == self.entries@[b].seq);
                    }
                }
                i
            },
            None => {
                let id = self.entries.len();
                let entry = TrackedEntry {
                    query,
                    seq,
                    field,
                    field_changed_at: current,
                    asserted_at: current,
                    deleted: false,
                };
                self.entries.push(entry);
                proof {
                    assert forall|a: int, b: int|
                        0 <= a < self.entries@.len() && 0 <= b < self.entries@.len() && a
                            != b implies !((#[trigger] self.entries@[a]).query == (
                        #[trigger] self.entries@[b]).query && self.entries@[a].seq
                            == self.entries@[b].seq) by {
                        if a < id && b < id {
                        } else if a < id {
                            assert(!old(self).has_key(query, seq));
                        } else if b < id {
                            assert(!old(self).has_key(query, seq));
                        }
                    }
                }
                id
            },
        }
    }

    /// Read the field of a tracked struct and the revision it last changed
    /// at: what a field read reports as a dependency edge.
    pub fn field(&self, id: usize) -> (r: (u64, u64))
        requires
            id < self.entries@.len(),
        ensures
            r.0 == self.entries@[id as int].field,
            r.1 == self.entries@[id as int].field_changed_at,
    {
        let e = self.entries[id];
        (e.field, e.field_changed_at)
    }

    /// End of revision `finished`: tombstone every entry that was not
    /// asserted in it. Ids are retained, never reused.
    #[verifier::loop_isolation(false)]
    pub fn tombstone_stale(&mut self, finished: u64)
        requires
            old(self).wf(),
        ensures
            final(self).wf(),
            final(self).entries@.len() == old(self).entries@.len(),
            forall|k: int|
                #![trigger final(self).entries@[k]]
                0 <= k < old(self).entries@.len() ==> {
                    let e = old(self).entries@[k];
                    final(self).entries@[k] == (TrackedEntry {
                        deleted: e.deleted || e.asserted_at < finished,
                        ..e
                    })
                },
    {
        let n = self.entries.len();
        let mut i: usize = 0;
        while i < n
            invariant
                n == self.entries@.len(),
                n == old(self).entries@.len(),
                i <= n,
                forall|k: int|
                    #![trigger self.entries@[k]]
                    0 <= k < i ==> {
                        let e = old(self).entries@[k];
                        self.entries@[k] == (TrackedEntry {
                            deleted: e.deleted || e.asserted_at < finished,
                            ..e
                        })
                    },
                forall|k: int| i <= k < n ==> self.entries@[k] == old(self).entries@[k],
            decreases n - i,
        {
            let e = self.entries[i];
            let updated = TrackedEntry { deleted: e.deleted || e.asserted_at < finished, ..e };
            self.entries[i] = updated;
            i = i + 1;
        }
        proof {
            assert forall|a: int, b: int|
                0 <= a < self.entries@.len() && 0 <= b < self.entries@.len() && a != b implies !((
            #[trigger] self.entries@[a]).query == (#[trigger] self.entries@[b]).query
                && self.entries@[a].seq == self.entries@[b].seq) by {
                assert(old(self).entries@[a].query == self.entries@[a].query && old(self).entries@[a].seq == self.entries@[a].seq);
                assert(old(self).entries@[b].query == self.entries@[b].query && old(self).entries@[b].seq == self.entries@[b].seq);
            }
        }
    }

    /// Identity stability: under the table invariant, the id resolved for a
    /// disambiguator is unique, so re-creating the same sequence of structs
    /// resolves each creation to the id it had before.
    pub proof fn lemma_identity_stable(self, query: u64, seq: u64, i: int, j: int)
        requires
            self.wf(),
            0 <= i < self.entries@.len(),
            0 <= j < self.entries@.len(),
            self.entries@[i].query == query,
            self.entries@[i].seq == seq,
            self.entries@[j].query == query,
            self.entries@[j].seq == seq,
        ensures
            i == j,
    {
    }
}

} // verus!
