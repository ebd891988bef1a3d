//! The interned ingredient: hash-consing of values to dense, stable ids.
//!
//! Equal values share one id, ids never change once assigned in a database,
//! and interned reads report high durability with the revision the value was
//! first interned at.

use vstd::prelude::*;

verus! {

/// The interning table: the id of a value is its position in the table.
pub struct InternTable {
    pub values: Vec<u64>,
    /// Revision at which each value was interned, reported as `changed_at`
    /// on reads.
    pub interned_at: Vec<u64>,
}

impl InternTable {
    /// Interned values are distinct: interning is a bijection between the
    /// stored values and their ids.
    pub open spec fn wf(self) -> bool {
        &&& self.interned_at@.len() == self.values@.len()
        &&& forall|i: int, j: int|
            0 <= i < self.values@.len() && 0 <= j < self.values@.len() && i != j ==> (
            #[trigger] self.values@[i]) != (#[trigger] self.values@[j])
    }

    pub open spec fn contains_value(self, value: u64) -> bool {
        self.values@.contains(value)
    }

    pub fn new() -> (r: InternTable)
        ensures
            r.wf(),
            r.values@.len() == 0,
    {
        InternTable { values: Vec::new(), interned_at: Vec::new() }
    }

    /// Intern a value at the current revision: return its existing id if it
    /// was interned before (leaving the table untouched), or assign the next
    /// dense id.
    #[verifier::loop_isolation(false)]
    pub fn intern(&mut self, value: u64, current: u64) -> (r: usize)
        requires
            old(self).wf(),
        ensures
            final(self).wf(),
            r < final(self).values@.len(),
            final(self).values@[r as int] == value,
            old(self).contains_value(value) ==> (*final(self) == *old(self)),
            !old(self).contains_value(value) ==> (r == old(self).values@.len() && final(self).values@ == old(self).values@.push(value) && final(self).interned_at@ == old(self).interned_at@.push(current)),
            forall|k: int|
                0 <= k < old(self).values@.len() ==> final(self).values@[k] == old(self).values@[k] && final(self).interned_at@[k] == old(self).interned_at@[k],
    {
        let n = self.values.len();
        let mut i: usize = 0;
        while i < n
            invariant
                n == self.values@.len(),
                i <= n,
                forall|j: int| 0 <= j < i ==> self.values@[j] != value,
            decreases n - i,
        {
            if self.values[i] == value {
                return i;
            }
            i = i + 1;
        }
        let id = self.values.len();
        self.values.push(value);
        self.interned_at.push(current);
        proof {
            assert forall|a: int, b: int|
                0 <= a < self.values@.len() && 0 <= b < self.values@.len() && a != b implies (
            #[trigger] self.values@[a]) != (#[trigger] self.values@[b]) by {
                if a < id && b < id {
                    assert(old(self).values@[a] != old(self).values@[b]);
                }
            }
        }
        id
    }

    /// Read an interned value back and the revision it was interned at: ids
    /// are stable, so this is exactly the value passed to the `intern` call
    /// that created the id.
    pub fn lookup(&self, id: usize) -> (r: (u64, u64))
        requires
            self.wf(),
            id < self.values@.len(),
        ensures
            r.0 == self.values@[id as int],
            r.1 == self.interned_at@[id as int],
    {
        (self.values[id], self.interned_at[id])
    }

    /// Hash-consing: two values intern to the same id exactly when they are
    /// equal.
    pub proof fn lemma_intern_injective(self, i: int, j: int)
        requires
            self.wf(),
            0 <= i < self.values@.len(),
            0 <= j < self.values@.len(),
        ensures
            (self.values@[i] == self.values@[j]) <==> (i == j),
    {
    }
}

} // verus!
