//! Monotone logical clock with per-durability sub-revisions.
//!
//! A single global revision advances exactly when the database is mutated.
//! Each write carries a durability; the sub-revision for that level and all
//! lower levels is set to the new global revision.

use vstd::prelude::*;

verus! {

/// Coarse grouping of inputs by expected change frequency.
///
/// Higher durability means the input is expected to change less often, which
/// lets validation skip deep dependency walks when no write at or below the
/// memo's durability has occurred.
#[derive(Clone, Copy, PartialEq, Eq, Structural, Debug)]
pub enum Durability {
    Low,
    Medium,
    High,
}

impl Durability {
    /// Numeric level: `Low` is 0, `Medium` is 1, `High` is 2.
    pub open spec fn level(self) -> int {
        match self {
            Durability::Low => 0,
            Durability::Medium => 1,
            Durability::High => 2,
        }
    }

    /// `self` is at most `other` in the durability order.
    pub open spec fn le(self, other: Durability) -> bool {
        self.level() <= other.level()
    }

    pub fn as_index(self) -> (r: usize)
        ensures
            r == self.level(),
    {
        match self {
            Durability::Low => 0,
            Durability::Medium => 1,
            Durability::High => 2,
        }
    }

    /// The smaller of two durabilities.
    pub fn min(self, other: Durability) -> (r: Durability)
        ensures
            r == (if self.level() <= other.level() {
                self
            } else {
                other
            }),
            r.level() == if self.level() <= other.level() {
                self.level()
            } else {
                other.level()
            },
    {
        if self.as_index() <= other.as_index() {
            self
        } else {
            other
        }
    }
}

/// The revision clock: a monotone 64-bit global counter and one sub-revision
/// per durability level.
///
/// The sub-revision for durability `d` records the revision of the most
/// recent write whose durability was at least `d`.
#[derive(Clone, Copy, PartialEq, Eq, Structural, Debug)]
pub struct Clock {
    pub current: u64,
    pub low: u64,
    pub medium: u64,
    pub high: u64,
}

impl Clock {
    /// Sub-revision for durability `d`.
    pub open spec fn sub(self, d: Durability) -> u64 {
        match d {
            Durability::Low => self.low,
            Durability::Medium => self.medium,
            Durability::High => self.high,
        }
    }

    /// Clock invariant: every write bumps the low sub-revision, so it always
    /// equals the global revision, and higher levels lag behind lower ones.
    pub open spec fn wf(self) -> bool {
        &&& self.high <= self.medium
        &&& self.medium <= self.low
        &&& self.low == self.current
    }

    pub proof fn lemma_sub_le_current(self, d: Durability)
        requires
            self.wf(),
        ensures
            self.sub(d) <= self.current,
    {
    }

    /// Sub-revisions are anti-monotone in durability: a write at durability
    /// `d` also counts as a write at every lower level.
    pub proof fn lemma_sub_anti_monotone(self, d1: Durability, d2: Durability)
        requires
            self.wf(),
            d1.le(d2),
        ensures
            self.sub(d2) <= self.sub(d1),
    {
    }

    pub fn new() -> (r: Clock)
        ensures
            r.wf(),
            r.current == 0,
            r.low == 0,
            r.medium == 0,
            r.high == 0,
    {
        Clock { current: 0, low: 0, medium: 0, high: 0 }
    }

    /// Read the global revision.
    pub fn current(&self) -> (r: u64)
        ensures
            r == self.current,
    {
        self.current
    }

    /// Read the sub-revision for durability `d`.
    pub fn sub_revision(&self, d: Durability) -> (r: u64)
        ensures
            r == self.sub(d),
    {
        match d {
            Durability::Low => self.low,
            Durability::Medium => self.medium,
            Durability::High => self.high,
        }
    }

    /// Atomically advance the global revision and stamp the sub-revisions of
    /// every durability level at most `d` with the new revision.
    pub fn bump(&mut self, d: Durability)
        requires
            old(self).wf(),
            old(self).current < u64::MAX,
        ensures
            final(self).wf(),
            final(self).current == old(self).current + 1,
            final(self).low == final(self).current,
            final(self).medium == if d.level() >= 1 {
                final(self).current
            } else {
                old(self).medium
            },
            final(self).high == if d.level() >= 2 {
                final(self).current
            } else {
                old(self).high
            },
            forall|e: Durability| old(self).sub(e) <= final(self).sub(e),
    {
        self.current = self.current + 1;
        self.low = self.current;
        match d {
            Durability::Low => {},
            Durability::Medium => {
                self.medium = self.current;
            },
            Durability::High => {
                self.medium = self.current;
                self.high = self.current;
            },
        }
    }
}

} // verus!
