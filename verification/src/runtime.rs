//! The per-handle runtime: the revision clock of one storage.

use vstd::prelude::*;

use crate::revision::Clock;

verus! {

/// The runtime carried by a database handle: the revision clock.
#[derive(Clone, Copy, PartialEq, Eq, Structural, Debug)]
pub struct Runtime {
    pub clock: Clock,
}

impl Runtime {
    pub open spec fn wf(self) -> bool {
        &&& self.clock.wf()
        &&& self.clock.current >= 1
    }

    pub fn new() -> (r: Runtime)
        ensures
            r.wf(),
            r.clock.current == 1,
    {
        Runtime { clock: Clock { current: 1, low: 1, medium: 1, high: 1 } }
    }

    /// Read the current global revision.
    pub fn current_revision(&self) -> (r: u64)
        ensures
            r == self.clock.current,
    {
        self.clock.current()
    }

    /// Advance the global revision; called when a mutable ingredient access
    /// begins.
    pub fn new_revision(&mut self)
        requires
            old(self).wf(),
            old(self).clock.current < u64::MAX,
        ensures
            final(self).wf(),
            final(self).clock.current == old(self).clock.current + 1,
    {
        self.clock.bump(crate::revision::Durability::Low);
    }
}

} // verus!
