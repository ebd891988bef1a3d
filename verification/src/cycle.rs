//! Cycle recovery configuration shared by all ingredient kinds.

use vstd::prelude::*;

verus! {

/// How an ingredient recovers when one of its queries is found on the
/// active-query stack.
#[derive(Clone, Copy, PartialEq, Eq, Structural, Debug)]
pub enum CycleRecoveryStrategy {
    /// Report the cycle to every participant's call site.
    Panic,
    /// Supply a configured fallback value to the participants.
    Fallback,
    /// Iterate the cycle until the values stabilise.
    Fixpoint,
}

} // verus!
