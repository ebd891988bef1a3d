//! Incremental computation engine: a revision-based dependency tracker,
//! per-query memoization with red/green validation, tracked-struct and
//! interned-value identity, and a storage registry of ingredients.

pub mod cycle;
pub mod engine;
pub mod intern;
pub mod revision;
pub mod runtime;
pub mod storage;
pub mod sync;
pub mod tracked_struct;

use vstd::prelude::*;

verus! {

/// A 32-bit identifier assigned by an ingredient; interpretation is
/// ingredient-local.
#[derive(Clone, Copy, PartialEq, Eq, Structural, Debug)]
pub struct Id {
    pub value: u32,
}

impl Id {
    pub fn from_u32(value: u32) -> (r: Id)
        ensures
            r.value == value,
    {
        Id { value }
    }

    pub fn as_u32(self) -> (r: u32)
        ensures
            r == self.value,
    {
        self.value
    }
}

} // verus!
