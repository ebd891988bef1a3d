//! Trusted wrappers around the shared collections that back the registry: a
//! mutex-guarded hash map for the jar table and grow-only concurrent vectors
//! for the ingredient table.
//!
//! Each collection is held in a struct whose contents Verus sees only through
//! an uninterpreted name; the wrappers state what each operation does to the
//! contents, as the crates' sources show it.

use vstd::prelude::*;

use orx_concurrent_vec::ConcurrentVec;
use parking_lot::Mutex;
use rustc_hash::FxHashMap;

verus! {

/// Map from a jar's type id to the index of its first ingredient, guarded by
/// a mutex so that registration can reserve a block of indices atomically.
#[verifier::external_body]
pub struct JarMap {
    inner: Mutex<FxHashMap<u64, u64>>,
}

/// What the jar map holds.
pub uninterp spec fn jar_map_entries(m: JarMap) -> Map<u64, u64>;

/// Relies on parking_lot::Mutex::new and FxHashMap (std HashMap) default: a
/// fresh map is empty.
#[verifier::external_body]
pub fn jar_map_new() -> (r: JarMap)
    ensures
        forall|k: u64| !jar_map_entries(r).contains_key(k),
{
    JarMap { inner: Mutex::new(FxHashMap::default()) }
}

/// Relies on parking_lot::Mutex::lock and HashMap::get: returns the value
/// stored under `k`, if any.
#[verifier::external_body]
pub fn jar_map_get(m: &JarMap, k: u64) -> (r: Option<u64>)
    ensures
        r == if jar_map_entries(*m).contains_key(k) {
            Some(jar_map_entries(*m)[k])
        } else {
            None::<u64>
        },
{
    m.inner.lock().get(&k).copied()
}

/// Relies on parking_lot::Mutex::lock and HashMap::insert: stores `v` under
/// `k`, replacing any earlier value.
#[verifier::external_body]
pub fn jar_map_insert(m: &mut JarMap, k: u64, v: u64)
    ensures
        jar_map_entries(*final(m)) == jar_map_entries(*old(m)).insert(k, v),
{
    m.inner.lock().insert(k, v);
}

/// Grow-only concurrent vector of encoded ingredient descriptors: once a slot
/// is published its contents stay put for the life of the storage.
#[verifier::external_body]
pub struct IngredientVec {
    inner: ConcurrentVec<(u64, u64, u64)>,
}

/// What the ingredient vector holds, in push order.
pub uninterp spec fn ingredient_vec_entries(v: IngredientVec) -> Seq<(u64, u64, u64)>;

/// Relies on orx_concurrent_vec::ConcurrentVec::new: a fresh vector is empty.
#[verifier::external_body]
pub fn ingredient_vec_new() -> (r: IngredientVec)
    ensures
        ingredient_vec_entries(r).len() == 0,
{
    IngredientVec { inner: ConcurrentVec::new() }
}

/// Relies on ConcurrentVec::len: the number of pushed elements.
#[verifier::external_body]
pub fn ingredient_vec_len(v: &IngredientVec) -> (r: usize)
    ensures
        r == ingredient_vec_entries(*v).len(),
{
    v.inner.len()
}

/// Relies on ConcurrentVec::push: appends the element and returns the index
/// it was written at.
#[verifier::external_body]
pub fn ingredient_vec_push(v: &mut IngredientVec, e: (u64, u64, u64)) -> (r: usize)
    ensures
        ingredient_vec_entries(*final(v)) == ingredient_vec_entries(*old(v)).push(e),
        r == ingredient_vec_entries(*old(v)).len(),
{
    v.inner.push(e)
}

/// Relies on ConcurrentVec::get and ConcurrentElement::copied: reads the
/// element published at `i`.
#[verifier::external_body]
pub fn ingredient_vec_get(v: &IngredientVec, i: usize) -> (r: (u64, u64, u64))
    requires
        i < ingredient_vec_entries(*v).len(),
    ensures
        r == ingredient_vec_entries(*v)[i as int],
{
    v.inner.get(i).unwrap().copied()
}

/// Grow-only concurrent vector of ingredient indices (the ones that need a
/// reset when a new revision starts).
#[verifier::external_body]
pub struct IndexVec {
    inner: ConcurrentVec<u64>,
}

/// What the index vector holds, in push order.
pub uninterp spec fn index_vec_entries(v: IndexVec) -> Seq<u64>;

/// Relies on orx_concurrent_vec::ConcurrentVec::new: a fresh vector is empty.
#[verifier::external_body]
pub fn index_vec_new() -> (r: IndexVec)
    ensures
        index_vec_entries(r).len() == 0,
{
    IndexVec { inner: ConcurrentVec::new() }
}

/// Relies on ConcurrentVec::len: the number of pushed elements.
#[verifier::external_body]
pub fn index_vec_len(v: &IndexVec) -> (r: usize)
    ensures
        r == index_vec_entries(*v).len(),
{
    v.inner.len()
}

/// Relies on ConcurrentVec::push: appends the element and returns the index
/// it was written at.
#[verifier::external_body]
pub fn index_vec_push(v: &mut IndexVec, e: u64) -> (r: usize)
    ensures
        index_vec_entries(*final(v)) == index_vec_entries(*old(v)).push(e),
        r == index_vec_entries(*old(v)).len(),
{
    v.inner.push(e)
}

/// Relies on ConcurrentVec::get and ConcurrentElement::copied: reads the
/// element published at `i`.
#[verifier::external_body]
pub fn index_vec_get(v: &IndexVec, i: usize) -> (r: u64)
    requires
        i < index_vec_entries(*v).len(),
    ensures
        r == index_vec_entries(*v)[i as int],
{
    v.inner.get(i).unwrap().copied()
}

} // verus!
