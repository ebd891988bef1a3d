//! The storage registry: jars, the ingredient table, views and the
//! per-handle runtime.
//!
//! A jar registers a block of ingredients; the registry assigns the block's
//! first index from the current table length and requires each created
//! ingredient to self-report exactly the slot it ends up in. Lookup by jar
//! type goes through a mutex-guarded map; lookup by index reads the grow-only
//! ingredient vector.

use vstd::prelude::*;

use crate::cycle::CycleRecoveryStrategy;
use crate::runtime::Runtime;
use crate::sync::{
    index_vec_entries, index_vec_get, index_vec_len, index_vec_new, index_vec_push,
    ingredient_vec_entries, ingredient_vec_get, ingredient_vec_len, ingredient_vec_new,
    ingredient_vec_push, jar_map_entries, jar_map_get, jar_map_insert, jar_map_new, IndexVec,
    IngredientVec, JarMap,
};

verus! {

/// Marker type: nonces of this kind identify one storage instance.
#[derive(Clone, Copy, PartialEq, Eq, Structural, Debug)]
pub struct StorageNonce;

/// A process-unique identifier, never reused, so that caches keyed on a
/// storage can detect a wrong database in constant time. Nonces handed out
/// here identify a [`StorageNonce`]: one storage instance.
#[derive(Clone, Copy, PartialEq, Eq, Structural, Debug)]
pub struct Nonce {
    pub value: u64,
}

impl Nonce {
    pub fn from_value(value: u64) -> (r: Nonce)
        ensures
            r.value == value,
    {
        Nonce { value }
    }
}

/// An ingredient index identifies a particular ingredient in the database:
/// the position of its descriptor in the storage's ingredient vector.
#[derive(Clone, Copy, PartialEq, Eq, Structural, PartialOrd, Ord, Hash, Debug)]
pub struct IngredientIndex(pub u32);

/// Description of one ingredient: its self-reported index, whether it must
/// be reset when a new revision starts, and its cycle recovery strategy.
#[derive(Clone, Copy, PartialEq, Eq, Structural, Debug)]
pub struct IngredientInfo {
    pub index: IngredientIndex,
    pub requires_reset: bool,
    pub strategy: CycleRecoveryStrategy,
}

/// The word encoding of an ingredient descriptor stored in the shared
/// vector.
pub open spec fn info_enc(info: IngredientInfo) -> (u64, u64, u64) {
    (
        info.index.0 as u64,
        if info.requires_reset {
            1u64
        } else {
            0u64
        },
        match info.strategy {
            CycleRecoveryStrategy::Panic => 0u64,
            CycleRecoveryStrategy::Fallback => 1u64,
            CycleRecoveryStrategy::Fixpoint => 2u64,
        },
    )
}

/// Decoding of a stored descriptor word.
pub open spec fn info_dec(e: (u64, u64, u64)) -> IngredientInfo {
    IngredientInfo {
        index: IngredientIndex(e.0 as u32),
        requires_reset: e.1 == 1,
        strategy: if e.2 == 1 {
            CycleRecoveryStrategy::Fallback
        } else if e.2 == 2 {
            CycleRecoveryStrategy::Fixpoint
        } else {
            CycleRecoveryStrategy::Panic
        },
    }
}

fn encode_info(info: IngredientInfo) -> (r: (u64, u64, u64))
    ensures
        r == info_enc(info),
{
    (
        info.index.0 as u64,
        if info.requires_reset {
            1u64
        } else {
            0u64
        },
        match info.strategy {
            CycleRecoveryStrategy::Panic => 0u64,
            CycleRecoveryStrategy::Fallback => 1u64,
            CycleRecoveryStrategy::Fixpoint => 2u64,
        },
    )
}

fn decode_info(e: (u64, u64, u64)) -> (r: IngredientInfo)
    requires
        e.0 <= u32::MAX as u64,
    ensures
        r == info_dec(e),
{
    (IngredientInfo {
        index: IngredientIndex(e.0 as u32),
        requires_reset: e.1 == 1,
        strategy: if e.2 == 1 {
            CycleRecoveryStrategy::Fallback
        } else if e.2 == 2 {
            CycleRecoveryStrategy::Fixpoint
        } else {
            CycleRecoveryStrategy::Panic
        },
    })
}

/// A jar bundles the ingredients of one feature; user code implements it.
/// `create_ingredients` must self-report indices that start at `base` and
/// follow it densely, which is what lets ingredients cache their own index.
pub trait Jar {
    /// A stable identifier for the jar's type.
    spec fn type_id_spec(&self) -> u64;

    /// The ingredients this jar creates when its block starts at `base`.
    spec fn ingredients_spec(&self, base: IngredientIndex) -> Seq<IngredientInfo>;

    fn type_id(&self) -> (r: u64)
        ensures
            r == self.type_id_spec(),
    ;

    fn create_ingredients(&self, base: IngredientIndex) -> (r: Vec<IngredientInfo>)
        ensures
            r@ == self.ingredients_spec(base),
            forall|j: int|
                0 <= j < r@.len() ==> (#[trigger] r@[j]).index.0 == base.0 + j,
    ;
}

/// The indices of the descriptors that ask for a reset at each new revision,
/// in creation order: what registration appends to the reset list.
pub open spec fn reset_indices(s: Seq<IngredientInfo>) -> Seq<u64>
    decreases s.len(),
{
    if s.len() == 0 {
        Seq::empty()
    } else {
        let prefix = reset_indices(s.drop_last());
        if s.last().requires_reset {
            prefix.push(s.last().index.0 as u64)
        } else {
            prefix
        }
    }
}

/// A jar of equally-configured ingredients keyed by an explicit type id: the
/// shape the code-generation layer produces for one feature.
pub struct BasicJar {
    pub type_key: u64,
    pub count: u32,
    pub requires_reset: bool,
    pub strategy: CycleRecoveryStrategy,
}

impl Jar for BasicJar {
    open spec fn type_id_spec(&self) -> u64 {
        self.type_key
    }

    /// `count` equally-configured ingredients, capped at the index space.
    open spec fn ingredients_spec(&self, base: IngredientIndex) -> Seq<IngredientInfo> {
        let n: int = if self.count as int > u32::MAX - base.0 {
            u32::MAX - base.0
        } else {
            self.count as int
        };
        Seq::new(
            n as nat,
            |j: int|
                IngredientInfo {
                    index: IngredientIndex((base.0 + j) as u32),
                    requires_reset: self.requires_reset,
                    strategy: self.strategy,
                },
        )
    }

    fn type_id(&self) -> (r: u64) {
        self.type_key
    }

    #[verifier::loop_isolation(false)]
    fn create_ingredients(&self, base: IngredientIndex) -> (r: Vec<IngredientInfo>) {
        let room = u32::MAX - base.0;
        let n = if self.count > room {
            room
        } else {
            self.count
        };
        let mut r: Vec<IngredientInfo> = Vec::new();
        let mut j: u32 = 0;
        while j < n
            invariant
                j <= n,
                n <= u32::MAX - base.0,
                r@.len() == j,
                forall|k: int| 0 <= k < j ==> r@[k] == self.ingredients_spec(base)[k],
                forall|k: int| 0 <= k < j ==> (#[trigger] r@[k]).index.0 == base.0 + k,
            decreases n - j,
        {
            r.push(IngredientInfo {
                index: IngredientIndex(base.0 + j),
                requires_reset: self.requires_reset,
                strategy: self.strategy,
            });
            j = j + 1;
        }
        proof {
            assert(r@ =~= self.ingredients_spec(base));
        }
        r
    }
}

/// Registry of the views a database handle can be upcast to, by view type
/// id.
#[derive(Clone, PartialEq, Eq, Debug)]
pub struct Views {
    pub entries: Vec<u64>,
}

impl Views {
    /// The view type is registered.
    pub open spec fn registered(self, view_type: u64) -> bool {
        self.entries@.contains(view_type)
    }

    pub fn new() -> (r: Views)
        ensures
            r.entries@.len() == 0,
    {
        Views { entries: Vec::new() }
    }

    /// Register a view type; registering one twice is harmless.
    pub fn add(&mut self, view_type: u64)
        ensures
            final(self).entries@ == old(self).entries@.push(view_type),
            final(self).registered(view_type),
            forall|t: u64| old(self).registered(t) ==> final(self).registered(t),
    {
        self.entries.push(view_type);
        proof {
            assert(self.entries@[self.entries@.len() - 1] == view_type);
            assert forall|t: u64| old(self).registered(t) implies self.registered(t) by {
                let i = choose|i: int|
                    0 <= i < old(self).entries@.len() && old(self).entries@[i] == t;
                assert(self.entries@[i] == t);
            }
        }
    }

    /// The position at which a view type was registered, if it was.
    pub fn try_view_index(&self, view_type: u64) -> (r: Option<usize>)
        ensures
            match r {
                Some(i) => i < self.entries@.len() && self.entries@[i as int] == view_type,
                None => !self.registered(view_type),
            },
    {
        let mut i: usize = 0;
        while i < self.entries.len()
            invariant
                i <= self.entries@.len(),
                forall|j: int| 0 <= j < i ==> self.entries@[j] != view_type,
            decreases self.entries@.len() - i,
        {
            if self.entries[i] == view_type {
                return Some(i);
            }
            i = i + 1;
        }
        None
    }
}

/// The storage for one database: the views, the nonce, the jar map, the
/// ingredient vector, the reset list, and the handle's runtime.
pub struct Storage {
    pub shared_upcasts: Views,
    pub shared_nonce: Nonce,
    pub jar_map: JarMap,
    pub ingredients_vec: IngredientVec,
    pub ingredients_requiring_reset: IndexVec,
    pub runtime: Runtime,
}

impl Storage {
    /// The descriptors in the ingredient vector, decoded.
    pub open spec fn ingredient_at(self, i: int) -> IngredientInfo {
        info_dec(ingredient_vec_entries(self.ingredients_vec)[i])
    }

    pub open spec fn ingredient_count(self) -> int {
        ingredient_vec_entries(self.ingredients_vec).len() as int
    }

    /// The jar table: jar type id to first ingredient index.
    pub open spec fn jars(self) -> Map<u64, u64> {
        jar_map_entries(self.jar_map)
    }

    pub open spec fn upcasts(self) -> Views {
        self.shared_upcasts
    }

    pub open spec fn nonce_spec(self) -> Nonce {
        self.shared_nonce
    }

    pub open spec fn runtime_spec(self) -> Runtime {
        self.runtime
    }

    pub open spec fn reset_list(self) -> Seq<u64> {
        index_vec_entries(self.ingredients_requiring_reset)
    }

    /// The registry invariant: every stored descriptor self-reports exactly
    /// the slot it sits in, the jar map points at existing blocks, and the
    /// reset list names existing slots.
    pub open spec fn wf(self) -> bool {
        &&& self.runtime.wf()
        &&& self.ingredient_count() <= u32::MAX as int + 1
        &&& forall|i: int|
            0 <= i < self.ingredient_count() ==> (#[trigger] ingredient_vec_entries(self.ingredients_vec)[i]).0 == i
        &&& forall|k: u64|
            self.jars().contains_key(k) ==> (#[trigger] self.jars()[k]) <= self.ingredient_count()
                && self.jars()[k] < u32::MAX as u64
        &&& forall|j: int|
            0 <= j < self.reset_list().len() ==> (#[trigger] self.reset_list()[j])
                < self.ingredient_count() && self.reset_list()[j] <= u32::MAX as u64
    }

    /// The registry invariant only depends on the shared tables and the
    /// runtime.
    pub proof fn lemma_wf_congruence(pre: Storage, post: Storage)
        requires
            pre.wf(),
            ingredient_vec_entries(post.ingredients_vec) == ingredient_vec_entries(
                pre.ingredients_vec,
            ),
            jar_map_entries(post.jar_map) == jar_map_entries(pre.jar_map),
            index_vec_entries(post.ingredients_requiring_reset) == index_vec_entries(
                pre.ingredients_requiring_reset,
            ),
            post.runtime.wf(),
        ensures
            post.wf(),
    {
        assert forall|i: int|
            0 <= i < post.ingredient_count() implies (#[trigger] ingredient_vec_entries(
            post.ingredients_vec,
        )[i]).0 == i by {
            assert(ingredient_vec_entries(pre.ingredients_vec)[i].0 == i);
        }
        assert forall|k: u64| post.jars().contains_key(k) implies (#[trigger] post.jars()[k])
            <= post.ingredient_count() && post.jars()[k] < u32::MAX as u64 by {
            assert(pre.jars().contains_key(k));
            assert(pre.jars()[k] <= pre.ingredient_count() && pre.jars()[k] < u32::MAX as u64);
        }
        assert forall|j: int| 0 <= j < post.reset_list().len() implies (
        #[trigger] post.reset_list()[j]) < post.ingredient_count() && post.reset_list()[j]
            <= u32::MAX as u64 by {
            assert(pre.reset_list()[j] < pre.ingredient_count() && pre.reset_list()[j]
                <= u32::MAX as u64);
        }
    }

    /// A fresh storage around the given nonce.
    pub fn new(nonce_value: u64) -> (r: Storage)
        ensures
            r.wf(),
            r.nonce_spec().value == nonce_value,
            r.ingredient_count() == 0,
            r.jars() == Map::<u64, u64>::empty(),
            r.upcasts().entries@.len() == 0,
            r.runtime_spec().clock.current == 1,
    {
        Storage {
            shared_upcasts: Views::new(),
            shared_nonce: Nonce::from_value(nonce_value),
            jar_map: jar_map_new(),
            ingredients_vec: ingredient_vec_new(),
            ingredients_requiring_reset: index_vec_new(),
            runtime: Runtime::new(),
        }
    }

    /// Register an upcast to the view type.
    pub fn add_upcast(&mut self, view_type: u64)
        requires
            old(self).wf(),
        ensures
            final(self).wf(),
            final(self).upcasts().entries@ == old(self).upcasts().entries@.push(view_type),
            final(self).upcasts().registered(view_type),
            forall|t: u64|
                old(self).upcasts().registered(t) ==> final(self).upcasts().registered(t),
            final(self).jars() == old(self).jars(),
            ingredient_vec_entries(final(self).ingredients_vec) == ingredient_vec_entries(old(self).ingredients_vec),
            final(self).nonce_spec() == old(self).nonce_spec(),
            final(self).runtime_spec() == old(self).runtime_spec(),
    {
        self.shared_upcasts.add(view_type);
        proof {
            Storage::lemma_wf_congruence(*old(self), *self);
        }
    }

    /// Adds the ingredients in `jar` to the registry if its type is not
    /// present yet, and returns the index of the jar's first ingredient.
    /// Each created ingredient is proved to self-report exactly the slot it
    /// is pushed into.
    pub fn add_or_lookup_jar_by_type<J: Jar>(&mut self, jar: &J) -> (r: IngredientIndex)
        requires
            old(self).wf(),
            old(self).ingredient_count() < u32::MAX as int,
        ensures
            final(self).wf(),
            final(self).jars().contains_key(jar.type_id_spec()),
            r.0 as u64 == final(self).jars()[jar.type_id_spec()],
            old(self).jars().contains_key(jar.type_id_spec()) ==> (*final(self) == *old(self) && r.0
                as u64 == old(self).jars()[jar.type_id_spec()]),
            !old(self).jars().contains_key(jar.type_id_spec()) ==> (r.0 == old(self).ingredient_count() && final(self).jars() == old(self).jars().insert(
                jar.type_id_spec(),
                r.0 as u64,
            )),
            final(self).nonce_spec() == old(self).nonce_spec(),
            final(self).runtime_spec() == old(self).runtime_spec(),
            final(self).upcasts() == old(self).upcasts(),
            final(self).ingredient_count() >= old(self).ingredient_count(),
            forall|i: int|
                0 <= i < old(self).ingredient_count() ==> ingredient_vec_entries(final(self).ingredients_vec)[i] == ingredient_vec_entries(old(self).ingredients_vec)[i],
            // a new jar's created descriptors are appended, in order, and
            // exactly the reset-requesting ones join the reset list
            !old(self).jars().contains_key(jar.type_id_spec()) ==> (final(self).ingredient_count()
                == old(self).ingredient_count() + jar.ingredients_spec(r).len() && (forall|j: int|
                0 <= j < jar.ingredients_spec(r).len() ==> final(self).ingredient_at(
                    old(self).ingredient_count() + j,
                ) == jar.ingredients_spec(r)[j]) && final(self).reset_list() == old(
                self,
            ).reset_list() + reset_indices(jar.ingredients_spec(r))),
    {
        let tid = jar.type_id();
        match jar_map_get(&self.jar_map, tid) {
            Some(first) => {
                proof {
                    Storage::lemma_wf_congruence(*old(self), *self);
                    assert(old(self).jars()[tid] < u32::MAX as u64);
                }
                IngredientIndex(first as u32)
            },
            None => {
                let base_usize = ingredient_vec_len(&self.ingredients_vec);
                proof {
                    assert forall|i: int| 0 <= i < index_vec_entries(
                        self.ingredients_requiring_reset,
                    ).len() implies (#[trigger] index_vec_entries(
                        self.ingredients_requiring_reset,
                    )[i]) < base_usize && index_vec_entries(self.ingredients_requiring_reset)[i]
                        <= u32::MAX as u64 by {
                        assert(old(self).reset_list()[i] < old(self).ingredient_count() && old(
                            self,
                        ).reset_list()[i] <= u32::MAX as u64);
                    }
                }
                let base = IngredientIndex::from(base_usize);
                let ingredients = jar.create_ingredients(base);
                proof {
                    assert(ingredients@.take(0) =~= Seq::<IngredientInfo>::empty());
                    assert(index_vec_entries(self.ingredients_requiring_reset) =~= old(
                        self,
                    ).reset_list() + reset_indices(ingredients@.take(0)));
                }
                let n = ingredients.len();
                let mut j: usize = 0;
                while j < n
                    invariant
                        self.runtime.wf(),
                        n == ingredients@.len(),
                        ingredients@ == jar.ingredients_spec(base),
                        forall|i: int|
                            0 <= i < j ==> ingredient_vec_entries(self.ingredients_vec)[base_usize
                                + i] == info_enc(#[trigger] ingredients@[i]),
                        index_vec_entries(self.ingredients_requiring_reset) == old(
                            self,
                        ).reset_list() + reset_indices(ingredients@.take(j as int)),
                        j <= n,
                        base.0 == base_usize,
                        base_usize == old(self).ingredient_count(),
                        base_usize < u32::MAX as int,
                        forall|i: int|
                            0 <= i < ingredients@.len() ==> (#[trigger] ingredients@[i]).index.0
                                == base.0 + i,
                        ingredient_vec_entries(self.ingredients_vec).len() == base_usize + j,
                        forall|i: int|
                            0 <= i < base_usize ==> ingredient_vec_entries(self.ingredients_vec)[i] == ingredient_vec_entries(old(self).ingredients_vec)[i],
                        forall|i: int|
                            0 <= i < ingredient_vec_entries(self.ingredients_vec).len() ==> (
                            #[trigger] ingredient_vec_entries(self.ingredients_vec)[i]).0 == i,
                        jar_map_entries(self.jar_map) == old(self).jars(),
                        self.shared_upcasts == old(self).upcasts(),
                        self.shared_nonce == old(self).nonce_spec(),
                        self.runtime == old(self).runtime_spec(),
                        forall|i: int|
                            0 <= i < index_vec_entries(self.ingredients_requiring_reset).len() ==> (#[trigger] index_vec_entries(self.ingredients_requiring_reset)[i]) < ingredient_vec_entries(self.ingredients_vec).len() + (n - j)
                                && index_vec_entries(self.ingredients_requiring_reset)[i]
                                <= u32::MAX as u64,
                    decreases n - j,
                {
                    let info = ingredients[j];
                    let expected = info.index;
                    if info.requires_reset {
                        index_vec_push(&mut self.ingredients_requiring_reset, expected.0 as u64);
                    }
                    let actual = ingredient_vec_push(&mut self.ingredients_vec, encode_info(info));
                    // The registry invariant: the self-reported index equals
                    // the slot the descriptor was published at.
                    proof {
                        assert(expected.0 as int == base.0 + j);
                        assert(actual == base_usize + j);
                        assert(ingredients@.take(j as int + 1).drop_last() =~= ingredients@.take(
                            j as int,
                        ));
                        assert(ingredients@.take(j as int + 1).last() == ingredients@[j as int]);
                        assert(index_vec_entries(self.ingredients_requiring_reset) =~= old(
                            self,
                        ).reset_list() + reset_indices(ingredients@.take(j as int + 1)));
                    }
                    j = j + 1;
                }
                proof {
                    assert(ingredients@.take(n as int) =~= ingredients@);
                    assert forall|j2: int| 0 <= j2 < ingredients@.len() implies self.ingredient_at(
                        base_usize + j2,
                    ) == ingredients@[j2] by {
                        assert(ingredient_vec_entries(self.ingredients_vec)[base_usize + j2]
                            == info_enc(ingredients@[j2]));
                        assert(info_dec(info_enc(ingredients@[j2])) == ingredients@[j2]);
                    }
                }
                jar_map_insert(&mut self.jar_map, tid, base.0 as u64);
                proof {
                    if n > 0 {
                        assert(ingredients@[n as int - 1].index.0 == base.0 + (n - 1));
                        assert(self.ingredient_count() == base.0 + n);
                    }
                    assert(self.ingredient_count() <= u32::MAX as int + 1);
                    assert forall|i: int|
                        0 <= i < self.reset_list().len() implies (#[trigger] self.reset_list()[i])
                        < self.ingredient_count() && self.reset_list()[i] <= u32::MAX as u64 by {}
                    assert forall|k: u64| self.jars().contains_key(k) implies (
                    #[trigger] self.jars()[k]) <= self.ingredient_count() && self.jars()[k]
                        < u32::MAX as u64 by {
                        if k != tid {
                            assert(old(self).jars().contains_key(k));
                        }
                    }
                }
                base
            },
        }
    }

    /// Return the index of the first ingredient of the given jar, if its
    /// type has been registered.
    pub fn lookup_jar_by_type<J: Jar>(&self, jar: &J) -> (r: Option<IngredientIndex>)
        requires
            self.wf(),
        ensures
            match r {
                Some(idx) => self.jars().contains_key(jar.type_id_spec()) && idx.0 as u64
                    == self.jars()[jar.type_id_spec()],
                None => !self.jars().contains_key(jar.type_id_spec()),
            },
    {
        match jar_map_get(&self.jar_map, jar.type_id()) {
            Some(first) => Some(IngredientIndex(first as u32)),
            None => None,
        }
    }

    /// Read an ingredient's descriptor by index.
    pub fn lookup_ingredient(&self, index: IngredientIndex) -> (r: IngredientInfo)
        requires
            self.wf(),
            (index.0 as int) < self.ingredient_count(),
        ensures
            r == self.ingredient_at(index.0 as int),
    {
        let e = ingredient_vec_get(&self.ingredients_vec, index.as_usize());
        decode_info(e)
    }

    /// Begin a mutable ingredient access: advance the revision, and report
    /// which ingredients must reset their per-revision state, together with
    /// the requested ingredient's descriptor.
    pub fn lookup_ingredient_mut(&mut self, index: IngredientIndex) -> (r: (
        IngredientInfo,
        Vec<IngredientIndex>,
    ))
        requires
            old(self).wf(),
            (index.0 as int) < old(self).ingredient_count(),
            old(self).runtime_spec().clock.current < u64::MAX,
        ensures
            final(self).wf(),
            final(self).runtime_spec().clock.current == old(self).runtime_spec().clock.current + 1,
            r.0 == final(self).ingredient_at(index.0 as int),
            r.1@.len() == final(self).reset_list().len(),
            forall|i: int|
                0 <= i < r.1@.len() ==> (#[trigger] r.1@[i]).0 as u64 == final(self).reset_list()[i],
            ingredient_vec_entries(final(self).ingredients_vec) == ingredient_vec_entries(old(self).ingredients_vec),
            index_vec_entries(final(self).ingredients_requiring_reset) == index_vec_entries(
                old(self).ingredients_requiring_reset,
            ),
            final(self).jars() == old(self).jars(),
            final(self).nonce_spec() == old(self).nonce_spec(),
    {
        self.runtime.new_revision();
        proof {
            Storage::lemma_wf_congruence(*old(self), *self);
        }
        let n = index_vec_len(&self.ingredients_requiring_reset);
        let mut resets: Vec<IngredientIndex> = Vec::new();
        let mut i: usize = 0;
        while i < n
            invariant
                self.wf(),
                n == self.reset_list().len(),
                i <= n,
                resets@.len() == i,
                forall|k: int|
                    0 <= k < i ==> (#[trigger] resets@[k]).0 as u64 == self.reset_list()[k],
            decreases n - i,
        {
            let e = index_vec_get(&self.ingredients_requiring_reset, i);
            resets.push(IngredientIndex(e as u32));
            i = i + 1;
        }
        let e = ingredient_vec_get(&self.ingredients_vec, index.as_usize());
        let info = decode_info(e);
        (info, resets)
    }

    /// The runtime of this handle.
    pub fn runtime(&self) -> (r: &Runtime)
        ensures
            *r == self.runtime_spec(),
    {
        &self.runtime
    }

    /// The nonce of this storage.
    pub fn nonce(&self) -> (r: Nonce)
        ensures
            r == self.nonce_spec(),
    {
        self.shared_nonce
    }

    /// The registered views.
    pub fn views_ref(&self) -> (r: &Views)
        ensures
            *r == self.upcasts(),
    {
        &self.shared_upcasts
    }
}

impl Default for IngredientCache {
    fn default() -> (r: IngredientCache)
        ensures
            r.cached is None,
    {
        IngredientCache::new()
    }
}

impl IngredientIndex {
    /// Create an ingredient index from a usize.
    pub fn from(v: usize) -> (r: Self)
        requires
            v < u32::MAX as usize,
        ensures
            r.0 == v,
    {
        IngredientIndex(v as u32)
    }

    /// Convert the ingredient index back into a usize.
    pub fn as_usize(self) -> (r: usize)
        ensures
            r == self.0,
    {
        self.0 as usize
    }

    /// The cycle recovery strategy of the ingredient this index points at.
    pub fn cycle_recovery_strategy(self, db: &Database) -> (r: CycleRecoveryStrategy)
        requires
            db.storage_view().wf(),
            (self.0 as int) < db.storage_view().ingredient_count(),
        ensures
            r == db.storage_view().ingredient_at(self.0 as int).strategy,
    {
        db.lookup_ingredient(self).strategy
    }

    /// The index `1 + offset` slots after this one: the position of a jar's
    /// follow-on ingredient.
    pub fn successor(self, index: usize) -> (r: Self)
        requires
            self.0 as int + 1 + index as int <= u32::MAX as int,
        ensures
            r.0 == self.0 + 1 + index,
    {
        IngredientIndex(self.0 + 1 + index as u32)
    }
}

/// A database handle: a storage plus the view registry access that lets
/// feature crates share it.
pub struct Database {
    pub storage: Storage,
}

/// Access to the storage underlying a database handle; what the
/// feature-specific wrappers are generated against.
pub trait DatabaseGen {
    spec fn storage_view(&self) -> Storage;

    /// The views registered on this handle.
    fn views(&self) -> (r: &Views)
        ensures
            *r == self.storage_view().upcasts(),
    ;

    /// The nonce of the underlying storage.
    fn nonce(&self) -> (r: Nonce)
        ensures
            r == self.storage_view().nonce_spec(),
    ;

    /// Lookup the index assigned to the given jar, by the jar's type alone.
    fn lookup_jar_by_type<J: Jar>(&self, jar: &J) -> (r: Option<IngredientIndex>)
        requires
            self.storage_view().wf(),
        ensures
            match r {
                Some(idx) => self.storage_view().jars().contains_key(jar.type_id_spec()) && idx.0
                    as u64 == self.storage_view().jars()[jar.type_id_spec()],
                None => !self.storage_view().jars().contains_key(jar.type_id_spec()),
            },
    ;

    /// Read an ingredient's descriptor by index.
    fn lookup_ingredient(&self, index: IngredientIndex) -> (r: IngredientInfo)
        requires
            self.storage_view().wf(),
            (index.0 as int) < self.storage_view().ingredient_count(),
        ensures
            r == self.storage_view().ingredient_at(index.0 as int),
    ;

    /// The runtime of this handle.
    fn runtime(&self) -> (r: &Runtime)
        ensures
            *r == self.storage_view().runtime_spec(),
    ;
}

/// Direct access to the owned storage of a handle.
pub trait HasStorage: DatabaseGen {
    fn storage(&self) -> (r: &Storage)
        ensures
            *r == self.storage_view(),
    ;
}

impl DatabaseGen for Database {
    open spec fn storage_view(&self) -> Storage {
        self.storage
    }

    fn views(&self) -> (r: &Views) {
        self.storage.views_ref()
    }

    fn nonce(&self) -> (r: Nonce) {
        self.storage.nonce()
    }

    fn lookup_jar_by_type<J: Jar>(&self, jar: &J) -> (r: Option<IngredientIndex>) {
        self.storage.lookup_jar_by_type(jar)
    }

    fn lookup_ingredient(&self, index: IngredientIndex) -> (r: IngredientInfo) {
        self.storage.lookup_ingredient(index)
    }

    fn runtime(&self) -> (r: &Runtime) {
        self.storage.runtime()
    }
}

impl HasStorage for Database {
    fn storage(&self) -> (r: &Storage) {
        &self.storage
    }
}

impl Database {
    /// A fresh handle around a fresh storage with the given nonce.
    pub fn new(nonce_value: u64) -> (r: Database)
        ensures
            r.storage_view().wf(),
            r.storage_view().nonce_spec().value == nonce_value,
            r.storage_view().ingredient_count() == 0,
    {
        Database { storage: Storage::new(nonce_value) }
    }

    /// Upcast this handle to the given registered view: return the slot at
    /// which the view's upcast entry was registered. Asking for a view that
    /// was never added is a programming error, excluded by the contract.
    pub fn as_view(&self, view_type: u64) -> (r: usize)
        requires
            self.storage_view().upcasts().registered(view_type),
        ensures
            r < self.storage_view().upcasts().entries@.len(),
            self.storage_view().upcasts().entries@[r as int] == view_type,
    {
        let r = self.storage.views_ref().try_view_index(view_type);
        match r {
            Some(i) => i,
            None => {
                proof {
                    assert(false);
                }
                0
            },
        }
    }

    /// Mutable upcast to the given registered view; same lookup, through a
    /// mutable handle.
    pub fn as_view_mut(&mut self, view_type: u64) -> (r: usize)
        requires
            old(self).storage_view().upcasts().registered(view_type),
        ensures
            *final(self) == *old(self),
            r < final(self).storage_view().upcasts().entries@.len(),
            final(self).storage_view().upcasts().entries@[r as int] == view_type,
    {
        // Look the view up on a clone of the registry, as a mutable borrow of
        // the whole handle is already held.
        let entries = self.storage.shared_upcasts.entries.clone();
        proof {
            assert forall|i: int| 0 <= i < entries@.len() implies entries@[i]
                == self.storage.shared_upcasts.entries@[i] by {
                assert(cloned::<u64>(self.storage.shared_upcasts.entries@[i], entries@[i]));
            }
            assert(entries@ =~= self.storage.shared_upcasts.entries@);
        }
        let upcasts = Views { entries };
        let r = upcasts.try_view_index(view_type);
        match r {
            Some(i) => i,
            None => {
                proof {
                    assert(false);
                }
                0
            },
        }
    }
}

/// The views registered on a database handle.
pub fn views<Db: DatabaseGen>(db: &Db) -> (r: &Views)
    ensures
        *r == db.storage_view().upcasts(),
{
    DatabaseGen::views(db)
}

/// Caches the ingredient index resolved for one database, keyed by the
/// storage's nonce so a handle to a different database is detected.
pub struct IngredientCache {
    pub cached: Option<(u64, IngredientIndex)>,
}

impl IngredientCache {
    /// Create a new, empty cache.
    pub fn new() -> (r: IngredientCache)
        ensures
            r.cached is None,
    {
        IngredientCache { cached: None }
    }

    /// The ingredient index this cache resolved for the storage with the
    /// given nonce, if any.
    pub open spec fn cached_for(self, nonce: u64) -> Option<IngredientIndex> {
        match self.cached {
            Some((n, idx)) => if n == nonce {
                Some(idx)
            } else {
                None::<IngredientIndex>
            },
            None => None::<IngredientIndex>,
        }
    }

    /// Get the ingredient index for `jar` in this database; resolve and
    /// remember it if the cache is empty or belongs to another database.
    pub fn get_or_create<J: Jar>(&mut self, db: &mut Database, jar: &J) -> (r: IngredientIndex)
        requires
            old(db).storage_view().wf(),
            old(db).storage_view().ingredient_count() < u32::MAX as int,
        ensures
            final(db).storage_view().wf(),
            match old(self).cached_for(old(db).storage_view().nonce_spec().value) {
                Some(idx) => r == idx && *final(db) == *old(db) && *final(self) == *old(self),
                None => r.0 as u64 == final(db).storage_view().jars()[jar.type_id_spec()] && final(self).cached_for(final(db).storage_view().nonce_spec().value) == Some(r),
            },
    {
        let nonce = db.storage.nonce().value;
        if let Some((n, idx)) = self.cached {
            if n == nonce {
                return idx;
            }
        }
        let idx = self.create_ingredient(db, jar);
        self.cached = Some((nonce, idx));
        idx
    }

    /// Resolve the ingredient index for `jar` by registering its jar if
    /// needed.
    pub fn create_ingredient<J: Jar>(&self, db: &mut Database, jar: &J) -> (r: IngredientIndex)
        requires
            old(db).storage_view().wf(),
            old(db).storage_view().ingredient_count() < u32::MAX as int,
        ensures
            final(db).storage_view().wf(),
            final(db).storage_view().jars().contains_key(jar.type_id_spec()),
            r.0 as u64 == final(db).storage_view().jars()[jar.type_id_spec()],
            final(db).storage_view().nonce_spec() == old(db).storage_view().nonce_spec(),
    {
        db.storage.add_or_lookup_jar_by_type(jar)
    }
}

} // verus!
