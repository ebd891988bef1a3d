use salsa::cycle::CycleRecoveryStrategy;
use salsa::storage::{views, BasicJar, Database, DatabaseGen, IngredientCache, IngredientIndex};

fn jar(type_key: u64, count: u32) -> BasicJar {
    BasicJar { type_key, count, requires_reset: false, strategy: CycleRecoveryStrategy::Panic }
}

#[test]
fn jar_registration_assigns_dense_blocks() {
    let mut db = Database::new(1);
    let a = jar(100, 2);
    let b = jar(200, 3);
    let ia = db.storage.add_or_lookup_jar_by_type(&a);
    assert_eq!(ia.as_usize(), 0);
    let ib = db.storage.add_or_lookup_jar_by_type(&b);
    assert_eq!(ib.as_usize(), 2);
    // registering a jar of a known type returns the existing block
    let ia2 = db.storage.add_or_lookup_jar_by_type(&a);
    assert_eq!(ia2.as_usize(), 0);
    assert_eq!(db.storage.lookup_jar_by_type(&b).unwrap().as_usize(), 2);
    assert!(db.storage.lookup_jar_by_type(&jar(300, 1)).is_none());
}

#[test]
fn lookup_ingredient_roundtrips_descriptors() {
    let mut db = Database::new(1);
    let a = BasicJar {
        type_key: 7,
        count: 2,
        requires_reset: true,
        strategy: CycleRecoveryStrategy::Fallback,
    };
    let base = db.storage.add_or_lookup_jar_by_type(&a);
    let info = db.storage.lookup_ingredient(base);
    assert_eq!(info.index, base);
    assert!(info.requires_reset);
    assert_eq!(info.strategy, CycleRecoveryStrategy::Fallback);
    let second = db.lookup_ingredient(base.successor(0));
    assert_eq!(second.index.as_usize(), 1);
}

#[test]
fn successor_points_into_the_jar_block() {
    let idx = IngredientIndex::from(5);
    assert_eq!(idx.as_usize(), 5);
    assert_eq!(idx.successor(0).as_usize(), 6);
    assert_eq!(idx.successor(2).as_usize(), 8);
}

#[test]
fn cycle_recovery_strategy_reads_the_descriptor() {
    let mut db = Database::new(1);
    let a = BasicJar {
        type_key: 7,
        count: 1,
        requires_reset: false,
        strategy: CycleRecoveryStrategy::Fixpoint,
    };
    let base = db.storage.add_or_lookup_jar_by_type(&a);
    assert_eq!(base.cycle_recovery_strategy(&db), CycleRecoveryStrategy::Fixpoint);
}

#[test]
fn mutable_lookup_bumps_revision_and_reports_resets() {
    let mut db = Database::new(1);
    let a = BasicJar {
        type_key: 1,
        count: 1,
        requires_reset: true,
        strategy: CycleRecoveryStrategy::Panic,
    };
    let b = jar(2, 1);
    let ia = db.storage.add_or_lookup_jar_by_type(&a);
    let _ib = db.storage.add_or_lookup_jar_by_type(&b);
    let before = db.storage.runtime().current_revision();
    let (info, resets) = db.storage.lookup_ingredient_mut(ia);
    assert_eq!(db.storage.runtime().current_revision(), before + 1);
    assert_eq!(info.index, ia);
    // only the jar that asked for resets is on the list
    assert_eq!(resets, vec![ia]);
}

#[test]
fn views_register_and_upcast() {
    let mut db = Database::new(1);
    db.storage.add_upcast(42);
    db.storage.add_upcast(43);
    assert_eq!(db.as_view(42), 0);
    assert_eq!(db.as_view(43), 1);
    assert_eq!(db.as_view_mut(43), 1);
    let v = views(&db);
    assert_eq!(v.entries, vec![42, 43]);
    assert!(v.try_view_index(44).is_none());
}

#[test]
fn ingredient_cache_detects_wrong_database() {
    let mut db1 = Database::new(10);
    let mut db2 = Database::new(11);
    let a = jar(5, 1);
    let mut cache = IngredientCache::new();
    let i1 = cache.get_or_create(&mut db1, &a);
    assert_eq!(i1.as_usize(), 0);
    // same database: answered from the cache
    let i1b = cache.get_or_create(&mut db1, &a);
    assert_eq!(i1b, i1);
    // other database: the nonce differs, so the jar is resolved afresh
    let filler = jar(4, 3);
    db2.storage.add_or_lookup_jar_by_type(&filler);
    let i2 = cache.get_or_create(&mut db2, &a);
    assert_eq!(i2.as_usize(), 3);
    let i3 = cache.create_ingredient(&mut db2, &a);
    assert_eq!(i3, i2);
}

#[test]
fn nonce_identifies_the_storage() {
    let db1 = Database::new(77);
    let db2 = Database::new(78);
    assert_eq!(db1.nonce().value, 77);
    assert_ne!(db1.nonce().value, db2.nonce().value);
}
