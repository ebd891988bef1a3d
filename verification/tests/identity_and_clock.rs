use salsa::intern::InternTable;
use salsa::revision::{Clock, Durability};
use salsa::tracked_struct::TrackedIngredient;

#[test]
fn tracked_identity_is_stable_across_reexecution() {
    let mut t = TrackedIngredient::new();
    // first execution of query 1 creates two structs
    let a1 = t.create(1, 0, 10, 1);
    let b1 = t.create(1, 1, 20, 1);
    assert_eq!((a1, b1), (0, 1));
    // re-execution creates the same sequence with the same fields
    let a2 = t.create(1, 0, 10, 2);
    let b2 = t.create(1, 1, 20, 2);
    assert_eq!((a2, b2), (a1, b1));
    // unchanged fields keep their original timestamps
    assert_eq!(t.field(a2), (10, 1));
    assert_eq!(t.field(b2), (20, 1));
}

#[test]
fn tracked_field_change_bumps_only_that_field() {
    let mut t = TrackedIngredient::new();
    let a = t.create(1, 0, 10, 1);
    let b = t.create(1, 1, 20, 1);
    let a2 = t.create(1, 0, 11, 2);
    let b2 = t.create(1, 1, 20, 2);
    assert_eq!((a2, b2), (a, b));
    assert_eq!(t.field(a), (11, 2));
    assert_eq!(t.field(b), (20, 1));
}

#[test]
fn tracked_structs_not_reasserted_are_tombstoned() {
    let mut t = TrackedIngredient::new();
    let a = t.create(1, 0, 10, 1);
    let b = t.create(1, 1, 20, 1);
    // revision 2 re-creates only the first struct
    let a2 = t.create(1, 0, 10, 2);
    assert_eq!(a2, a);
    t.tombstone_stale(2);
    assert!(!t.entries[a].deleted);
    assert!(t.entries[b].deleted);
    // the tombstoned id is retained, not reused
    let c = t.create(2, 0, 30, 3);
    assert_eq!(c, 2);
}

#[test]
fn interning_deduplicates_and_keeps_ids() {
    let mut t = InternTable::new();
    let a = t.intern(5, 1);
    let b = t.intern(7, 1);
    let a2 = t.intern(5, 3);
    assert_eq!(a, 0);
    assert_eq!(b, 1);
    assert_eq!(a2, a);
    assert_eq!(t.lookup(a), (5, 1));
    assert_eq!(t.lookup(b), (7, 1));
}

#[test]
fn clock_bump_moves_sub_revisions_at_or_below_the_write() {
    let mut c = Clock::new();
    c.bump(Durability::Medium);
    assert_eq!(c.current(), 1);
    assert_eq!(c.sub_revision(Durability::Low), 1);
    assert_eq!(c.sub_revision(Durability::Medium), 1);
    assert_eq!(c.sub_revision(Durability::High), 0);
    c.bump(Durability::High);
    assert_eq!(c.current(), 2);
    assert_eq!(c.sub_revision(Durability::High), 2);
    c.bump(Durability::Low);
    assert_eq!(c.current(), 3);
    assert_eq!(c.sub_revision(Durability::Low), 3);
    assert_eq!(c.sub_revision(Durability::Medium), 2);
    assert_eq!(c.sub_revision(Durability::High), 2);
}

#[test]
fn durability_min_orders_levels() {
    assert_eq!(Durability::Low.min(Durability::High), Durability::Low);
    assert_eq!(Durability::High.min(Durability::Medium), Durability::Medium);
    assert_eq!(Durability::High.min(Durability::High), Durability::High);
}
