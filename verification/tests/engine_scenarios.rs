use salsa::engine::{CycleHandling, DepRef, Engine, QueryOrigin};
use salsa::Id;
use salsa::revision::Durability;

fn input(index: usize) -> DepRef {
    DepRef::Input { index }
}

fn query(index: usize) -> DepRef {
    DepRef::Query { index }
}

#[test]
fn single_input_single_query() {
    let mut eng = Engine::new();
    let x = eng.add_input(22, Durability::Low);
    // doubled(db, x) = x.field * 2, written as x + x
    let doubled = eng.add_query(vec![input(x), input(x)], 0, false, CycleHandling::Panic);
    assert_eq!(eng.fetch(doubled).unwrap(), 44);
    assert_eq!(eng.executions(doubled), 1);
    // a second fetch with no intervening write answers from the memo
    assert_eq!(eng.fetch(doubled).unwrap(), 44);
    assert_eq!(eng.executions(doubled), 1);
}

#[test]
fn synthetic_write_does_not_invalidate() {
    let mut eng = Engine::new();
    let x = eng.add_input(22, Durability::Low);
    let doubled = eng.add_query(vec![input(x), input(x)], 0, false, CycleHandling::Panic);
    assert_eq!(eng.fetch(doubled).unwrap(), 44);
    eng.synthetic_write(Durability::Low);
    // deep verification finds the input unchanged: no re-execution
    assert_eq!(eng.fetch(doubled).unwrap(), 44);
    assert_eq!(eng.executions(doubled), 1);
}

#[test]
fn execute() {
    let mut eng = Engine::new();
    let field = eng.add_input(22, Durability::Low);
    // the tracked struct created from the doubled input field
    let mut structs = salsa::tracked_struct::TrackedIngredient::new();
    let t = structs.create(0, 0, 22 * 2, eng.clock.current);
    assert_eq!(structs.field(t).0, 44);
    // the extra query's memo is assigned rather than computed, and the
    // creating query returns the extra query's value
    let tracked_fn_extra = eng.add_query(vec![], 0, false, CycleHandling::Panic);
    eng.specify(tracked_fn_extra, 2222);
    let tracked_fn = eng.add_query(vec![query(tracked_fn_extra)], 0, false, CycleHandling::Panic);
    assert_eq!(eng.fetch(tracked_fn).unwrap(), 2222);
    assert_eq!(eng.executions(tracked_fn), 1);
    assert_eq!(eng.executions(tracked_fn_extra), 0);
    assert!(matches!(eng.origin(Id::from_u32(tracked_fn_extra as u32)), Some(QueryOrigin::Assigned)));
    // a synthetic write does not dislodge the assigned value: the refetch
    // executes nothing
    eng.synthetic_write(Durability::Low);
    assert_eq!(eng.fetch(tracked_fn).unwrap(), 2222);
    assert_eq!(eng.executions(tracked_fn), 1);
    assert_eq!(eng.executions(tracked_fn_extra), 0);
    assert!(matches!(eng.origin(Id::from_u32(tracked_fn_extra as u32)), Some(QueryOrigin::Assigned)));
}

#[test]
fn input_change_invalidates_only_affected_query() {
    let mut eng = Engine::new();
    let f = eng.add_input(1, Durability::Low);
    let g = eng.add_input(2, Durability::Low);
    let a = eng.add_query(vec![input(f)], 1, false, CycleHandling::Panic);
    let b = eng.add_query(vec![input(g)], 1, false, CycleHandling::Panic);
    assert_eq!(eng.fetch(a).unwrap(), 2);
    assert_eq!(eng.fetch(b).unwrap(), 3);
    eng.set_input(f, 10, Durability::Low);
    assert_eq!(eng.fetch(a).unwrap(), 11);
    assert_eq!(eng.fetch(b).unwrap(), 3);
    assert_eq!(eng.executions(a), 2);
    assert_eq!(eng.executions(b), 1);
}

#[test]
fn cycle_with_fallback() {
    let mut eng = Engine::new();
    // p(db) = q(db) and q(db) = p(db), both with fallback 0
    let p = eng.add_query(vec![query(1)], 0, false, CycleHandling::Fallback(0));
    let q = eng.add_query(vec![query(0)], 0, false, CycleHandling::Fallback(0));
    assert_eq!(eng.fetch(p).unwrap(), 0);
    assert_eq!(eng.fetch(q).unwrap(), 0);
    assert!(eng.memos[p].as_ref().unwrap().cycle_participant);
    assert!(eng.memos[q].as_ref().unwrap().cycle_participant);
}

#[test]
fn cycle_with_panic_strategy_reports_participants() {
    let mut eng = Engine::new();
    let p = eng.add_query(vec![query(1)], 0, false, CycleHandling::Panic);
    let q = eng.add_query(vec![query(0)], 0, false, CycleHandling::Panic);
    let err = eng.fetch(p).unwrap_err();
    assert_eq!(err.participants, vec![p, q]);
    // a self-loop is the smallest cycle
    let s = eng.add_query(vec![query(2)], 0, false, CycleHandling::Panic);
    let err = eng.fetch(s).unwrap_err();
    assert_eq!(err.participants, vec![s]);
}

#[test]
fn acyclic_graph_never_reports_a_cycle() {
    let mut eng = Engine::new();
    let x = eng.add_input(3, Durability::Low);
    let a = eng.add_query(vec![input(x)], 0, false, CycleHandling::Panic);
    let b = eng.add_query(vec![query(a)], 0, false, CycleHandling::Panic);
    // a diamond: d depends on b and on a directly
    let d = eng.add_query(vec![query(b), query(a)], 0, false, CycleHandling::Panic);
    assert_eq!(eng.fetch(d).unwrap(), 6);
}

#[test]
fn durability_skip() {
    let mut eng = Engine::new();
    let hi = eng.add_input(1, Durability::High);
    let lo = eng.add_input(2, Durability::Low);
    let r = eng.add_query(vec![input(hi), input(lo)], 0, false, CycleHandling::Panic);
    assert_eq!(eng.fetch(r).unwrap(), 3);
    assert_eq!(eng.executions(r), 1);
    eng.synthetic_write(Durability::Low);
    // the memo's durability is LOW, so the cheap check fails, but the deep
    // walk finds both inputs unchanged: no re-execution
    assert_eq!(eng.fetch(r).unwrap(), 3);
    assert_eq!(eng.executions(r), 1);
}

#[test]
fn high_durability_memo_skips_validation_after_low_write() {
    let mut eng = Engine::new();
    let hi = eng.add_input(7, Durability::High);
    let r = eng.add_query(vec![input(hi)], 0, false, CycleHandling::Panic);
    assert_eq!(eng.fetch(r).unwrap(), 7);
    let verified_before = eng.memos[r].as_ref().unwrap().verified_at;
    eng.synthetic_write(Durability::Low);
    assert_eq!(eng.fetch(r).unwrap(), 7);
    assert_eq!(eng.executions(r), 1);
    // the memo was revalidated by the durability check alone
    assert!(eng.memos[r].as_ref().unwrap().verified_at > verified_before);
}

#[test]
fn early_cutoff_stops_propagation() {
    let mut eng = Engine::new();
    let f = eng.add_input(5, Durability::Low);
    let q = eng.add_query(vec![input(f)], 0, false, CycleHandling::Panic);
    let p = eng.add_query(vec![query(q)], 0, false, CycleHandling::Panic);
    assert_eq!(eng.fetch(p).unwrap(), 5);
    // writing the same value still stamps the input as changed
    eng.set_input(f, 5, Durability::Low);
    assert_eq!(eng.fetch(p).unwrap(), 5);
    // q re-executes, but its value is equal, so changed_at is preserved and
    // p is revalidated without running
    assert_eq!(eng.executions(q), 2);
    assert_eq!(eng.executions(p), 1);
}

#[test]
fn untracked_read_forces_reexecution() {
    let mut eng = Engine::new();
    let x = eng.add_input(4, Durability::Low);
    let plain = eng.add_query(vec![input(x)], 1, false, CycleHandling::Panic);
    let untracked = eng.add_query(vec![input(x)], 1, true, CycleHandling::Panic);
    assert_eq!(eng.fetch(plain).unwrap(), 5);
    assert_eq!(eng.fetch(untracked).unwrap(), 5);
    eng.synthetic_write(Durability::Low);
    // conservativeness check: the forced re-execution returns the same value
    // the skipped one is still caching
    assert_eq!(eng.fetch(untracked).unwrap(), eng.fetch(plain).unwrap());
    assert_eq!(eng.executions(plain), 1);
    assert_eq!(eng.executions(untracked), 2);
}

#[test]
fn maybe_changed_after_tracks_changed_at() {
    let mut eng = Engine::new();
    let x = eng.add_input(1, Durability::Low);
    let q = eng.add_query(vec![input(x)], 0, false, CycleHandling::Panic);
    assert_eq!(eng.fetch(q).unwrap(), 1);
    let rev_after_first = eng.clock.current;
    assert!(!eng.maybe_changed_after(q, rev_after_first).unwrap());
    eng.set_input(x, 9, Durability::Low);
    assert!(eng.maybe_changed_after(q, rev_after_first).unwrap());
    assert!(!eng.maybe_changed_after(q, eng.clock.current).unwrap());
}

#[test]
fn origin_distinguishes_assigned_from_derived() {
    let mut eng = Engine::new();
    let q = eng.add_query(vec![], 3, false, CycleHandling::Panic);
    assert!(eng.origin(Id::from_u32(q as u32)).is_none());
    assert_eq!(eng.fetch(q).unwrap(), 3);
    assert!(matches!(eng.origin(Id::from_u32(q as u32)), Some(QueryOrigin::Derived)));
    eng.specify(q, 8);
    assert!(matches!(eng.origin(Id::from_u32(q as u32)), Some(QueryOrigin::Assigned)));
    assert_eq!(eng.fetch(q).unwrap(), 8);
    assert_eq!(eng.executions(q), 1);
}

#[test]
fn lowering_an_input_durability_still_invalidates() {
    let mut eng = Engine::new();
    let hi = eng.add_input(1, Durability::High);
    let q = eng.add_query(vec![input(hi)], 0, false, CycleHandling::Panic);
    assert_eq!(eng.fetch(q).unwrap(), 1);
    // the write carries LOW durability, but the cell used to be HIGH: the
    // HIGH sub-revision must move too, or q's memo would pass the durability
    // check and serve the stale value
    eng.set_input(hi, 5, Durability::Low);
    assert_eq!(eng.fetch(q).unwrap(), 5);
    assert_eq!(eng.executions(q), 2);
}

#[test]
fn input_creation_stamps_the_new_revision() {
    let mut eng = Engine::new();
    let rev0 = eng.clock.current;
    let x = eng.add_input(9, Durability::Medium);
    assert_eq!(eng.input_value(x), 9);
    assert_eq!(eng.inputs[x].changed_at, rev0 + 1);
    assert_eq!(eng.clock.current, rev0 + 1);
}

#[test]
fn id_roundtrips_through_u32() {
    let id = Id::from_u32(7);
    assert_eq!(id.as_u32(), 7);
}

#[test]
fn wrapping_sum_semantics() {
    let mut eng = Engine::new();
    let x = eng.add_input(u64::MAX, Durability::Low);
    let q = eng.add_query(vec![input(x)], 2, false, CycleHandling::Panic);
    assert_eq!(eng.fetch(q).unwrap(), 1);
}
