use replicative::cache::Outbox;
use replicative::clock::{Actor, Moment, Shard};
use replicative::register::{Op, Register};
use replicative::{Object, Reference, Replicative};

fn outbox(actor: u32) -> Outbox<Op<String>> {
    Outbox::new(Reference::new(Actor::new(actor), Object(1)))
}

fn bound(actor: u32, data: &str) -> Register<String> {
    let mut r = Register::new(data.to_string());
    r.prepare(outbox(actor));
    r
}

fn exchange(from: &mut Register<String>, to: &mut Register<String>) {
    for op in from.take_dispatched() {
        let origin = op.shard.actor();
        assert!(to.apply(origin, op).is_ok());
    }
}

fn contents(r: &Register<String>) -> Vec<(Shard, String)> {
    r.entries()
}

#[test]
fn new_holds_initial_value() {
    let r = Register::new("x".to_string());
    assert_eq!(r.get(), "x");
    assert_eq!(contents(&r), vec![(Shard(Actor(0), Moment(0)), "x".to_string())]);
}

#[test]
fn set_replaces_local_value() {
    let mut r = bound(1, "x");
    r.set("y".to_string());
    assert_eq!(r.get(), "y");
    assert_eq!(contents(&r), vec![(Shard(Actor(1), Moment(1)), "y".to_string())]);
}

#[test]
fn register_lww_scenario() {
    let mut r1 = Register::new("x".to_string());
    r1.set("y".to_string());
    r1.prepare(outbox(1));
    let _ = r1.take_dispatched();
    let mut r2 = Register::from_state(r1.fetch()).unwrap();
    r2.prepare(outbox(2));
    r1.set("z".to_string());
    exchange(&mut r1, &mut r2);
    assert_eq!(r2.get(), "z");
    assert_eq!(contents(&r2).len(), 1);
    assert_eq!(r1.get(), "z");
}

#[test]
fn concurrent_sets_both_survive() {
    let mut r1 = bound(1, "init");
    let mut r2 = bound(2, "init");
    r1.set("a".to_string());
    r2.set("b".to_string());
    exchange(&mut r1, &mut r2);
    exchange(&mut r2, &mut r1);
    let expected = vec![
        (Shard(Actor(1), Moment(1)), "a".to_string()),
        (Shard(Actor(2), Moment(1)), "b".to_string()),
    ];
    assert_eq!(contents(&r1), expected);
    assert_eq!(contents(&r2), expected);
    assert_eq!(r1.get(), "a");
    assert_eq!(r2.get(), "a");
}

#[test]
fn later_set_collapses_concurrent_values() {
    let mut r1 = bound(1, "init");
    let mut r2 = bound(2, "init");
    r1.set("a".to_string());
    r2.set("b".to_string());
    exchange(&mut r1, &mut r2);
    exchange(&mut r2, &mut r1);
    r2.set("c".to_string());
    exchange(&mut r2, &mut r1);
    assert_eq!(contents(&r1), vec![(Shard(Actor(2), Moment(2)), "c".to_string())]);
    assert_eq!(contents(&r2), vec![(Shard(Actor(2), Moment(2)), "c".to_string())]);
    assert_eq!(r1.get(), "c");
}

#[test]
fn pre_binding_sets_flush_as_one() {
    let mut r = Register::new("start".to_string());
    r.set("p".to_string());
    r.set("p".to_string());
    r.set("p".to_string());
    r.prepare(outbox(7));
    let ops = r.take_dispatched();
    assert_eq!(ops.len(), 1);
    assert_eq!(ops[0].shard.actor(), Actor(7));
    assert_eq!(ops[0].shard.moment(), Moment(3));
    assert_eq!(ops[0].data, "p");
    assert!(r.take_dispatched().is_empty());
    assert_eq!(contents(&r), vec![(Shard(Actor(7), Moment(3)), "p".to_string())]);
}

#[test]
fn bound_set_dispatches_with_removed_shards() {
    let mut r = bound(1, "init");
    let remote = Op { shard: Shard(Actor(2), Moment(4)), data: "q".to_string(), removed: vec![] };
    assert!(r.apply(Actor(2), remote).is_ok());
    r.set("s".to_string());
    let ops = r.take_dispatched();
    assert_eq!(ops.len(), 1);
    assert_eq!(ops[0].shard, Shard(Actor(1), Moment(1)));
    assert_eq!(ops[0].removed, vec![Shard(Actor(2), Moment(4))]);
}

#[test]
fn apply_is_idempotent() {
    let mut r = bound(1, "init");
    let op = || Op { shard: Shard(Actor(2), Moment(3)), data: "w".to_string(), removed: vec![Shard(Actor(1), Moment(1))] };
    assert!(r.apply(Actor(2), op()).is_ok());
    let once = contents(&r);
    assert_eq!(once, vec![(Shard(Actor(2), Moment(3)), "w".to_string())]);
    assert!(r.apply(Actor(2), op()).is_ok());
    assert_eq!(contents(&r), once);
}

#[test]
fn apply_of_independent_ops_commutes() {
    let from_two = || Op { shard: Shard(Actor(2), Moment(2)), data: "two".to_string(), removed: vec![Shard(Actor(1), Moment(1))] };
    let from_three = || Op { shard: Shard(Actor(3), Moment(5)), data: "three".to_string(), removed: vec![] };
    let mut a = bound(1, "init");
    let mut b = bound(1, "init");
    assert!(a.apply(Actor(2), from_two()).is_ok());
    assert!(a.apply(Actor(3), from_three()).is_ok());
    assert!(b.apply(Actor(3), from_three()).is_ok());
    assert!(b.apply(Actor(2), from_two()).is_ok());
    assert_eq!(contents(&a), contents(&b));
    assert_eq!(contents(&a).len(), 2);
}

#[test]
fn older_arrival_loses() {
    let mut r = bound(1, "init");
    let newer = Op { shard: Shard(Actor(2), Moment(5)), data: "new".to_string(), removed: vec![] };
    let older = Op { shard: Shard(Actor(2), Moment(3)), data: "old".to_string(), removed: vec![] };
    assert!(r.apply(Actor(2), newer).is_ok());
    assert!(r.apply(Actor(2), older).is_ok());
    assert_eq!(
        contents(&r),
        vec![(Shard(Actor(1), Moment(0)), "init".to_string()), (Shard(Actor(2), Moment(5)), "new".to_string())]
    );
}

#[test]
fn removal_spares_newer_values() {
    let mut r = bound(1, "init");
    r.set("mine".to_string());
    let op = Op { shard: Shard(Actor(2), Moment(1)), data: "theirs".to_string(), removed: vec![Shard(Actor(1), Moment(0))] };
    assert!(r.apply(Actor(2), op).is_ok());
    assert_eq!(
        contents(&r),
        vec![(Shard(Actor(1), Moment(1)), "mine".to_string()), (Shard(Actor(2), Moment(1)), "theirs".to_string())]
    );
}

#[test]
fn round_trip_through_fetch() {
    let mut r = bound(1, "init");
    r.set("v".to_string());
    let copy = Register::from_state(r.fetch()).unwrap();
    assert_eq!(contents(&copy), contents(&r));
    assert_eq!(contents(&Register::from_state(copy.fetch()).unwrap()), contents(&copy));
}

#[test]
fn merge_keeps_later_writes() {
    let mut a = bound(1, "a0");
    a.set("a1".to_string());
    a.set("a2".to_string());
    let mut b = bound(2, "b0");
    b.set("b1".to_string());
    let remote = Op { shard: Shard(Actor(1), Moment(1)), data: "a1".to_string(), removed: vec![] };
    assert!(b.apply(Actor(1), remote).is_ok());
    assert!(a.merge(b.fetch()).is_ok());
    assert_eq!(
        contents(&a),
        vec![(Shard(Actor(1), Moment(2)), "a2".to_string()), (Shard(Actor(2), Moment(1)), "b1".to_string())]
    );
}
