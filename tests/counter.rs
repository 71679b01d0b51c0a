use replicative::cache::Outbox;
use replicative::clock::Actor;
use replicative::counter::{Counter, GrowOnly};
use replicative::{Object, Reference, Replicative};

fn outbox<T>(actor: u32) -> Outbox<T> {
    Outbox::new(Reference::new(Actor::new(actor), Object(1)))
}

fn bound_grow(actor: u32) -> GrowOnly<u64> {
    let mut c = GrowOnly::new(0u64);
    c.prepare(outbox(actor));
    c
}

fn exchange(from: &mut GrowOnly<u64>, from_actor: u32, to: &mut GrowOnly<u64>) {
    for op in from.take_dispatched() {
        assert!(to.apply(Actor(from_actor), op).is_ok());
    }
}

#[test]
fn grow_only_scenario() {
    let mut a1 = bound_grow(1);
    let mut a2 = bound_grow(2);
    assert!(a1.increment(3).is_ok());
    assert!(a2.increment(5).is_ok());
    exchange(&mut a1, 1, &mut a2);
    exchange(&mut a2, 2, &mut a1);
    assert_eq!(a1.get(), 8);
    assert_eq!(a2.get(), 8);
}

#[test]
fn interleavings_sum_up() {
    let mut a1 = bound_grow(1);
    let mut a2 = bound_grow(2);
    let mut a3 = bound_grow(3);
    assert!(a1.increment(1).is_ok());
    assert!(a2.increment(10).is_ok());
    assert!(a1.increment(2).is_ok());
    assert!(a3.increment(100).is_ok());
    let from1 = a1.take_dispatched();
    let from2 = a2.take_dispatched();
    let from3 = a3.take_dispatched();
    for op in from1.iter() {
        assert!(a2.apply(Actor(1), *op).is_ok());
    }
    for op in from3.iter() {
        assert!(a2.apply(Actor(3), *op).is_ok());
    }
    for op in from3.iter() {
        assert!(a1.apply(Actor(3), *op).is_ok());
    }
    for op in from2.iter() {
        assert!(a1.apply(Actor(2), *op).is_ok());
    }
    for op in from2.iter() {
        assert!(a3.apply(Actor(2), *op).is_ok());
    }
    for op in from1.iter() {
        assert!(a3.apply(Actor(1), *op).is_ok());
    }
    assert_eq!(a1.get(), 113);
    assert_eq!(a2.get(), 113);
    assert_eq!(a3.get(), 113);
}

#[test]
fn negative_increment_is_refused() {
    let mut c = GrowOnly::new(4i32);
    assert!(c.increment(-1).is_err());
    assert_eq!(c.get(), 4);
    assert!(c.next_cached().is_none());
    assert!(c.apply(Actor(2), -7).is_err());
    assert_eq!(c.get(), 4);
    assert!(c.increment(2).is_ok());
    assert_eq!(c.get(), 6);
}

#[test]
fn narrow_signed_counter_refuses_negatives() {
    let mut c = GrowOnly::new(0i8);
    assert!(c.increment(-1i8).is_err());
    assert!(c.increment(100i8).is_ok());
    assert_eq!(c.get(), 100i8);
}

#[test]
fn pre_binding_increments_flush_in_order() {
    let mut c = GrowOnly::new(0u32);
    assert!(c.increment(1).is_ok());
    assert!(c.increment(2).is_ok());
    assert!(c.increment(3).is_ok());
    c.prepare(outbox(5));
    assert_eq!(c.take_dispatched(), vec![1, 2, 3]);
    assert!(c.increment(4).is_ok());
    assert_eq!(c.take_dispatched(), vec![4]);
    assert_eq!(c.get(), 10);
    let state = c.fetch();
    assert_eq!(state.get(Actor(5)), Some(&10));
    assert_eq!(state.get(Actor(0)), None);
}

#[test]
fn next_cached_pops_latest_first() {
    let mut c = GrowOnly::new(0u16);
    assert!(c.increment(1).is_ok());
    assert!(c.increment(2).is_ok());
    assert_eq!(c.next_cached(), Some(2));
    assert_eq!(c.next_cached(), Some(1));
    assert_eq!(c.next_cached(), None);
}

#[test]
fn grow_only_merge_adds_pointwise() {
    let mut a = bound_grow(1);
    assert!(a.increment(2).is_ok());
    let mut b = bound_grow(2);
    assert!(b.increment(5).is_ok());
    let mut ab = GrowOnly::from_state(a.fetch()).unwrap();
    assert!(ab.merge(b.fetch()).is_ok());
    let mut ba = GrowOnly::from_state(b.fetch()).unwrap();
    assert!(ba.merge(a.fetch()).is_ok());
    assert_eq!(ab.get(), 7);
    assert_eq!(ba.get(), 7);
    let s = ab.fetch();
    assert_eq!(s.get(Actor(1)), Some(&2));
    assert_eq!(s.get(Actor(2)), Some(&5));
}

#[test]
fn grow_only_round_trip() {
    let mut a = bound_grow(3);
    assert!(a.increment(9).is_ok());
    let state = a.fetch();
    let again = GrowOnly::<u64>::from_state(a.fetch()).unwrap().fetch();
    assert_eq!(again.len(), state.len());
    assert_eq!(again.get(Actor(3)), state.get(Actor(3)));
}

#[test]
fn merge_with_negative_count_is_refused() {
    let mut bad = GrowOnly::new(0i64);
    assert!(bad.apply(Actor(1), 3).is_ok());
    let mut c = GrowOnly::new(1i64);
    let mut state = c.fetch();
    state.insert(Actor(4), -2);
    assert!(c.merge(state).is_err());
    assert_eq!(c.get(), 1);
    let mut neg = bad.fetch();
    neg.insert(Actor(2), -1);
    assert!(GrowOnly::<i64>::from_state(neg).is_err());
}

#[test]
fn pn_counter_scenario() {
    let mut c = Counter::new(0i64);
    assert!(c.add(3).is_ok());
    assert!(c.add(-5).is_ok());
    assert!(c.sub(2).is_ok());
    assert_eq!(c.get(), -4);
}

#[test]
fn pn_counter_new_and_apply() {
    let mut c = Counter::new(-3i32);
    assert_eq!(c.get(), -3);
    assert!(c.apply(Actor(2), 10).is_ok());
    assert!(c.apply(Actor(2), -4).is_ok());
    assert_eq!(c.get(), 3);
}

#[test]
fn pn_counter_flushes_signed_ops() {
    let mut c = Counter::new(0i16);
    assert!(c.add(3).is_ok());
    assert!(c.sub(5).is_ok());
    c.prepare(outbox(2));
    assert_eq!(c.take_dispatched(), vec![3, -5]);
    let mut other = Counter::new(0i16);
    other.prepare(outbox(3));
    for op in vec![3i16, -5] {
        assert!(other.apply(Actor(2), op).is_ok());
    }
    assert_eq!(other.get(), c.get());
    assert_eq!(other.get(), -2);
}

#[test]
fn pn_counter_merge_and_round_trip() {
    let mut a = Counter::new(0i64);
    a.prepare(outbox(1));
    assert!(a.add(4).is_ok());
    let mut b = Counter::new(0i64);
    b.prepare(outbox(2));
    assert!(b.sub(6).is_ok());
    assert!(a.merge(b.fetch()).is_ok());
    assert_eq!(a.get(), -2);
    let copy = Counter::<i64>::from_state(a.fetch()).unwrap();
    assert_eq!(copy.get(), -2);
}

#[test]
fn increment_error_message() {
    let mut c = GrowOnly::new(0i64);
    match c.increment(-1) {
        Err(e) => assert_eq!(e.message(), "cannot decrement grow-only counter"),
        Ok(()) => panic!("a negative increment was accepted"),
    }
}
