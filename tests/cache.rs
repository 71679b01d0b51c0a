use replicative::cache::{Cache, Handle, Outbox, Sequence, Single};
use replicative::clock::Actor;
use replicative::{Object, Reference};

fn target() -> Reference {
    Reference::new(Actor::new(3), Object(1))
}

#[test]
fn sequence_buffers_then_flushes_in_order() {
    let mut cache: Sequence<u8> = Sequence::new();
    cache.dispatch(1);
    cache.dispatch(2);
    cache.dispatch(3);
    assert!(cache.take_dispatched().is_empty());
    cache.prepare(Outbox::new(target()));
    cache.dispatch(4);
    assert_eq!(cache.take_dispatched(), vec![1, 2, 3, 4]);
    assert_eq!(cache.next_cached(), None);
}

#[test]
fn sequence_next_cached_only_while_buffering() {
    let mut cache: Sequence<u8> = Sequence::new();
    cache.dispatch(1);
    cache.dispatch(2);
    assert_eq!(cache.next_cached(), Some(2));
    cache.prepare(Outbox::new(target()));
    assert_eq!(cache.next_cached(), None);
    assert_eq!(cache.take_dispatched(), vec![1]);
}

#[test]
fn single_keeps_only_latest() {
    let mut cache: Single<u8> = Single::new();
    cache.dispatch(1);
    cache.dispatch(2);
    cache.prepare(Outbox::new(target()));
    assert_eq!(cache.take_dispatched(), vec![2]);
    cache.dispatch(5);
    cache.dispatch(6);
    assert_eq!(cache.take_dispatched(), vec![5, 6]);
}

#[test]
fn single_next_cached_takes_the_slot() {
    let mut cache: Single<u8> = Single::new();
    cache.dispatch(9);
    assert_eq!(cache.next_cached(), Some(9));
    assert_eq!(cache.next_cached(), None);
    cache.prepare(Outbox::new(target()));
    assert!(cache.take_dispatched().is_empty());
}

#[test]
fn outbox_reports_its_target() {
    let mut outbox: Outbox<u8> = Outbox::new(target());
    assert_eq!(outbox.this(), target());
    outbox.dispatch(7);
    assert_eq!(outbox.take(), vec![7]);
    assert!(outbox.take().is_empty());
}
