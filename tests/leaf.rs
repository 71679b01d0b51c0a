use replicative::cache::Outbox;
use replicative::clock::Actor;
use replicative::leaf::Leaf;
use replicative::{Object, Reference, Replicative};

#[test]
fn leaf_holds_its_value() {
    let l = Leaf::new(5u8);
    assert_eq!(*l.get(), 5);
    assert_eq!(l.fetch(), 5);
}

#[test]
fn leaf_merge_fails() {
    let mut l = Leaf::new("v".to_string());
    assert!(l.merge("w".to_string()).is_err());
    assert_eq!(l.fetch(), "v");
}

#[test]
fn leaf_round_trip_and_prepare() {
    let mut l = Leaf::<String>::from_state("s".to_string()).unwrap();
    l.prepare(Outbox::new(Reference::new(Actor(1), Object(1))));
    assert_eq!(Leaf::<String>::from_state(l.fetch()).unwrap().fetch(), l.fetch());
}

#[test]
fn merge_error_message() {
    let mut l = Leaf::new(1u32);
    match l.merge(2) {
        Err(e) => assert_eq!(e.message(), "cannot mutate leaf"),
        Ok(()) => panic!("a leaf accepted a merge"),
    }
}
