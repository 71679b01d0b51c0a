use std::collections::{BTreeSet, HashSet};

use replicative::cache::Outbox;
use replicative::clock::Actor;
use replicative::leaf::Leaf;
use replicative::set::GrowOnly;
use replicative::{Object, Reference, Replicative};

type Names = GrowOnly<HashSet<Leaf<String>>>;

fn leaf(s: &str) -> Leaf<String> {
    Leaf::new(s.to_string())
}

fn bound(actor: u32) -> Names {
    let mut s = Names::new();
    s.prepare(Outbox::new(Reference::new(Actor(actor), Object(1))));
    s
}

#[test]
fn set_union_scenario() {
    let mut a1 = bound(1);
    let mut a2 = bound(2);
    assert!(a1.insert(leaf("one")));
    assert!(a2.insert(leaf("two")));
    let from1 = a1.take_dispatched();
    let from2 = a2.take_dispatched();
    for op in from1 {
        assert!(a2.apply(Actor(1), op).is_ok());
    }
    for op in from2 {
        assert!(a1.apply(Actor(2), op).is_ok());
    }
    let expected: HashSet<Leaf<String>> = vec![leaf("one"), leaf("two")].into_iter().collect();
    assert_eq!(a1.items(), &expected);
    assert_eq!(a2.items(), &expected);
}

#[test]
fn duplicate_insert_emits_nothing() {
    let mut s = Names::new();
    assert!(s.insert(leaf("x")));
    assert!(!s.insert(leaf("x")));
    assert_eq!(s.next_cached(), Some(leaf("x")));
    assert_eq!(s.next_cached(), None);
}

#[test]
fn pre_binding_inserts_flush() {
    let mut s = Names::new();
    assert!(s.insert(leaf("a")));
    assert!(s.insert(leaf("b")));
    s.prepare(Outbox::new(Reference::new(Actor(4), Object(1))));
    assert_eq!(s.take_dispatched(), vec![leaf("a"), leaf("b")]);
    assert!(s.insert(leaf("c")));
    assert_eq!(s.take_dispatched(), vec![leaf("c")]);
}

#[test]
fn merge_is_union() {
    let mut a: GrowOnly<BTreeSet<u32>> = GrowOnly::new();
    a.insert(1);
    a.insert(2);
    let mut b: GrowOnly<BTreeSet<u32>> = GrowOnly::new();
    b.insert(2);
    b.insert(3);
    let mut ab = GrowOnly::<BTreeSet<u32>>::from_state(a.fetch()).unwrap();
    assert!(ab.merge(b.fetch()).is_ok());
    let mut ba = GrowOnly::<BTreeSet<u32>>::from_state(b.fetch()).unwrap();
    assert!(ba.merge(a.fetch()).is_ok());
    let expected: BTreeSet<u32> = vec![1, 2, 3].into_iter().collect();
    assert_eq!(ab.items(), &expected);
    assert_eq!(ba.items(), &expected);
    let mut aa = GrowOnly::<BTreeSet<u32>>::from_state(a.fetch()).unwrap();
    assert!(aa.merge(a.fetch()).is_ok());
    assert_eq!(aa.items(), a.items());
}

#[test]
fn hash_set_merge_and_fetch() {
    let mut a: GrowOnly<HashSet<u64>> = GrowOnly::new();
    a.insert(10);
    let mut b: GrowOnly<HashSet<u64>> = GrowOnly::new();
    b.insert(20);
    assert!(a.merge(b.fetch()).is_ok());
    let expected: HashSet<u64> = vec![10, 20].into_iter().collect();
    assert_eq!(a.items(), &expected);
    assert_eq!(&a.fetch(), &expected);
    let copy = GrowOnly::<HashSet<u64>>::from_state(a.fetch()).unwrap();
    assert_eq!(copy.fetch(), a.fetch());
}

#[test]
fn apply_absorbs_duplicates() {
    let mut s: GrowOnly<BTreeSet<u32>> = GrowOnly::new();
    assert!(s.apply(Actor(3), 7).is_ok());
    assert!(s.apply(Actor(4), 7).is_ok());
    assert_eq!(s.items().len(), 1);
    assert!(s.next_cached().is_none());
}
