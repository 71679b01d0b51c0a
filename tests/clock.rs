use replicative::clock::{Actor, Clock, Moment, Shard};

#[test]
fn actor_validity() {
    assert!(Actor::invalid().is_invalid());
    assert!(!Actor::invalid().is_valid());
    assert!(Actor::new(3).is_valid());
    assert_eq!(Actor::new(3), Actor(3));
}

#[test]
fn get_of_unknown_actor_is_zero() {
    let clock = Clock::new();
    assert_eq!(clock.get(Actor::new(4)), Moment(0));
}

#[test]
fn minted_shard_is_contained() {
    let mut clock = Clock::new();
    let a = Actor::new(1);
    let first = clock.get_shard(a);
    assert_eq!(first, Shard::new(a, Moment::new()));
    assert!(clock.contains(&first));
    let second = clock.get_shard(a);
    assert_eq!(second.moment(), Moment(2));
    assert_eq!(second.actor(), a);
    assert!(clock.contains(&second));
    assert!(!clock.contains(&Shard(a, Moment(3))));
}

#[test]
fn increment_counts_from_one() {
    let mut clock = Clock::new();
    assert_eq!(clock.increment(Actor(9)), Moment(1));
    assert_eq!(clock.increment(Actor(9)), Moment(2));
    assert_eq!(clock.get(Actor(9)), Moment(2));
}

#[test]
fn insert_keeps_the_larger_moment() {
    let mut clock = Clock::new();
    clock.insert(Shard(Actor(1), Moment(5)));
    clock.insert(Shard(Actor(1), Moment(3)));
    assert_eq!(clock.get(Actor(1)), Moment(5));
    clock.insert(Shard(Actor(1), Moment(8)));
    assert_eq!(clock.get(Actor(1)), Moment(8));
}

#[test]
fn contains_compares_with_observed_moment() {
    let mut clock = Clock::new();
    clock.insert(Shard(Actor(2), Moment(4)));
    assert!(clock.contains(&Shard(Actor(2), Moment(4))));
    assert!(clock.contains(&Shard(Actor(2), Moment(1))));
    assert!(!clock.contains(&Shard(Actor(2), Moment(5))));
    assert!(!clock.contains(&Shard(Actor(3), Moment(1))));
}

#[test]
fn merge_is_pointwise_max() {
    let mut a = Clock::new();
    a.insert(Shard(Actor(1), Moment(5)));
    a.insert(Shard(Actor(2), Moment(1)));
    let mut b = Clock::new();
    b.insert(Shard(Actor(2), Moment(7)));
    b.insert(Shard(Actor(3), Moment(2)));
    b.insert(Shard(Actor(1), Moment(2)));
    a.merge(&b);
    assert_eq!(a.get(Actor(1)), Moment(5));
    assert_eq!(a.get(Actor(2)), Moment(7));
    assert_eq!(a.get(Actor(3)), Moment(2));
    assert_eq!(a.get(Actor(4)), Moment(0));
}

#[test]
fn merge_commutes_and_is_idempotent() {
    let mut a = Clock::new();
    a.insert(Shard(Actor(1), Moment(5)));
    let mut b = Clock::new();
    b.insert(Shard(Actor(1), Moment(3)));
    b.insert(Shard(Actor(2), Moment(6)));
    let mut ab = a.clone();
    ab.merge(&b);
    let mut ba = b.clone();
    ba.merge(&a);
    let mut abab = ab.clone();
    abab.merge(&ab);
    for actor in 0..4 {
        assert_eq!(ab.get(Actor(actor)), ba.get(Actor(actor)));
        assert_eq!(ab.get(Actor(actor)), abab.get(Actor(actor)));
    }
}
