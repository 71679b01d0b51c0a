use replicative::clock::Actor;
use replicative::replicant::{address, all_ready, root, Routes, RoutingError};
use replicative::{Object, Reference};

#[test]
fn root_is_object_one() {
    assert_eq!(root(Actor(4)), Reference(Actor(4), Object(1)));
}

#[test]
fn routes_serve_the_root() {
    let routes = Routes::new(Actor(2));
    assert_eq!(routes.len(), 1);
    assert_eq!(routes.route(Reference(Actor(2), Object(1))), Ok(0));
}

#[test]
fn unknown_target_is_a_routing_error() {
    let routes = Routes::new(Actor(2));
    let stranger = Reference(Actor(3), Object(1));
    assert_eq!(routes.route(stranger), Err(RoutingError { target: stranger }));
}

#[test]
fn register_adds_each_reference_once() {
    let mut routes = Routes::new(Actor(1));
    let second = Reference(Actor(1), Object(2));
    assert_eq!(routes.register(second), 1);
    assert_eq!(routes.register(second), 1);
    assert_eq!(routes.register(Reference(Actor(1), Object(1))), 0);
    assert_eq!(routes.len(), 2);
    assert_eq!(routes.route(second), Ok(1));
}

#[test]
fn ready_only_when_all_are() {
    assert!(all_ready(&[]));
    assert!(all_ready(&[true, true]));
    assert!(!all_ready(&[true, false, true]));
}

#[test]
fn address_keeps_order() {
    let target = Reference(Actor(5), Object(1));
    let actions = address(target, vec![7u8, 8, 9]);
    assert_eq!(actions.len(), 3);
    assert_eq!(actions[0].payload, 7);
    assert_eq!(actions[2].payload, 9);
    assert!(actions.iter().all(|a| a.target == target));
}
