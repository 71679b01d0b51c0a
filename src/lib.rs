//! Conflict-free replicated data types: values that replicas mutate on their own and that
//! converge once every replica has seen every operation. Each type implements [`Replicative`];
//! operations emitted before a value is bound to a replicant wait in a cache and are flushed,
//! under the bound actor, when it is.

use vstd::prelude::*;

pub mod actor_map;
pub mod cache;
pub mod clock;
pub mod counter;
pub mod leaf;
pub mod register;
pub mod replicant;
pub mod set;

pub use leaf::Leaf;

use cache::Outbox;
use clock::Actor;

verus! {

/// Identifier of one replicated value within a replicant.
#[derive(Clone, Copy, Debug, PartialEq, Eq, Hash, PartialOrd, Ord, Structural)]
pub struct Object(pub u32);

/// Network-wide address of one replicated value: the replica and the object there.
#[derive(Clone, Copy, Debug, PartialEq, Eq, Hash, PartialOrd, Ord, Structural)]
pub struct Reference(pub Actor, pub Object);

impl Reference {
    pub fn new(actor: Actor, object: Object) -> (r: Reference)
        ensures
            r == Reference(actor, object),
    {
        Reference(actor, object)
    }

    pub fn actor(&self) -> (r: Actor)
        ensures
            r == self.0,
    {
        self.0
    }

    pub fn object(&self) -> (r: Object)
        ensures
            r == self.1,
    {
        self.1
    }
}

/// The uninhabited type of the `void` crate, the operation type of values that never change.
#[verifier::external_type_specification]
#[verifier::external_body]
pub struct ExVoid(void::Void);

/// What every replicated value provides: integrating remote operations and states, reading
/// its state, and binding to a replicant.
pub trait Replicative: Sized {
    /// What `apply` consumes.
    type Op;

    /// What `merge`, `new` and `fetch` exchange.
    type State;

    type MergeError;

    type ApplyError;

    /// The invariant every value of the type keeps.
    spec fn inv(&self) -> bool;

    /// Whether `apply(origin, op)` stays within the integer bounds of the value.
    spec fn apply_fits(&self, origin: Actor, op: Self::Op) -> bool;

    /// Whether `merge(state)` stays within the integer bounds of the value.
    spec fn merge_fits(&self, state: Self::State) -> bool;

    /// Whether a value can be built from `state`.
    spec fn state_fits(state: Self::State) -> bool;

    /// Integrates an operation that originated at `origin`.
    fn apply(&mut self, origin: Actor, op: Self::Op) -> (r: Result<(), Self::ApplyError>)
        requires
            old(self).inv(),
            old(self).apply_fits(origin, op),
        ensures
            final(self).inv(),
    ;

    /// Binds the value to a replicant through `handle`.
    fn prepare(&mut self, handle: Outbox<Self::Op>)
        requires
            old(self).inv(),
        ensures
            final(self).inv(),
    ;

    /// Builds a value from a state snapshot.
    fn from_state(state: Self::State) -> (r: Result<Self, Self::MergeError>)
        requires
            Self::state_fits(state),
        ensures
            r matches Ok(v) ==> v.inv(),
    ;

    /// Integrates a whole remote state snapshot.
    fn merge(&mut self, state: Self::State) -> (r: Result<(), Self::MergeError>)
        requires
            old(self).inv(),
            old(self).merge_fits(state),
        ensures
            final(self).inv(),
    ;

    /// The current state snapshot.
    fn fetch(&self) -> Self::State
        requires
            self.inv(),
    ;
}

} // verus!
