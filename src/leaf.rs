use vstd::prelude::*;

use void::Void;

use crate::cache::Outbox;
use crate::clock::Actor;
use crate::Replicative;

verus! {

/// A value that never changes once made: replication leaves it as it is.
#[derive(Debug, PartialEq, Eq, Hash, PartialOrd, Ord)]
pub struct Leaf<T>(pub(crate) T);

/// The error of merging into a leaf, which cannot be mutated.
#[derive(Debug)]
pub struct MergeError;

impl MergeError {
    /// What went wrong, in words.
    pub fn message(&self) -> (r: &'static str)
        ensures
            r@ == "cannot mutate leaf"@,
    {
        "cannot mutate leaf"
    }
}

impl<T> Leaf<T> {
    pub open(crate) spec fn view(&self) -> T {
        self.0
    }

    pub fn new(data: T) -> (r: Leaf<T>)
        ensures
            r@ == data,
    {
        Leaf(data)
    }

    /// The value held.
    pub fn get(&self) -> (r: &T)
        ensures
            *r == self@,
    {
        &self.0
    }
}

impl<T: Clone> Clone for Leaf<T> {
    fn clone(&self) -> (r: Leaf<T>)
        ensures
            cloned(self@, r@),
    {
        Leaf(self.0.clone())
    }
}

impl<T: Clone> Replicative for Leaf<T> {
    type Op = Void;

    type State = T;

    type MergeError = MergeError;

    type ApplyError = Void;

    open spec fn inv(&self) -> bool {
        true
    }

    open spec fn apply_fits(&self, origin: Actor, op: Void) -> bool {
        true
    }

    open spec fn merge_fits(&self, state: T) -> bool {
        true
    }

    open spec fn state_fits(state: T) -> bool {
        true
    }

    fn apply(&mut self, origin: Actor, op: Void) -> (r: Result<(), Void>)
        ensures
            r is Ok,
            *final(self) == *old(self),
    {
        Ok(())
    }

    fn prepare(&mut self, handle: Outbox<Void>)
        ensures
            *final(self) == *old(self),
    {
    }

    fn from_state(state: T) -> (r: Result<Leaf<T>, MergeError>)
        ensures
            r matches Ok(v) && v@ == state,
    {
        Ok(Leaf(state))
    }

    fn merge(&mut self, state: T) -> (r: Result<(), MergeError>)
        ensures
            r is Err,
            *final(self) == *old(self),
    {
        Err(MergeError)
    }

    fn fetch(&self) -> (r: T)
        ensures
            cloned(self@, r),
    {
        self.0.clone()
    }
}

} // verus!
