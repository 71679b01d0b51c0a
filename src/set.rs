use vstd::prelude::*;

pub mod grow_only;

pub use grow_only::GrowOnly;

use std::collections::hash_map::RandomState;
use std::collections::{BTreeSet, HashSet};
use std::hash::Hash;
use vstd::laws_cmp::obeys_cmp;
use vstd::std_specs::hash::{builds_valid_hashers, obeys_key_model};

verus! {

/// A set container that a grow-only set keeps its items in.
pub trait Container: Sized {
    type Item;

    /// Whether the container behaves as a set of its items: its items' equality, and their
    /// hashing or ordering, are lawful. Every contract below holds where this does.
    spec fn lawful() -> bool;

    /// The items held.
    spec fn contents(&self) -> Set<Self::Item>;

    fn new() -> (r: Self)
        ensures
            r.contents() == Set::<Self::Item>::empty(),
    ;

    /// Adds `value`; says whether it was absent.
    fn insert(&mut self, value: Self::Item) -> (r: bool)
        ensures
            Self::lawful() ==> final(self).contents() == old(self).contents().insert(value) && r
                == !old(self).contents().contains(value),
    ;

    fn contains(&self, value: &Self::Item) -> (r: bool)
        ensures
            Self::lawful() ==> r == self.contents().contains(*value),
    ;

    /// Removes `value`; says whether it was present.
    fn remove(&mut self, value: &Self::Item) -> (r: bool)
        ensures
            Self::lawful() ==> final(self).contents() == old(self).contents().remove(*value) && r
                == old(self).contents().contains(*value),
    ;

    /// Adds every item of `other`.
    fn extend_with(&mut self, other: Self)
        ensures
            Self::lawful() ==> final(self).contents() == old(self).contents().union(
                other.contents(),
            ),
    ;

    /// A copy of the container.
    fn duplicate(&self) -> (r: Self)
        ensures
            Self::lawful() ==> r.contents() == self.contents(),
    ;
}

impl<T: Ord + Clone> Container for BTreeSet<T> {
    type Item = T;

    open spec fn lawful() -> bool {
        obeys_cmp::<T>()
    }

    open spec fn contents(&self) -> Set<T> {
        self@
    }

    fn new() -> (r: BTreeSet<T>) {
        BTreeSet::new()
    }

    fn insert(&mut self, value: T) -> (r: bool) {
        BTreeSet::insert(self, value)
    }

    fn contains(&self, value: &T) -> (r: bool) {
        BTreeSet::contains(self, value)
    }

    fn remove(&mut self, value: &T) -> (r: bool) {
        BTreeSet::remove(self, value)
    }

    fn extend_with(&mut self, other: BTreeSet<T>) {
        btree_extend(self, other)
    }

    fn duplicate(&self) -> (r: BTreeSet<T>) {
        self.clone()
    }
}

impl<T: Hash + Eq + Clone> Container for HashSet<T> {
    type Item = T;

    open spec fn lawful() -> bool {
        obeys_key_model::<T>() && builds_valid_hashers::<RandomState>()
    }

    open spec fn contents(&self) -> Set<T> {
        self@
    }

    fn new() -> (r: HashSet<T>) {
        HashSet::new()
    }

    fn insert(&mut self, value: T) -> (r: bool) {
        HashSet::insert(self, value)
    }

    fn contains(&self, value: &T) -> (r: bool) {
        HashSet::contains(self, value)
    }

    fn remove(&mut self, value: &T) -> (r: bool) {
        HashSet::remove(self, value)
    }

    fn extend_with(&mut self, other: HashSet<T>) {
        hash_extend(self, other)
    }

    fn duplicate(&self) -> (r: HashSet<T>) {
        hash_clone(self)
    }
}

/// Relies on `Extend::extend` of `BTreeSet`: every item of `other` is added.
#[verifier::external_body]
fn btree_extend<T: Ord>(set: &mut BTreeSet<T>, other: BTreeSet<T>)
    ensures
        obeys_cmp::<T>() ==> final(set)@ == old(set)@.union(other@),
{
    set.extend(other)
}

/// Relies on `Extend::extend` of `HashSet`: every item of `other` is added.
#[verifier::external_body]
fn hash_extend<T: Hash + Eq>(set: &mut HashSet<T>, other: HashSet<T>)
    ensures
        obeys_key_model::<T>() && builds_valid_hashers::<RandomState>() ==> final(set)@ == old(
            set,
        )@.union(other@),
{
    set.extend(other)
}

/// Relies on `Clone::clone` of `HashSet`: each item is cloned, so the copy holds the same items
/// where cloning an item gives an equal one, which the hash model of the item type includes.
#[verifier::external_body]
fn hash_clone<T: Clone>(set: &HashSet<T>) -> (r: HashSet<T>)
    ensures
        obeys_key_model::<T>() ==> r@ == set@,
{
    set.clone()
}

} // verus!
