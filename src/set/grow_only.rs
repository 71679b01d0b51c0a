use vstd::prelude::*;

use void::Void;

use crate::cache::{Cache, Handle, Outbox, Sequence};
use crate::clock::Actor;
use crate::counter::grow_only::emitted;
use crate::set::Container;
use crate::Replicative;

verus! {

/// A grow-only set: items are only ever added, and merging is union.
#[derive(Debug)]
pub struct GrowOnly<C: Container> {
    pub(crate) data: C,
    pub(crate) handle: Sequence<C::Item>,
}

/// The operation emitted last: the latest buffered one while unbound, the latest sent once bound.
pub open spec fn latest<T>(cache: Sequence<T>) -> T {
    match cache {
        Sequence::Cache(_) => cache.buffered().last(),
        Sequence::Handle(h) => h.dispatched().last(),
    }
}

impl<C: Container> GrowOnly<C> where C::Item: Clone {
    /// The items held.
    pub open(crate) spec fn contents(&self) -> Set<C::Item> {
        self.data.contents()
    }

    pub open(crate) spec fn cache(&self) -> Sequence<C::Item> {
        self.handle
    }

    pub fn new() -> (r: GrowOnly<C>)
        ensures
            r.contents() == Set::<C::Item>::empty(),
            r.cache() is Cache,
            r.cache().buffered() == Seq::<C::Item>::empty(),
    {
        GrowOnly { data: C::new(), handle: Sequence::new() }
    }

    /// Adds `item`; if it was absent, a copy of it is emitted. Says whether it was absent.
    pub fn insert(&mut self, item: C::Item) -> (r: bool)
        ensures
            C::lawful() ==> final(self).contents() == old(self).contents().insert(item) && r
                == !old(self).contents().contains(item),
            r ==> emitted(old(self).cache(), final(self).cache(), latest(final(self).cache()))
                && cloned(item, latest(final(self).cache())),
            !r ==> final(self).cache() == old(self).cache(),
    {
        let copy = item.clone();
        let item_is_new = self.data.insert(item);
        if item_is_new {
            self.handle.dispatch(copy);
        }
        item_is_new
    }

    /// The container of the items.
    pub fn items(&self) -> (r: &C)
        ensures
            r.contents() == self.contents(),
    {
        &self.data
    }

    /// Takes one operation buffered before binding, the latest first.
    pub fn next_cached(&mut self) -> (r: Option<C::Item>)
        ensures
            final(self).contents() == old(self).contents(),
            old(self).cache() is Cache && old(self).cache().buffered().len() > 0 ==> r == Some(
                old(self).cache().buffered().last(),
            ) && final(self).cache().buffered() == old(self).cache().buffered().drop_last(),
            !(old(self).cache() is Cache && old(self).cache().buffered().len() > 0) ==> r is None,
    {
        self.handle.next_cached()
    }

    /// Takes out the operations sent through the bound handle, oldest first.
    pub fn take_dispatched(&mut self) -> (r: Vec<C::Item>)
        ensures
            r@ == old(self).cache().sent(),
            final(self).cache().sent() == Seq::<C::Item>::empty(),
            final(self).contents() == old(self).contents(),
    {
        self.handle.take_dispatched()
    }
}

impl<C: Container> Replicative for GrowOnly<C> where C::Item: Clone {
    type Op = C::Item;

    type State = C;

    type MergeError = Void;

    type ApplyError = Void;

    open spec fn inv(&self) -> bool {
        true
    }

    open spec fn apply_fits(&self, origin: Actor, op: C::Item) -> bool {
        true
    }

    open spec fn merge_fits(&self, state: C) -> bool {
        true
    }

    open spec fn state_fits(state: C) -> bool {
        true
    }

    /// Adds `op`; an item already held is absorbed.
    fn apply(&mut self, origin: Actor, op: C::Item) -> (r: Result<(), Void>)
        ensures
            r is Ok,
            C::lawful() ==> final(self).contents() == old(self).contents().insert(op),
            final(self).cache() == old(self).cache(),
    {
        let _ = self.data.insert(op);
        Ok(())
    }

    /// Flushes what was buffered through `handle`.
    fn prepare(&mut self, handle: Outbox<C::Item>)
        ensures
            final(self).contents() == old(self).contents(),
            final(self).cache() matches Sequence::Handle(h) && h.target() == handle.target(),
            final(self).cache().sent() == handle.dispatched() + old(self).cache().buffered(),
    {
        self.handle.prepare(handle)
    }

    /// A set holding the items of `state`.
    fn from_state(state: C) -> (r: Result<GrowOnly<C>, Void>)
        ensures
            r matches Ok(s) && s.contents() == state.contents() && s.cache() is Cache
                && s.cache().buffered() == Seq::<C::Item>::empty(),
    {
        Ok(GrowOnly { data: state, handle: Sequence::new() })
    }

    /// Adds every item of `state`.
    fn merge(&mut self, state: C) -> (r: Result<(), Void>)
        ensures
            r is Ok,
            C::lawful() ==> final(self).contents() == old(self).contents().union(
                state.contents(),
            ),
            final(self).cache() == old(self).cache(),
    {
        self.data.extend_with(state);
        Ok(())
    }

    /// A copy of the items.
    fn fetch(&self) -> (r: C)
        ensures
            C::lawful() ==> r.contents() == self.contents(),
    {
        self.data.duplicate()
    }
}

/// Merging sets is a semilattice: union is associative, commutative and idempotent.
pub proof fn lemma_union_semilattice<T>(a: Set<T>, b: Set<T>, c: Set<T>)
    ensures
        a.union(b.union(c)) == a.union(b).union(c),
        a.union(b) == b.union(a),
        a.union(a) == a,
{
    assert(a.union(b.union(c)) =~= a.union(b).union(c));
    assert(a.union(b) =~= b.union(a));
    assert(a.union(a) =~= a);
}

/// Adding items is commutative and idempotent.
pub proof fn lemma_insert_commutes<T>(s: Set<T>, x: T, y: T)
    ensures
        s.insert(x).insert(y) == s.insert(y).insert(x),
        s.insert(x).insert(x) == s.insert(x),
{
    assert(s.insert(x).insert(y) =~= s.insert(y).insert(x));
    assert(s.insert(x).insert(x) =~= s.insert(x));
}

} // verus!
