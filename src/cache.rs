use vstd::prelude::*;

use crate::Reference;

verus! {

/// Where a bound value sends the operations it emits.
pub trait Handle<Op> {
    /// The address that the operations are sent for.
    spec fn target(&self) -> Reference;

    /// Every operation dispatched through this handle and not yet taken out.
    spec fn dispatched(&self) -> Seq<Op>;

    fn dispatch(&mut self, op: Op)
        ensures
            final(self).dispatched() == old(self).dispatched().push(op),
            final(self).target() == old(self).target();

    fn this(&self) -> (r: Reference)
        ensures
            r == self.target();
}

/// The handle that a replicant gives a value when it binds it: operations wait here, in the
/// order they were dispatched, until the replicant takes them out to send them.
#[derive(Debug)]
pub struct Outbox<Op> {
    target: Reference,
    queue: Vec<Op>,
}

impl<Op> Handle<Op> for Outbox<Op> {
    closed spec fn target(&self) -> Reference {
        self.target
    }

    closed spec fn dispatched(&self) -> Seq<Op> {
        self.queue@
    }

    fn dispatch(&mut self, op: Op) {
        self.queue.push(op);
    }

    fn this(&self) -> (r: Reference) {
        self.target
    }
}

impl<Op> Outbox<Op> {
    pub fn new(target: Reference) -> (r: Outbox<Op>)
        ensures
            r.target() == target,
            r.dispatched() == Seq::<Op>::empty(),
    {
        Outbox { target, queue: Vec::new() }
    }

    /// Takes out every operation dispatched so far, oldest first.
    pub fn take(&mut self) -> (r: Vec<Op>)
        ensures
            r@ == old(self).dispatched(),
            final(self).dispatched() == Seq::<Op>::empty(),
            final(self).target() == old(self).target(),
    {
        let mut taken: Vec<Op> = Vec::new();
        core::mem::swap(&mut taken, &mut self.queue);
        taken
    }
}

/// A buffer for the operations that a value emits before it is bound.
pub trait Cache<Op> {
    /// Binds the handle: what was buffered is dispatched through it, and so is everything later.
    fn prepare(&mut self, handle: Outbox<Op>);

    /// Buffers `op`, or dispatches it once a handle is bound.
    fn dispatch(&mut self, op: Op);

    /// Takes one buffered operation, while no handle is bound.
    fn next_cached(&mut self) -> Option<Op>;
}

/// The cache that keeps every operation emitted before binding.
#[derive(Debug)]
pub enum Sequence<Op> {
    Cache(Vec<Op>),
    Handle(Outbox<Op>),
}

impl<Op> Sequence<Op> {
    /// The operations waiting for a handle.
    pub open spec fn buffered(&self) -> Seq<Op> {
        match self {
            Sequence::Cache(items) => items@,
            Sequence::Handle(_) => Seq::empty(),
        }
    }

    /// What the bound handle holds; nothing while unbound.
    pub open spec fn sent(&self) -> Seq<Op> {
        match self {
            Sequence::Cache(_) => Seq::empty(),
            Sequence::Handle(h) => h.dispatched(),
        }
    }

    pub fn new() -> (r: Sequence<Op>)
        ensures
            r is Cache,
            r.buffered() == Seq::<Op>::empty(),
    {
        Sequence::Cache(Vec::new())
    }

    /// Takes out what the bound handle holds; nothing while unbound.
    pub fn take_dispatched(&mut self) -> (r: Vec<Op>)
        ensures
            r@ == old(self).sent(),
            final(self).sent() == Seq::<Op>::empty(),
            final(self).buffered() == old(self).buffered(),
            (*final(self) is Handle) == (*old(self) is Handle),
            *old(self) matches Sequence::Handle(h) ==> *final(self) matches Sequence::Handle(g)
                && g.target() == h.target(),
    {
        match self {
            Sequence::Cache(_) => Vec::new(),
            Sequence::Handle(h) => h.take(),
        }
    }
}

impl<Op> Cache<Op> for Sequence<Op> {
    fn prepare(&mut self, handle: Outbox<Op>)
        ensures
            *final(self) matches Sequence::Handle(h) && h.target() == handle.target(),
            final(self).sent() == handle.dispatched() + old(self).buffered(),
    {
        let mut handle = handle;
        let mut current = Sequence::Cache(Vec::new());
        core::mem::swap(&mut current, self);
        let ghost start = handle.dispatched();
        let ghost target = handle.target();
        if let Sequence::Cache(mut items) = current {
            let ghost all = items@;
            let total: usize = items.len();
            let mut k: usize = 0;
            while items.len() > 0
                invariant
                    k <= all.len() == total,
                    handle.target() == target,
                    items@ == all.skip(k as int),
                    handle.dispatched() == start + all.take(k as int),
                decreases items@.len(),
            {
                let op = items.remove(0);
                handle.dispatch(op);
                k = k + 1;
                assert(items@ =~= all.skip(k as int));
                assert(start + all.take(k as int) =~= (start + all.take((k - 1) as int)).push(op));
            }
            assert(all.take(k as int) =~= all);
        } else {
            assert(old(self).buffered() =~= Seq::<Op>::empty());
            assert(start + Seq::<Op>::empty() =~= start);
        }
        *self = Sequence::Handle(handle);
    }

    fn dispatch(&mut self, op: Op)
        ensures
            *old(self) is Cache ==> *final(self) is Cache && final(self).buffered() == old(
                self,
            ).buffered().push(op),
            *old(self) matches Sequence::Handle(h) ==> *final(self) matches Sequence::Handle(g)
                && g.target() == h.target() && g.dispatched() == h.dispatched().push(op),
    {
        match self {
            Sequence::Cache(items) => items.push(op),
            Sequence::Handle(handle) => handle.dispatch(op),
        }
    }

    fn next_cached(&mut self) -> (r: Option<Op>)
        ensures
            *old(self) is Cache && old(self).buffered().len() > 0 ==> r == Some(
                old(self).buffered().last(),
            ) && *final(self) is Cache && final(self).buffered() == old(
                self,
            ).buffered().drop_last(),
            !(*old(self) is Cache && old(self).buffered().len() > 0) ==> r is None
                && final(self).buffered() == old(self).buffered() && (*final(self) is Cache) == (
            *old(self) is Cache),
            *old(self) is Handle ==> *final(self) == *old(self),
    {
        match self {
            Sequence::Cache(items) => {
                if items.len() == 0 {
                    None
                } else {
                    items.pop()
                }
            },
            Sequence::Handle(_) => None,
        }
    }
}

/// The cache that keeps only the latest operation emitted before binding.
#[derive(Debug)]
pub enum Single<Op> {
    Cache(Option<Op>),
    Handle(Outbox<Op>),
}

impl<Op> Single<Op> {
    /// The operation waiting for a handle, if any.
    pub open spec fn buffered(&self) -> Option<Op> {
        match self {
            Single::Cache(item) => *item,
            Single::Handle(_) => None,
        }
    }

    /// What the bound handle holds; nothing while unbound.
    pub open spec fn sent(&self) -> Seq<Op> {
        match self {
            Single::Cache(_) => Seq::empty(),
            Single::Handle(h) => h.dispatched(),
        }
    }

    pub fn new() -> (r: Single<Op>)
        ensures
            r is Cache,
            r.buffered() is None,
    {
        Single::Cache(None)
    }

    /// Takes out what the bound handle holds; nothing while unbound.
    pub fn take_dispatched(&mut self) -> (r: Vec<Op>)
        ensures
            r@ == old(self).sent(),
            final(self).sent() == Seq::<Op>::empty(),
            final(self).buffered() == old(self).buffered(),
            (*final(self) is Handle) == (*old(self) is Handle),
            *old(self) matches Single::Handle(h) ==> *final(self) matches Single::Handle(g)
                && g.target() == h.target(),
    {
        match self {
            Single::Cache(_) => Vec::new(),
            Single::Handle(h) => h.take(),
        }
    }
}

impl<Op> Cache<Op> for Single<Op> {
    fn prepare(&mut self, handle: Outbox<Op>)
        ensures
            *final(self) matches Single::Handle(h) && h.target() == handle.target(),
            final(self).sent() == match old(self).buffered() {
                Some(op) => handle.dispatched().push(op),
                None => handle.dispatched(),
            },
    {
        let mut handle = handle;
        if let Single::Cache(item) = self {
            if let Some(op) = item.take() {
                handle.dispatch(op);
            }
        }
        *self = Single::Handle(handle);
    }

    fn dispatch(&mut self, op: Op)
        ensures
            *old(self) is Cache ==> *final(self) is Cache && final(self).buffered() == Some(op),
            *old(self) matches Single::Handle(h) ==> *final(self) matches Single::Handle(g)
                && g.target() == h.target() && g.dispatched() == h.dispatched().push(op),
    {
        match self {
            Single::Cache(item) => {
                *item = Some(op);
            },
            Single::Handle(handle) => handle.dispatch(op),
        }
    }

    fn next_cached(&mut self) -> (r: Option<Op>)
        ensures
            r == old(self).buffered(),
            *old(self) is Cache ==> *final(self) is Cache && final(self).buffered() is None,
            *old(self) is Handle ==> *final(self) == *old(self),
    {
        match self {
            Single::Cache(item) => item.take(),
            Single::Handle(_) => None,
        }
    }
}

} // verus!
