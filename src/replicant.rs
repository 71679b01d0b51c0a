use vstd::prelude::*;

use crate::clock::Actor;
use crate::{Object, Reference};

verus! {

/// The unit of traffic between replicants: an operation addressed to one replicated value.
#[derive(Debug)]
pub struct Action<Op> {
    pub target: Reference,
    pub payload: Op,
}

/// An inbound action named a reference that the replicant does not serve.
#[derive(Debug, PartialEq, Eq)]
pub struct RoutingError {
    pub target: Reference,
}

/// The reference of the root object of a replicant.
pub fn root(actor: Actor) -> (r: Reference)
    ensures
        r == Reference(actor, Object(1)),
{
    Reference(actor, Object(1))
}

/// The inbound routing table of a replicant: the references it serves, the index of each being
/// the index of its inbound queue.
#[derive(Debug)]
pub struct Routes {
    served: Vec<Reference>,
}

impl Routes {
    /// The references served, by queue index.
    pub closed spec fn view(&self) -> Seq<Reference> {
        self.served@
    }

    /// A table serving the root object of `actor` at queue zero.
    pub fn new(actor: Actor) -> (r: Routes)
        ensures
            r@ == seq![Reference(actor, Object(1))],
    {
        let mut served = Vec::new();
        served.push(root(actor));
        Routes { served }
    }

    pub fn len(&self) -> (r: usize)
        ensures
            r == self@.len(),
    {
        self.served.len()
    }

    /// The queue of `target`: the first index that serves it, or an error if none does.
    pub fn route(&self, target: Reference) -> (r: Result<usize, RoutingError>)
        ensures
            r matches Ok(i) ==> i < self@.len() && self@[i as int] == target && forall|j: int|
                0 <= j < i ==> self@[j] != target,
            r is Err <==> !self@.contains(target),
            r matches Err(e) ==> e.target == target,
    {
        let mut i: usize = 0;
        while i < self.served.len()
            invariant
                i <= self.served@.len(),
                forall|j: int| 0 <= j < i ==> self.served@[j] != target,
            decreases self.served@.len() - i,
        {
            if self.served[i] == target {
                return Ok(i);
            }
            i = i + 1;
        }
        Err(RoutingError { target })
    }

    /// Serves `target` too, unless it is served already; returns its queue index.
    pub fn register(&mut self, target: Reference) -> (r: usize)
        ensures
            old(self)@.contains(target) ==> final(self)@ == old(self)@ && r < old(self)@.len()
                && old(self)@[r as int] == target,
            !old(self)@.contains(target) ==> final(self)@ == old(self)@.push(target) && r == old(
                self,
            )@.len(),
    {
        match self.route(target) {
            Ok(i) => i,
            Err(_) => {
                let i = self.served.len();
                self.served.push(target);
                i
            },
        }
    }
}

/// Backpressure over all inbound queues: ready only when every queue is.
pub fn all_ready(ready: &[bool]) -> (r: bool)
    ensures
        r == forall|i: int| 0 <= i < ready@.len() ==> ready@[i],
{
    let mut i: usize = 0;
    while i < ready.len()
        invariant
            i <= ready@.len(),
            forall|j: int| 0 <= j < i ==> ready@[j],
        decreases ready@.len() - i,
    {
        if !ready[i] {
            return false;
        }
        i = i + 1;
    }
    true
}

/// Addresses operations taken from a bound value's handle to `target`, keeping their order.
pub fn address<Op>(target: Reference, ops: Vec<Op>) -> (r: Vec<Action<Op>>)
    ensures
        r@.len() == ops@.len(),
        forall|i: int|
            0 <= i < ops@.len() ==> #[trigger] r@[i] == (Action { target, payload: ops@[i] }),
{
    let ghost all = ops@;
    let mut ops = ops;
    let mut r: Vec<Action<Op>> = Vec::new();
    while ops.len() > 0
        invariant
            r@.len() <= all.len(),
            ops@ == all.skip(r@.len() as int),
            forall|i: int|
                0 <= i < r@.len() ==> #[trigger] r@[i] == (Action { target, payload: all[i] }),
        decreases ops@.len(),
    {
        let payload = ops.remove(0);
        r.push(Action { target, payload });
        assert(ops@ =~= all.skip(r@.len() as int));
    }
    r
}

} // verus!
