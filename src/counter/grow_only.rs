use vstd::prelude::*;

use crate::actor_map::{ActorMap, entries_map, lemma_prefix_full, lemma_prefix_step};
use crate::cache::{Cache, Handle, Outbox, Sequence};
use crate::clock::{Actor, rebind};
use crate::counter::{IncrementError, Incrementable, Zero};
use crate::Replicative;

verus! {

/// The count that `m` holds for `a`, zero where it has none.
pub open spec fn count(m: Map<Actor, int>, a: Actor) -> int {
    if m.contains_key(a) {
        m[a]
    } else {
        0
    }
}

/// `m` with `n` added to the count of `a`.
pub open spec fn add_count(m: Map<Actor, int>, a: Actor, n: int) -> Map<Actor, int> {
    m.insert(a, count(m, a) + n)
}

/// The pointwise sum of two count maps.
pub open spec fn sum_counts(m1: Map<Actor, int>, m2: Map<Actor, int>) -> Map<Actor, int> {
    Map::new(
        |a: Actor| m1.contains_key(a) || m2.contains_key(a),
        |a: Actor| count(m1, a) + count(m2, a),
    )
}

/// The amounts of a map of numbers.
pub open spec fn counts_of<T: Incrementable>(m: Map<Actor, T>) -> Map<Actor, int> {
    Map::new(|a: Actor| m.contains_key(a), |a: Actor| m[a].amount())
}

/// The sum of the counts of a finite map.
pub open spec fn total(m: Map<Actor, int>) -> int
    decreases m.dom().len(),
    when m.dom().finite()
{
    if m.dom().len() > 0 {
        let a = m.dom().choose();
        m[a] + total(m.remove(a))
    } else {
        0
    }
}

pub proof fn lemma_total_remove(m: Map<Actor, int>, a: Actor)
    requires
        m.dom().finite(),
        m.contains_key(a),
    ensures
        total(m) == m[a] + total(m.remove(a)),
    decreases m.dom().len(),
{
    let c = m.dom().choose();
    if c != a {
        lemma_total_remove(m.remove(c), a);
        lemma_total_remove(m.remove(a), c);
        assert(m.remove(c).remove(a) =~= m.remove(a).remove(c));
    }
}

/// Adding `n` to one count adds `n` to the total.
pub proof fn lemma_total_add(m: Map<Actor, int>, a: Actor, n: int)
    requires
        m.dom().finite(),
    ensures
        add_count(m, a, n).dom().finite(),
        total(add_count(m, a, n)) == total(m) + n,
{
    let m2 = add_count(m, a, n);
    lemma_total_remove(m2, a);
    if m.contains_key(a) {
        lemma_total_remove(m, a);
        assert(m2.remove(a) =~= m.remove(a));
    } else {
        assert(m2.remove(a) =~= m);
    }
}

proof fn lemma_counts_insert<T: Incrementable>(m: Map<Actor, T>, a: Actor, v: T)
    ensures
        counts_of(m.insert(a, v)) == counts_of(m).insert(a, v.amount()),
        counts_of(m.remove(a)) == counts_of(m).remove(a),
{
    assert(counts_of(m.insert(a, v)) =~= counts_of(m).insert(a, v.amount()));
    assert(counts_of(m.remove(a)) =~= counts_of(m).remove(a));
}

/// The map that ascending entries stand for has finitely many keys.
proof fn lemma_entries_finite<V>(s: Seq<(Actor, V)>, i: int)
    requires
        crate::actor_map::ascending(s),
        0 <= i <= s.len(),
    ensures
        entries_map(s.take(i)).dom().finite(),
    decreases i,
{
    if i == 0 {
        lemma_prefix_full(s);
    } else {
        lemma_entries_finite(s, i - 1);
        lemma_prefix_step(s, i - 1);
    }
}

/// A grow-only counter: one count per actor, each only ever increased; its value is their sum.
#[derive(Debug)]
pub struct GrowOnly<T> {
    pub(crate) data: ActorMap<T>,
    pub(crate) handle: Sequence<T>,
    pub(crate) this: Actor,
}

impl<T: Incrementable> GrowOnly<T> {
    pub open(crate) spec fn wf(&self) -> bool {
        &&& self.data.wf()
        &&& forall|a: Actor| #[trigger] self.data@.contains_key(a) ==> self.data@[a].amount() >= 0
    }

    /// The count of each actor.
    pub open(crate) spec fn counts(&self) -> Map<Actor, int> {
        counts_of(self.data@)
    }

    /// The value of the counter: the sum of the counts.
    pub open(crate) spec fn value(&self) -> int {
        total(self.counts())
    }

    pub open(crate) spec fn local_actor(&self) -> Actor {
        self.this
    }

    pub open(crate) spec fn cache(&self) -> Sequence<T> {
        self.handle
    }

    proof fn lemma_finite(&self)
        requires
            self.data.wf(),
        ensures
            self.data@.dom().finite(),
            self.counts().dom().finite(),
    {
        lemma_entries_finite(self.data.items(), self.data.items().len() as int);
        lemma_prefix_full(self.data.items());
        assert(self.counts().dom() =~= self.data@.dom());
    }

    /// A counter that holds `item` for the placeholder actor.
    pub fn new(item: T) -> (r: GrowOnly<T>)
        requires
            item.amount() >= 0,
        ensures
            r.wf(),
            r.counts() == map![Actor(0) => item.amount()],
            r.local_actor() == Actor(0),
            r.cache() is Cache,
            r.cache().buffered() == Seq::<T>::empty(),
    {
        let mut data = ActorMap::new();
        data.insert(Actor::invalid(), item);
        let r = GrowOnly { data, handle: Sequence::new(), this: Actor::invalid() };
        assert(r.counts() =~= map![Actor(0) => item.amount()]);
        r
    }

    /// Adds `by` to the count of `origin`, without emitting anything.
    pub(crate) fn increment_origin(&mut self, origin: Actor, by: T) -> (r: Result<(), IncrementError>)
        requires
            old(self).wf(),
            by.amount() < 0 || T::holds(count(old(self).counts(), origin) + by.amount()),
        ensures
            final(self).wf(),
            final(self).local_actor() == old(self).local_actor(),
            final(self).cache() == old(self).cache(),
            by.amount() < 0 ==> r is Err && final(self).counts() == old(self).counts(),
            by.amount() >= 0 ==> r is Ok && final(self).counts() == add_count(
                old(self).counts(),
                origin,
                by.amount(),
            ),
    {
        if by.is_negative() {
            return Err(IncrementError);
        }
        let current = match self.data.get(origin) {
            Some(c) => Some(*c),
            None => None,
        };
        proof {
            lemma_counts_insert(self.data@, origin, by);
        }
        match current {
            Some(c) => {
                let mut c = c;
                let _ = c.increment(by);
                proof {
                    lemma_counts_insert(self.data@, origin, c);
                }
                self.data.insert(origin, c);
            },
            None => {
                self.data.insert(origin, by);
            },
        }
        assert(self.counts() =~= add_count(old(self).counts(), origin, by.amount()));
        Ok(())
    }

    /// Adds `by` to the local count and emits it; a negative `by` is refused and changes nothing.
    pub fn increment(&mut self, by: T) -> (r: Result<(), IncrementError>)
        requires
            old(self).wf(),
            by.amount() < 0 || T::holds(count(old(self).counts(), old(self).local_actor()) + by.amount()),
        ensures
            final(self).wf(),
            final(self).local_actor() == old(self).local_actor(),
            by.amount() < 0 ==> r is Err && final(self).counts() == old(self).counts()
                && final(self).cache() == old(self).cache(),
            by.amount() >= 0 ==> r is Ok && final(self).counts() == add_count(
                old(self).counts(),
                old(self).local_actor(),
                by.amount(),
            ) && emitted(old(self).cache(), final(self).cache(), by),
    {
        let r = self.increment_origin(self.this, by);
        if r.is_ok() {
            self.handle.dispatch(by);
        }
        r
    }

    /// Moves the count of the placeholder actor, if any, under `actor`, which becomes local.
    pub(crate) fn rebind(&mut self, actor: Actor)
        requires
            old(self).wf(),
        ensures
            final(self).wf(),
            final(self).counts() == rebind(old(self).counts(), actor),
            final(self).local_actor() == actor,
            final(self).cache() == old(self).cache(),
    {
        proof {
            lemma_counts_insert(self.data@, Actor(0), self.data@[Actor(0)]);
        }
        if let Some(item) = self.data.remove(Actor(0)) {
            proof {
                lemma_counts_insert(self.data@, actor, item);
            }
            self.data.insert(actor, item);
        }
        self.this = actor;
        assert(self.counts() =~= rebind(old(self).counts(), actor));
    }

    /// Takes one operation buffered before binding, the latest first.
    pub fn next_cached(&mut self) -> (r: Option<T>)
        requires
            old(self).wf(),
        ensures
            final(self).wf(),
            final(self).counts() == old(self).counts(),
            final(self).local_actor() == old(self).local_actor(),
            old(self).cache() is Cache && old(self).cache().buffered().len() > 0 ==> r == Some(
                old(self).cache().buffered().last(),
            ) && final(self).cache().buffered() == old(self).cache().buffered().drop_last(),
            !(old(self).cache() is Cache && old(self).cache().buffered().len() > 0) ==> r is None,
    {
        self.handle.next_cached()
    }

    /// Takes out the operations sent through the bound handle, oldest first.
    pub fn take_dispatched(&mut self) -> (r: Vec<T>)
        requires
            old(self).wf(),
        ensures
            final(self).wf(),
            r@ == old(self).cache().sent(),
            final(self).cache().sent() == Seq::<T>::empty(),
            final(self).counts() == old(self).counts(),
            final(self).local_actor() == old(self).local_actor(),
    {
        self.handle.take_dispatched()
    }
}

impl<T: Zero> GrowOnly<T> {
    /// The value of the counter.
    pub fn get(&self) -> (r: T)
        requires
            self.wf(),
            T::holds(self.value()),
        ensures
            r.amount() == self.value(),
    {
        let ghost s = self.data.items();
        proof {
            lemma_partial_bound(self, 0);
            lemma_partial_bound(self, s.len() as int);
            lemma_prefix_full(s);
            assert(counts_of(entries_map(s.take(0))) =~= Map::<Actor, int>::empty());
            assert(Map::<Actor, int>::empty().dom() =~= Set::<Actor>::empty());
        }
        let mut sum = T::zero();
        let mut i: usize = 0;
        while i < self.data.len()
            invariant
                self.wf(),
                T::holds(self.value()),
                s == self.data.items(),
                i <= s.len(),
                sum.amount() == prefix_total(s, i as int),
            decreases s.len() - i,
        {
            let item = self.data.entries[i].1;
            proof {
                lemma_prefix_total_step(s, i as int);
                lemma_partial_bound(self, i as int);
                lemma_partial_bound(self, i as int + 1);
                crate::actor_map::lemma_position(s, i as int);
                T::lemma_range(item, 0, self.value());
            }
            let _ = sum.increment(item);
            i = i + 1;
        }
        proof {
            lemma_prefix_full(s);
        }
        sum
    }
}

/// Whether some count of `m` is negative.
pub open spec fn has_negative<T: Incrementable>(m: Map<Actor, T>) -> bool {
    exists|a: Actor| #[trigger] m.contains_key(a) && m[a].amount() < 0
}

proof fn lemma_sum_step<T: Incrementable>(m: Map<Actor, int>, p: Map<Actor, T>, a: Actor, v: T)
    requires
        !p.contains_key(a),
    ensures
        sum_counts(m, counts_of(p.insert(a, v))) == add_count(
            sum_counts(m, counts_of(p)),
            a,
            v.amount(),
        ),
        count(sum_counts(m, counts_of(p)), a) == count(m, a),
{
    assert(sum_counts(m, counts_of(p.insert(a, v))) =~= add_count(
        sum_counts(m, counts_of(p)),
        a,
        v.amount(),
    ));
}

impl<T: Zero> Replicative for GrowOnly<T> {
    type Op = T;

    type State = ActorMap<T>;

    type MergeError = IncrementError;

    type ApplyError = IncrementError;

    open spec fn inv(&self) -> bool {
        self.wf()
    }

    open spec fn apply_fits(&self, origin: Actor, op: T) -> bool {
        op.amount() < 0 || T::holds(count(self.counts(), origin) + op.amount())
    }

    open spec fn merge_fits(&self, state: ActorMap<T>) -> bool {
        &&& state.wf()
        &&& forall|a: Actor|
            #[trigger] T::holds(count(self.counts(), a) + count(counts_of(state@), a))
    }

    open spec fn state_fits(state: ActorMap<T>) -> bool {
        state.wf()
    }

    /// Adds `op` to the count of `origin`; a negative `op` is refused and changes nothing.
    fn apply(&mut self, origin: Actor, op: T) -> (r: Result<(), IncrementError>)
        ensures
            final(self).local_actor() == old(self).local_actor(),
            final(self).cache() == old(self).cache(),
            op.amount() < 0 ==> r is Err && final(self).counts() == old(self).counts(),
            op.amount() >= 0 ==> r is Ok && final(self).counts() == add_count(
                old(self).counts(),
                origin,
                op.amount(),
            ),
    {
        self.increment_origin(origin, op)
    }

    /// Moves the placeholder's count under the handle's actor and flushes what was buffered.
    fn prepare(&mut self, handle: Outbox<T>)
        ensures
            final(self).counts() == rebind(old(self).counts(), handle.target().0),
            final(self).local_actor() == handle.target().0,
            final(self).cache() matches Sequence::Handle(h) && h.target() == handle.target(),
            final(self).cache().sent() == handle.dispatched() + old(self).cache().buffered(),
    {
        let actor = handle.this().0;
        self.rebind(actor);
        self.handle.prepare(handle);
    }

    /// A counter holding the counts of `state`; refused if one of them is negative.
    fn from_state(state: ActorMap<T>) -> (r: Result<GrowOnly<T>, IncrementError>)
        ensures
            has_negative(state@) ==> r is Err,
            !has_negative(state@) ==> (r matches Ok(c) && c.counts() == counts_of(state@)
                && c.local_actor() == Actor(0) && c.cache() is Cache && c.cache().buffered()
                == Seq::<T>::empty()),
    {
        let mut c = GrowOnly { data: ActorMap::new(), handle: Sequence::new(), this: Actor::invalid() };
        proof {
            assert(c.counts() =~= Map::<Actor, int>::empty());
            assert forall|a: Actor| #[trigger] T::holds(count(c.counts(), a) + count(counts_of(state@), a)) by {
                if state@.contains_key(a) {
                    T::lemma_range(state@[a], 0, 0);
                } else {
                    T::lemma_range(vstd::pervasive::arbitrary::<T>(), 0, 0);
                }
            }
        }
        match c.merge(state) {
            Ok(()) => {
                assert(c.counts() =~= counts_of(state@));
                Ok(c)
            },
            Err(e) => Err(e),
        }
    }

    /// Adds every count of `state` to this counter's; refused, changing nothing, if one of them
    /// is negative.
    fn merge(&mut self, state: ActorMap<T>) -> (r: Result<(), IncrementError>)
        ensures
            final(self).local_actor() == old(self).local_actor(),
            final(self).cache() == old(self).cache(),
            has_negative(state@) ==> r is Err && final(self).counts() == old(self).counts(),
            !has_negative(state@) ==> r is Ok && final(self).counts() == sum_counts(
                old(self).counts(),
                counts_of(state@),
            ),
    {
        let ghost items = state.items();
        if !all_nonnegative(&state) {
            return Err(IncrementError);
        }
        let ghost start = self.counts();
        proof {
            lemma_prefix_full(items);
            assert(counts_of(entries_map(items.take(0))) =~= Map::<Actor, int>::empty());
            assert(sum_counts(start, Map::<Actor, int>::empty()) =~= start);
        }
        let mut i: usize = 0;
        while i < state.len()
            invariant
                self.wf(),
                state.wf(),
                items == state.items(),
                i <= items.len(),
                self.local_actor() == old(self).local_actor(),
                self.cache() == old(self).cache(),
                start == old(self).counts(),
                old(self).merge_fits(state),
                !has_negative(state@),
                self.counts() == sum_counts(start, counts_of(entries_map(items.take(i as int)))),
            decreases items.len() - i,
        {
            let (a, n) = state.entries[i];
            proof {
                lemma_prefix_step(items, i as int);
                lemma_sum_step(start, entries_map(items.take(i as int)), a, n);
                crate::actor_map::lemma_position(items, i as int);
                assert(count(counts_of(state@), a) == n.amount());
                assert(T::holds(count(start, a) + count(counts_of(state@), a)));
            }
            let _ = self.increment_origin(a, n);
            i = i + 1;
        }
        proof {
            lemma_prefix_full(items);
        }
        Ok(())
    }

    /// A copy of the counts.
    fn fetch(&self) -> (r: ActorMap<T>)
        ensures
            r.wf(),
            counts_of(r@) == self.counts(),
    {
        self.data.copied()
    }
}

/// Whether every count of `state` is at least zero.
pub(crate) fn all_nonnegative<T: Incrementable>(state: &ActorMap<T>) -> (r: bool)
    requires
        state.wf(),
    ensures
        r == !has_negative(state@),
{
    let ghost items = state.items();
    let mut i: usize = 0;
    while i < state.len()
        invariant
            state.wf(),
            items == state.items(),
            i <= items.len(),
            forall|j: int| 0 <= j < i ==> #[trigger] items[j].1.amount() >= 0,
        decreases items.len() - i,
    {
        if state.entries[i].1.is_negative() {
            proof {
                crate::actor_map::lemma_position(items, i as int);
                assert(state@.contains_key(items[i as int].0));
            }
            return false;
        }
        i = i + 1;
    }
    assert(!has_negative(state@)) by {
        if has_negative(state@) {
            let a = choose|a: Actor| #[trigger] state@.contains_key(a) && state@[a].amount() < 0;
            let k = crate::actor_map::position(items, a);
            crate::actor_map::lemma_position(items, k);
        }
    }
    true
}

/// The sum of the first `i` entries.
pub open spec fn prefix_total<T: Incrementable>(s: Seq<(Actor, T)>, i: int) -> int {
    total(counts_of(entries_map(s.take(i))))
}

proof fn lemma_prefix_total_step<T: Incrementable>(s: Seq<(Actor, T)>, i: int)
    requires
        crate::actor_map::ascending(s),
        0 <= i < s.len(),
    ensures
        prefix_total(s, i + 1) == prefix_total(s, i) + s[i].1.amount(),
{
    lemma_entries_finite(s, i);
    lemma_prefix_step(s, i);
    let p = entries_map(s.take(i));
    assert(counts_of(p).dom() =~= p.dom());
    lemma_counts_insert(p, s[i].0, s[i].1);
    lemma_total_add(counts_of(p), s[i].0, s[i].1.amount());
    assert(add_count(counts_of(p), s[i].0, s[i].1.amount()) == counts_of(p).insert(
        s[i].0,
        s[i].1.amount(),
    ));
}

/// A prefix of the entries sums to at least zero and at most the whole.
proof fn lemma_partial_bound<T: Incrementable>(c: &GrowOnly<T>, i: int)
    requires
        c.wf(),
        0 <= i <= c.data.items().len(),
    ensures
        0 <= prefix_total(c.data.items(), i) <= c.value(),
{
    lemma_prefix_low(c, i);
    lemma_prefix_high(c, i);
}

proof fn lemma_prefix_low<T: Incrementable>(c: &GrowOnly<T>, i: int)
    requires
        c.wf(),
        0 <= i <= c.data.items().len(),
    ensures
        0 <= prefix_total(c.data.items(), i),
    decreases i,
{
    let s = c.data.items();
    if i == 0 {
        lemma_prefix_full(s);
        assert(counts_of(entries_map(s.take(0))) =~= Map::<Actor, int>::empty());
        assert(Map::<Actor, int>::empty().dom() =~= Set::<Actor>::empty());
        assert(total(Map::<Actor, int>::empty()) == 0);
    } else {
        lemma_prefix_low(c, i - 1);
        lemma_prefix_total_step(s, i - 1);
        crate::actor_map::lemma_position(s, i - 1);
        assert(c.data@.contains_key(s[i - 1].0));
        assert(s[i - 1].1.amount() >= 0);
    }
}

proof fn lemma_prefix_high<T: Incrementable>(c: &GrowOnly<T>, i: int)
    requires
        c.wf(),
        0 <= i <= c.data.items().len(),
    ensures
        prefix_total(c.data.items(), i) <= c.value(),
    decreases c.data.items().len() - i,
{
    let s = c.data.items();
    if i == s.len() {
        lemma_prefix_full(s);
    } else {
        lemma_prefix_high(c, i + 1);
        lemma_prefix_total_step(s, i);
        crate::actor_map::lemma_position(s, i);
    }
}

/// Totals of counts that are not negative are not negative.
proof fn lemma_total_nonneg(m: Map<Actor, int>)
    requires
        m.dom().finite(),
    ensures
        (forall|a: Actor| #[trigger] m.contains_key(a) ==> m[a] >= 0) ==> total(m) >= 0,
    decreases m.dom().len(),
{
    if m.dom().len() > 0 {
        let a = m.dom().choose();
        lemma_total_nonneg(m.remove(a));
    }
}

/// The cache after one more operation: buffered while unbound, sent once bound.
pub open spec fn emitted<T>(before: Sequence<T>, after: Sequence<T>, op: T) -> bool {
    match before {
        Sequence::Cache(_) => after is Cache && after.buffered() == before.buffered().push(op),
        Sequence::Handle(h) => after matches Sequence::Handle(g) && g.target() == h.target()
            && g.dispatched() == h.dispatched().push(op),
    }
}

/// Merging counts is associative and commutative.
pub proof fn lemma_merge_laws(a: Map<Actor, int>, b: Map<Actor, int>, c: Map<Actor, int>)
    ensures
        sum_counts(a, sum_counts(b, c)) == sum_counts(sum_counts(a, b), c),
        sum_counts(a, b) == sum_counts(b, a),
{
    assert(sum_counts(a, sum_counts(b, c)) =~= sum_counts(sum_counts(a, b), c));
    assert(sum_counts(a, b) =~= sum_counts(b, a));
}

/// Applying increments in either order gives the same counts.
pub proof fn lemma_apply_commutes(m: Map<Actor, int>, a: Actor, x: int, b: Actor, y: int)
    ensures
        add_count(add_count(m, a, x), b, y) == add_count(add_count(m, b, y), a, x),
{
    assert(add_count(add_count(m, a, x), b, y) =~= add_count(add_count(m, b, y), a, x));
}

/// Merging counts into themselves leaves them as they are when every count is zero: merging
/// adds, so with any positive count it would not.
pub proof fn lemma_merge_self(a: Map<Actor, int>)
    requires
        forall|k: Actor| #[trigger] a.contains_key(k) ==> a[k] == 0,
    ensures
        sum_counts(a, a) == a,
{
    assert(sum_counts(a, a) =~= a);
}

/// A counter built from a snapshot holds the counts of the snapshot: merging into no counts
/// gives the merged counts back.
pub proof fn lemma_round_trip(c: Map<Actor, int>)
    ensures
        sum_counts(Map::empty(), c) == c,
{
    assert(sum_counts(Map::empty(), c) =~= c);
}

/// The counts after applying `ops`, one `(origin, amount)` after the other.
pub open spec fn apply_all(m: Map<Actor, int>, ops: Seq<(Actor, int)>) -> Map<Actor, int>
    decreases ops.len(),
{
    if ops.len() == 0 {
        m
    } else {
        add_count(apply_all(m, ops.drop_last()), ops.last().0, ops.last().1)
    }
}

/// The sum of the amounts of `ops`.
pub open spec fn sum_amounts(ops: Seq<(Actor, int)>) -> int
    decreases ops.len(),
{
    if ops.len() == 0 {
        0
    } else {
        sum_amounts(ops.drop_last()) + ops.last().1
    }
}

/// Whatever the order and the origins of increments, they raise the value by their sum.
pub proof fn lemma_increments_total(m: Map<Actor, int>, ops: Seq<(Actor, int)>)
    requires
        m.dom().finite(),
    ensures
        apply_all(m, ops).dom().finite(),
        total(apply_all(m, ops)) == total(m) + sum_amounts(ops),
    decreases ops.len(),
{
    if ops.len() > 0 {
        lemma_increments_total(m, ops.drop_last());
        lemma_total_add(apply_all(m, ops.drop_last()), ops.last().0, ops.last().1);
    }
}

} // verus!
