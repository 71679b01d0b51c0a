use vstd::prelude::*;

use crate::actor_map::{
    ActorMap, ascending, entries_map, lemma_position, lemma_prefix_full,
    lemma_prefix_step, position,
};
use crate::cache::{Cache, Handle, Outbox, Single};
use crate::clock::{
    Actor, Clock, Moment, Shard, after_mint, covers, join, minted, observed, rebind, record,
};
use crate::Replicative;
use void::Void;

verus! {

/// The operation a register emits on `set`: the new value, the shard minted for it, and the
/// shards of the values it displaced.
#[derive(Debug)]
pub struct Op<T> {
    pub shard: Shard,
    pub data: T,
    pub removed: Vec<Shard>,
}

/// A value held for one actor, with the moment at which that actor wrote it.
#[derive(Debug)]
pub struct Value<T> {
    pub data: T,
    pub latest: Moment,
}

/// Whether some shard of `removed` names actor `a` at a moment not before `v` was written.
pub open spec fn superseded<T>(removed: Seq<Shard>, a: Actor, v: Value<T>) -> bool {
    exists|i: int| 0 <= i < removed.len() && #[trigger] removed[i].0 == a && v.latest.0 <= removed[i].1.0
}

/// The content without the values that `removed` supersedes.
pub open spec fn strip<T>(content: Map<Actor, Value<T>>, removed: Seq<Shard>) -> Map<Actor, Value<T>> {
    Map::new(
        |a: Actor| content.contains_key(a) && !superseded(removed, a, content[a]),
        |a: Actor| content[a],
    )
}

/// The content after offering `data`, written at `shard`: it replaces an older value of the
/// same actor, and loses to a value written at the same moment or later.
pub open spec fn install<T>(content: Map<Actor, Value<T>>, shard: Shard, data: T) -> Map<Actor, Value<T>> {
    if content.contains_key(shard.0) && content[shard.0].latest.0 >= shard.1.0 {
        content
    } else {
        content.insert(shard.0, Value { data, latest: shard.1 })
    }
}

/// The content after applying `op` at a register whose clock is `clock`.
pub open spec fn applied_content<T>(
    content: Map<Actor, Value<T>>,
    clock: Map<Actor, Moment>,
    op: Op<T>,
) -> Map<Actor, Value<T>> {
    if covers(clock, op.shard) {
        content
    } else {
        install(strip(content, op.removed@), op.shard, op.data)
    }
}

/// The clock after applying `op`.
pub open spec fn applied_clock<T>(clock: Map<Actor, Moment>, op: Op<T>) -> Map<Actor, Moment> {
    if covers(clock, op.shard) {
        clock
    } else {
        record(clock, op.shard)
    }
}

/// The shards of the values of other actors than `local`, in the order of `s`.
pub open spec fn displaced<T>(s: Seq<(Actor, Value<T>)>, local: Actor) -> Seq<Shard>
    decreases s.len(),
{
    if s.len() == 0 {
        Seq::empty()
    } else {
        let rest = displaced(s.drop_last(), local);
        if s.last().0 == local {
            rest
        } else {
            rest.push(Shard(s.last().0, s.last().1.latest))
        }
    }
}

/// The actor with the smallest id among the keys of `m`.
pub open spec fn first_actor<V>(m: Map<Actor, V>) -> Actor {
    choose|a: Actor| m.contains_key(a) && forall|b: Actor| #[trigger] m.contains_key(b) ==> a.0 <= b.0
}

/// A multi-value last-writer-wins register: one value per actor, where a local `set`
/// supersedes everything the replica has observed and concurrent writes survive side by side.
#[derive(Debug)]
pub struct Register<T> {
    pub(crate) content: ActorMap<Value<T>>,
    pub(crate) clock: Clock,
    pub(crate) local: Actor,
    pub(crate) handle: Single<Op<T>>,
}

impl<T> Register<T> {
    pub open(crate) spec fn wf(&self) -> bool {
        &&& self.content.wf()
        &&& self.clock.wf()
        &&& self.content.items().len() > 0
    }

    /// The value held for each actor.
    pub open(crate) spec fn content_view(&self) -> Map<Actor, Value<T>> {
        self.content@
    }

    /// The held values in actor order.
    pub open(crate) spec fn content_items(&self) -> Seq<(Actor, Value<T>)> {
        self.content.items()
    }

    pub open(crate) spec fn clock_view(&self) -> Map<Actor, Moment> {
        self.clock@
    }

    pub open(crate) spec fn local_actor(&self) -> Actor {
        self.local
    }

    pub open(crate) spec fn is_bound(&self) -> bool {
        self.handle is Handle
    }

    /// The operation buffered before binding, if any.
    pub open(crate) spec fn pending(&self) -> Option<Op<T>> {
        self.handle.buffered()
    }

    /// The operations sent through the bound handle and not taken out yet.
    pub open(crate) spec fn sent(&self) -> Seq<Op<T>> {
        self.handle.sent()
    }

    /// The address of the bound handle.
    pub open(crate) spec fn target(&self) -> crate::Reference {
        self.handle->Handle_0.target()
    }

    /// An unbound register holding `data` for the placeholder actor. The value is not a write
    /// of any replica, so it sits at moment zero and the clock has observed nothing: the first
    /// `set` mints moment one.
    pub fn new(data: T) -> (r: Register<T>)
        ensures
            r.wf(),
            r.content_view() == map![Actor(0) => Value { data, latest: Moment(0) }],
            r.clock_view() == Map::<Actor, Moment>::empty(),
            r.local_actor() == Actor(0),
            !r.is_bound(),
            r.pending() is None,
    {
        let local = Actor::invalid();
        let mut content = ActorMap::new();
        content.insert(local, Value { data, latest: Moment(0) });
        proof {
            lemma_nonempty(content.items(), local);
        }
        let r = Register { content, clock: Clock::new(), local, handle: Single::new() };
        assert(r.content_view() =~= map![Actor(0) => Value { data, latest: Moment(0) }]);
        r
    }
}

impl<T: Clone> Register<T> {
    /// One of the held values: the one of the smallest actor id.
    pub fn get(&self) -> (r: T)
        requires
            self.wf(),
        ensures
            self.content_view().contains_key(first_actor(self.content_view())),
            cloned(self.content_view()[first_actor(self.content_view())].data, r),
    {
        proof {
            lemma_first(self.content.items());
        }
        self.content.entries[0].1.data.clone()
    }

    /// Writes `data` locally: it replaces every value this replica holds, and the operation
    /// that says so names the shards of the values it displaced.
    pub fn set(&mut self, data: T)
        requires
            old(self).wf(),
            observed(old(self).clock_view(), old(self).local_actor()) < u32::MAX,
        ensures
            final(self).wf(),
            final(self).local_actor() == old(self).local_actor(),
            final(self).clock_view() == after_mint(old(self).clock_view(), old(self).local_actor()),
            final(self).content_view() == map![old(self).local_actor() => Value {
                data,
                latest: minted(old(self).clock_view(), old(self).local_actor()).1,
            }],
            final(self).is_bound() == old(self).is_bound(),
            old(self).is_bound() ==> final(self).target() == old(self).target(),
            !old(self).is_bound() ==> final(self).pending() is Some,
            old(self).is_bound() ==> final(self).sent().len() == old(self).sent().len() + 1
                && final(self).sent().drop_last() == old(self).sent(),
            ({
                let op = if old(self).is_bound() {
                    final(self).sent().last()
                } else {
                    final(self).pending()->0
                };
                &&& op.shard == minted(old(self).clock_view(), old(self).local_actor())
                &&& cloned(data, op.data)
                &&& op.removed@ == displaced(old(self).content_items(), old(self).local_actor())
            }),
    {
        let local = self.local;
        let latest = self.clock.increment(local);
        let ghost items = self.content.items();
        let mut removed: Vec<Shard> = Vec::new();
        let mut i: usize = 0;
        while i < self.content.len()
            invariant
                self.content.items() == items,
                i <= items.len(),
                removed@ == displaced(items.take(i as int), local),
            decreases items.len() - i,
        {
            let actor = self.content.entries[i].0;
            if actor.0 != local.0 {
                removed.push(Shard(actor, self.content.entries[i].1.latest));
            }
            i = i + 1;
            assert(items.take(i as int).drop_last() =~= items.take((i - 1) as int));
        }
        assert(items.take(i as int) =~= items);
        let sent = data.clone();
        let mut content = ActorMap::new();
        content.insert(local, Value { data, latest });
        proof {
            lemma_nonempty(content.items(), local);
        }
        self.content = content;
        let op = Op { shard: Shard(local, latest), data: sent, removed };
        self.handle.dispatch(op);
        assert(self.content_view() =~= map![local => Value { data, latest }]);
        proof {
            if old(self).is_bound() {
                assert(self.sent().drop_last() =~= old(self).sent());
            }
        }
    }
}

impl<T> Register<T> {
    /// Takes out the operations sent through the bound handle, oldest first.
    pub fn take_dispatched(&mut self) -> (r: Vec<Op<T>>)
        requires
            old(self).wf(),
        ensures
            final(self).wf(),
            r@ == old(self).sent(),
            final(self).sent() == Seq::<Op<T>>::empty(),
            final(self).content_view() == old(self).content_view(),
            final(self).clock_view() == old(self).clock_view(),
            final(self).local_actor() == old(self).local_actor(),
            final(self).is_bound() == old(self).is_bound(),
            final(self).pending() == old(self).pending(),
            old(self).is_bound() ==> final(self).target() == old(self).target(),
    {
        self.handle.take_dispatched()
    }
}

impl<T: Clone> Register<T> {
    /// The held values in actor order, each with the shard it was written at.
    pub fn entries(&self) -> (r: Vec<(Shard, T)>)
        requires
            self.wf(),
        ensures
            r@.len() == self.content_items().len(),
            forall|i: int|
                0 <= i < r@.len() ==> #[trigger] r@[i].0 == Shard(
                    self.content_items()[i].0,
                    self.content_items()[i].1.latest,
                ) && cloned(self.content_items()[i].1.data, r@[i].1),
    {
        let mut r: Vec<(Shard, T)> = Vec::new();
        let mut i: usize = 0;
        while i < self.content.len()
            invariant
                i <= self.content_items().len(),
                r@.len() == i,
                forall|j: int|
                    0 <= j < i ==> #[trigger] r@[j].0 == Shard(
                        self.content_items()[j].0,
                        self.content_items()[j].1.latest,
                    ) && cloned(self.content_items()[j].1.data, r@[j].1),
            decreases self.content_items().len() - i,
        {
            let entry = &self.content.entries[i];
            r.push((Shard(entry.0, entry.1.latest), entry.1.data.clone()));
            i = i + 1;
        }
        r
    }
}

/// Whether some shard of `removed` names the actor of `s` at its moment or later.
pub open spec fn removes<T>(removed: Seq<Shard>, s: Shard) -> bool {
    exists|i: int| 0 <= i < removed.len() && #[trigger] removed[i].0 == s.0 && s.1.0 <= removed[i].1.0
}

/// Two operations are independent when different actors wrote them and neither removes the
/// value that the other writes.
pub open spec fn independent<T>(p: Op<T>, q: Op<T>) -> bool {
    &&& p.shard.0 != q.shard.0
    &&& !removes::<T>(p.removed@, q.shard)
    &&& !removes::<T>(q.removed@, p.shard)
}

proof fn lemma_strip_install<T>(x: Map<Actor, Value<T>>, s: Shard, d: T, r: Seq<Shard>)
    requires
        !removes::<T>(r, s),
    ensures
        strip(install(x, s, d), r) == install(strip(x, r), s, d),
{
    let v = Value { data: d, latest: s.1 };
    if superseded(r, s.0, v) {
        let k = choose|k: int| 0 <= k < r.len() && #[trigger] r[k].0 == s.0 && v.latest.0 <= r[k].1.0;
        assert(removes::<T>(r, s));
    }
    if x.contains_key(s.0) && x[s.0].latest.0 >= s.1.0 && superseded(r, s.0, x[s.0]) {
        let k = choose|k: int| 0 <= k < r.len() && #[trigger] r[k].0 == s.0 && x[s.0].latest.0 <= r[k].1.0;
        assert(removes::<T>(r, s));
    }
    assert(strip(install(x, s, d), r) =~= install(strip(x, r), s, d));
}

/// Applying two independent operations in either order gives the same register state.
pub proof fn lemma_apply_commutes<T>(
    content: Map<Actor, Value<T>>,
    clock: Map<Actor, Moment>,
    p: Op<T>,
    q: Op<T>,
)
    requires
        independent(p, q),
    ensures
        applied_content(applied_content(content, clock, p), applied_clock(clock, p), q)
            == applied_content(applied_content(content, clock, q), applied_clock(clock, q), p),
        applied_clock(applied_clock(clock, p), q) == applied_clock(applied_clock(clock, q), p),
{
    let (ps, qs) = (p.shard, q.shard);
    let (pr, qr) = (p.removed@, q.removed@);
    assert(covers(applied_clock(clock, p), qs) == covers(clock, qs));
    assert(covers(applied_clock(clock, q), ps) == covers(clock, ps));
    if !covers(clock, ps) && !covers(clock, qs) {
        lemma_strip_install(strip(content, pr), ps, p.data, qr);
        lemma_strip_install(strip(content, qr), qs, q.data, pr);
        assert(strip(strip(content, pr), qr) =~= strip(strip(content, qr), pr));
        let x = strip(strip(content, pr), qr);
        assert(install(install(x, ps, p.data), qs, q.data) =~= install(
            install(x, qs, q.data),
            ps,
            p.data,
        ));
    }
    assert(applied_clock(applied_clock(clock, p), q) =~= applied_clock(
        applied_clock(clock, q),
        p,
    ));
}

/// Applying an operation whose shard is covered changes nothing; applying it once more after it
/// took effect changes nothing either.
pub proof fn lemma_apply_idempotent<T>(
    content: Map<Actor, Value<T>>,
    clock: Map<Actor, Moment>,
    op: Op<T>,
)
    ensures
        covers(clock, op.shard) ==> applied_content(content, clock, op) == content
            && applied_clock(clock, op) == clock,
        covers(applied_clock(clock, op), op.shard),
        applied_content(
            applied_content(content, clock, op),
            applied_clock(clock, op),
            op,
        ) == applied_content(content, clock, op),
{
}

/// The content after taking in a snapshot's: for each actor, the value written later wins, and
/// the held one on a tie.
pub open spec fn merge_content<T>(
    mine: Map<Actor, Value<T>>,
    theirs: Map<Actor, Value<T>>,
) -> Map<Actor, Value<T>> {
    Map::new(
        |a: Actor| mine.contains_key(a) || theirs.contains_key(a),
        |a: Actor|
            if !theirs.contains_key(a) || (mine.contains_key(a) && mine[a].latest.0
                >= theirs[a].latest.0) {
                mine[a]
            } else {
                theirs[a]
            },
    )
}

impl<T: Clone> Clone for Value<T> {
    fn clone(&self) -> (r: Value<T>)
        ensures
            r.latest == self.latest,
            cloned(self.data, r.data),
    {
        Value { data: self.data.clone(), latest: self.latest }
    }
}

impl<T: Clone> Replicative for Register<T> {
    type Op = Op<T>;

    /// The held values and the clock.
    type State = (ActorMap<Value<T>>, Clock);

    type MergeError = Void;

    type ApplyError = Void;

    open spec fn inv(&self) -> bool {
        self.wf()
    }

    open spec fn apply_fits(&self, origin: Actor, op: Op<T>) -> bool {
        true
    }

    open spec fn merge_fits(&self, state: (ActorMap<Value<T>>, Clock)) -> bool {
        state.0.wf() && state.1.wf()
    }

    open spec fn state_fits(state: (ActorMap<Value<T>>, Clock)) -> bool {
        state.0.wf() && state.1.wf() && state.0.items().len() > 0
    }

    /// Integrates an operation of another replica. An operation whose shard the clock
    /// already covers changes nothing; otherwise the values it superseded go, its shard is
    /// recorded, and its value is installed unless a value of that actor at least as recent
    /// is held. The shard names the writing actor, so `origin` is not consulted.
    fn apply(&mut self, origin: Actor, op: Op<T>) -> (r: Result<(), Void>)
        ensures
            r is Ok,
            final(self).content_view() == applied_content(
                old(self).content_view(),
                old(self).clock_view(),
                op,
            ),
            final(self).clock_view() == applied_clock(old(self).clock_view(), op),
            final(self).local_actor() == old(self).local_actor(),
            final(self).is_bound() == old(self).is_bound(),
            final(self).pending() == old(self).pending(),
            final(self).sent() == old(self).sent(),
            old(self).is_bound() ==> final(self).target() == old(self).target(),
            covers(old(self).clock_view(), op.shard) ==> final(self).content_view() == old(
                self,
            ).content_view() && final(self).clock_view() == old(self).clock_view(),
    {
        if self.clock.contains(&op.shard) {
            return Ok(());
        }
        let ghost start = self.content@;
        let ghost whole = op;
        let Op { shard, data, removed } = op;
        let mut i: usize = 0;
        while i < removed.len()
            invariant
                self.content.wf(),
                self.clock.wf(),
                self.clock@ == old(self).clock@,
                self.local == old(self).local,
                self.handle == old(self).handle,
                i <= removed@.len(),
                self.content@ == strip(start, removed@.take(i as int)),
            decreases removed@.len() - i,
        {
            let s = removed[i];
            let ghost before = self.content@;
            if let Some(value) = self.content.remove(s.0) {
                if value.latest.0 > s.1.0 {
                    self.content.insert(s.0, value);
                    assert(self.content@ =~= before);
                }
            }
            proof {
                lemma_strip_step(start, removed@, i as int);
            }
            i = i + 1;
        }
        assert(removed@.take(removed@.len() as int) =~= removed@);
        self.clock.insert(shard);
        let present = match self.content.get(shard.0) {
            Some(v) => v.latest.0 >= shard.1.0,
            None => false,
        };
        if !present {
            self.content.insert(shard.0, Value { data, latest: shard.1 });
        }
        proof {
            lemma_nonempty(self.content.items(), shard.0);
        }
        Ok(())
    }

    /// Binds the register to `handle`: its actor becomes the handle's, the entries of the
    /// placeholder actor move under it, and the operation buffered before, if any, is sent
    /// with its shard rewritten to that actor.
    fn prepare(&mut self, handle: Outbox<Op<T>>)
        ensures
            final(self).local_actor() == handle.target().0,
            final(self).clock_view() == rebind(old(self).clock_view(), handle.target().0),
            final(self).content_view() == rebind(old(self).content_view(), handle.target().0),
            final(self).is_bound(),
            final(self).target() == handle.target(),
            final(self).sent() == match old(self).pending() {
                Some(op) => handle.dispatched().push(
                    Op { shard: Shard(handle.target().0, op.shard.1), data: op.data, removed: op.removed },
                ),
                None => handle.dispatched(),
            },
    {
        let this = handle.this().0;
        self.local = this;
        self.clock.prepare(this);
        if let Some(value) = self.content.remove(Actor(0)) {
            self.content.insert(this, value);
            proof {
                lemma_nonempty(self.content.items(), this);
            }
        }
        let pending = self.handle.next_cached();
        self.handle.prepare(handle);
        if let Some(op) = pending {
            let Op { shard, data, removed } = op;
            self.handle.dispatch(Op { shard: Shard(this, shard.1), data, removed });
        }
    }

    /// An unbound register holding the values and the clock of `state`.
    fn from_state(state: (ActorMap<Value<T>>, Clock)) -> (r: Result<Register<T>, Void>)
        ensures
            r matches Ok(g) && g.content_view() == state.0@ && g.clock_view() == state.1@
                && g.local_actor() == Actor(0) && !g.is_bound() && g.pending() is None,
    {
        let (content, clock) = state;
        Ok(Register { content, clock, local: Actor::invalid(), handle: Single::new() })
    }

    /// Takes in a snapshot: for each actor the value written later wins, and the clocks join.
    fn merge(&mut self, state: (ActorMap<Value<T>>, Clock)) -> (r: Result<(), Void>)
        ensures
            r is Ok,
            final(self).content_view() == merge_content(old(self).content_view(), state.0@),
            final(self).clock_view() == join(old(self).clock_view(), state.1@),
            final(self).local_actor() == old(self).local_actor(),
            final(self).is_bound() == old(self).is_bound(),
            final(self).pending() == old(self).pending(),
            final(self).sent() == old(self).sent(),
    {
        let (theirs, clock) = state;
        self.clock.merge(&clock);
        let ghost start = self.content@;
        let ghost items = theirs.items();
        let mut theirs = theirs;
        let total: usize = theirs.len();
        let ghost first = self.content.items()[0].0;
        proof {
            lemma_prefix_full(items);
            assert(merge_content(start, Map::<Actor, Value<T>>::empty()) =~= start);
            lemma_position(self.content.items(), 0);
        }
        let mut i: usize = 0;
        while theirs.len() > 0
            invariant
                self.content.wf(),
                self.clock.wf(),
                self.clock@ == join(old(self).clock@, clock@),
                self.local == old(self).local,
                self.handle == old(self).handle,
                theirs.wf(),
                ascending(items),
                i <= items.len() == total,
                theirs.items() == items.skip(i as int),
                self.content@ == merge_content(start, entries_map(items.take(i as int))),
                start.contains_key(first),
            decreases theirs.items().len(),
        {
            let ghost before = theirs.items();
            let (a, v) = theirs.entries.remove(0);
            proof {
                assert(items[i as int] == (a, v));
                assert(theirs.items() =~= items.skip(i + 1));
                assert forall|x: int, y: int| 0 <= x < y < theirs.items().len() implies #[trigger] theirs.items()[x].0.0
                    < #[trigger] theirs.items()[y].0.0 by {
                    assert(before[x + 1].0.0 < before[y + 1].0.0);
                }
                lemma_prefix_step(items, i as int);
            }
            let newer = match self.content.get(a) {
                Some(held) => held.latest.0 < v.latest.0,
                None => true,
            };
            if newer {
                self.content.insert(a, v);
            }
            i = i + 1;
            assert(self.content@ =~= merge_content(start, entries_map(items.take(i as int))));
        }
        proof {
            lemma_prefix_full(items);
            assert(items.take(i as int) =~= items);
            assert(self.content@.contains_key(first));
            lemma_nonempty(self.content.items(), first);
        }
        Ok(())
    }

    /// Copies of the held values, and the clock.
    fn fetch(&self) -> (r: (ActorMap<Value<T>>, Clock))
        ensures
            r.0.wf(),
            r.1.wf(),
            r.1@ == self.clock_view(),
            r.0.items().len() == self.content_items().len(),
            forall|i: int|
                0 <= i < r.0.items().len() ==> #[trigger] r.0.items()[i].0 == self.content_items()[i].0
                    && r.0.items()[i].1.latest == self.content_items()[i].1.latest && cloned(
                    self.content_items()[i].1.data,
                    r.0.items()[i].1.data,
                ),
    {
        (self.content.clone(), self.clock.clone())
    }
}

/// Drops the value of `s`'s actor if `s` is at least as recent.
pub open spec fn strip_one<T>(m: Map<Actor, Value<T>>, s: Shard) -> Map<Actor, Value<T>> {
    if m.contains_key(s.0) && m[s.0].latest.0 <= s.1.0 {
        m.remove(s.0)
    } else {
        m
    }
}

proof fn lemma_strip_step<T>(c: Map<Actor, Value<T>>, r: Seq<Shard>, i: int)
    requires
        0 <= i < r.len(),
    ensures
        strip(c, r.take(i + 1)) == strip_one(strip(c, r.take(i)), r[i]),
{
    let p = r.take(i);
    let q = r.take(i + 1);
    assert forall|a: Actor, v: Value<T>|
        #[trigger] superseded(q, a, v) <==> superseded(p, a, v) || (r[i].0 == a && v.latest.0
            <= r[i].1.0) by {
        if superseded(q, a, v) {
            let k = choose|k: int| 0 <= k < q.len() && #[trigger] q[k].0 == a && v.latest.0 <= q[k].1.0;
            if k < i {
                assert(p[k] == q[k]);
            }
        }
        if superseded(p, a, v) {
            let k = choose|k: int| 0 <= k < p.len() && #[trigger] p[k].0 == a && v.latest.0 <= p[k].1.0;
            assert(q[k] == p[k]);
        }
        if r[i].0 == a && v.latest.0 <= r[i].1.0 {
            assert(q[i] == r[i]);
        }
    }
    assert(strip(c, q) =~= strip_one(strip(c, p), r[i]));
}

/// The first entry of an ascending list holds the smallest actor of its map.
proof fn lemma_first<V>(s: Seq<(Actor, V)>)
    requires
        ascending(s),
        s.len() > 0,
    ensures
        first_actor(entries_map(s)) == s[0].0,
        entries_map(s).contains_key(s[0].0),
        entries_map(s)[s[0].0] == s[0].1,
{
    let m = entries_map(s);
    lemma_position(s, 0);
    assert forall|b: Actor| #[trigger] m.contains_key(b) implies s[0].0.0 <= b.0 by {
        let p = position(s, b);
        if p > 0 {
            assert(s[0].0.0 < s[p].0.0);
        }
    }
    let f = first_actor(m);
    assert(m.contains_key(f) && forall|b: Actor| #[trigger] m.contains_key(b) ==> f.0 <= b.0);
    assert(f.0 <= s[0].0.0);
}

/// A map built from entries that hold `a` has an entry.
proof fn lemma_nonempty<V>(s: Seq<(Actor, V)>, a: Actor)
    requires
        entries_map(s).contains_key(a),
    ensures
        s.len() > 0,
{
    let p = position(s, a);
}

/// Two contents agree on every actor that both hold a value for at the same moment: a shard
/// names one write.
pub open spec fn consistent<T>(m1: Map<Actor, Value<T>>, m2: Map<Actor, Value<T>>) -> bool {
    forall|a: Actor|
        #![trigger m1[a], m2[a]]
        m1.contains_key(a) && m2.contains_key(a) && m1[a].latest == m2[a].latest ==> m1[a] == m2[a]
}

/// Merging consistent snapshots is a semilattice: associative, commutative and idempotent.
pub proof fn lemma_merge_semilattice<T>(
    a: Map<Actor, Value<T>>,
    b: Map<Actor, Value<T>>,
    c: Map<Actor, Value<T>>,
)
    requires
        consistent(a, b),
        consistent(b, c),
        consistent(a, c),
    ensures
        merge_content(a, merge_content(b, c)) == merge_content(merge_content(a, b), c),
        merge_content(a, b) == merge_content(b, a),
        merge_content(a, a) == a,
{
    assert(merge_content(a, merge_content(b, c)) =~= merge_content(merge_content(a, b), c));
    assert(merge_content(a, b) =~= merge_content(b, a));
    assert(merge_content(a, a) =~= a);
}

/// A value survives a concurrent write of another actor that did not remove it: after the
/// exchange the replica holds both.
pub proof fn lemma_concurrent_writes_survive<T>(
    a: Actor,
    v: Value<T>,
    clock: Map<Actor, Moment>,
    op: Op<T>,
)
    requires
        a != op.shard.0,
        !covers(clock, op.shard),
        !removes::<T>(op.removed@, Shard(a, v.latest)),
    ensures
        applied_content(map![a => v], clock, op) == map![a => v, op.shard.0 => Value {
            data: op.data,
            latest: op.shard.1,
        }],
{
    let r = op.removed@;
    if superseded(r, a, v) {
        let k = choose|k: int| 0 <= k < r.len() && #[trigger] r[k].0 == a && v.latest.0 <= r[k].1.0;
        assert(removes::<T>(r, Shard(a, v.latest)));
    }
    assert(strip(map![a => v], r) =~= map![a => v]);
    assert(applied_content(map![a => v], clock, op) =~= map![a => v, op.shard.0 => Value {
        data: op.data,
        latest: op.shard.1,
    }]);
}

/// A later write that removes every value of the other actors and is newer than its own
/// actor's leaves exactly one value where it arrives.
pub proof fn lemma_later_write_collapses<T>(
    content: Map<Actor, Value<T>>,
    clock: Map<Actor, Moment>,
    op: Op<T>,
)
    requires
        !covers(clock, op.shard),
        content.contains_key(op.shard.0) ==> content[op.shard.0].latest.0 < op.shard.1.0,
        forall|b: Actor|
            #[trigger] content.contains_key(b) && b != op.shard.0 ==> removes::<T>(
                op.removed@,
                Shard(b, content[b].latest),
            ),
    ensures
        applied_content(content, clock, op) == map![op.shard.0 => Value {
            data: op.data,
            latest: op.shard.1,
        }],
{
    let r = op.removed@;
    assert forall|b: Actor| #[trigger] content.contains_key(b) && b != op.shard.0 implies superseded(
        r,
        b,
        content[b],
    ) by {
        assert(removes::<T>(r, Shard(b, content[b].latest)));
        let k = choose|k: int|
            0 <= k < r.len() && #[trigger] r[k].0 == b && content[b].latest.0 <= r[k].1.0;
        assert(r[k].0 == b);
    }
    assert(applied_content(content, clock, op) =~= map![op.shard.0 => Value {
        data: op.data,
        latest: op.shard.1,
    }]);
}

/// The removals of a local `set` name every value of another actor that the replica held, at
/// the moment it was written.
pub proof fn lemma_set_removes_others<T>(s: Seq<(Actor, Value<T>)>, local: Actor)
    requires
        ascending(s),
    ensures
        forall|b: Actor|
            #[trigger] entries_map(s).contains_key(b) && b != local ==> removes::<T>(
                displaced(s, local),
                Shard(b, entries_map(s)[b].latest),
            ),
{
    assert forall|b: Actor| #[trigger] entries_map(s).contains_key(b) && b != local implies removes::<T>(
        displaced(s, local),
        Shard(b, entries_map(s)[b].latest),
    ) by {
        let i = position(s, b);
        lemma_position(s, i);
        lemma_displaced_entry(s, local, i);
    }
}

proof fn lemma_displaced_entry<T>(s: Seq<(Actor, Value<T>)>, local: Actor, i: int)
    requires
        0 <= i < s.len(),
        s[i].0 != local,
    ensures
        removes::<T>(displaced(s, local), Shard(s[i].0, s[i].1.latest)),
    decreases s.len(),
{
    let d = displaced(s, local);
    let rest = displaced(s.drop_last(), local);
    assert(d == if s.last().0 == local {
        rest
    } else {
        rest.push(Shard(s.last().0, s.last().1.latest))
    });
    if i == s.len() - 1 {
        let k = rest.len() as int;
        assert(d[k] == Shard(s[i].0, s[i].1.latest));
        assert(0 <= k < d.len() && d[k].0 == s[i].0 && s[i].1.latest.0 <= d[k].1.0);
    } else {
        assert(s.drop_last()[i] == s[i]);
        lemma_displaced_entry(s.drop_last(), local, i);
        let k = choose|k: int|
            0 <= k < rest.len() && #[trigger] rest[k].0 == s[i].0 && s[i].1.latest.0 <= rest[k].1.0;
        assert(d[k] == rest[k]);
        assert(0 <= k < d.len() && d[k].0 == s[i].0 && s[i].1.latest.0 <= d[k].1.0);
    }
}

} // verus!
