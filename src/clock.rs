use vstd::prelude::*;

use crate::actor_map::{ActorMap, entries_map, lemma_prefix_full, lemma_prefix_step};

verus! {

/// Identifier of one replica. Zero is reserved for values not bound yet.
#[derive(Clone, Copy, Debug, PartialEq, Eq, Hash, PartialOrd, Ord, Structural)]
pub struct Actor(pub u32);

impl Actor {
    pub fn new(actor: u32) -> (r: Actor)
        ensures
            r.0 == actor,
    {
        Actor(actor)
    }

    pub fn is_valid(&self) -> (r: bool)
        ensures
            r == (self.0 != 0),
    {
        self.0 != 0
    }

    pub fn is_invalid(&self) -> (r: bool)
        ensures
            r == (self.0 == 0),
    {
        self.0 == 0
    }

    /// The placeholder actor of values not bound to a replicant yet.
    pub fn invalid() -> (r: Actor)
        ensures
            r == unbound(),
    {
        Actor(0)
    }
}

/// The placeholder actor, in specifications.
pub open spec fn unbound() -> Actor {
    Actor(0)
}

/// A per-actor counter of events; zero means that nothing was observed.
#[derive(Clone, Copy, Debug, PartialEq, Eq, Hash, PartialOrd, Ord, Structural)]
pub struct Moment(pub u32);

impl Moment {
    fn increment(&mut self)
        requires
            old(self).0 < u32::MAX,
        ensures
            final(self).0 == old(self).0 + 1,
    {
        self.0 = self.0 + 1;
    }

    /// The first moment of an actor.
    pub fn new() -> (r: Moment)
        ensures
            r.0 == 1,
    {
        Moment(1)
    }
}

/// The identity of one mutation: the actor that made it and its moment there.
#[derive(Clone, Copy, Debug, PartialEq, Eq, Hash, PartialOrd, Ord, Structural)]
pub struct Shard(pub Actor, pub Moment);

impl Shard {
    pub fn new(actor: Actor, moment: Moment) -> (r: Shard)
        ensures
            r == Shard(actor, moment),
    {
        Shard(actor, moment)
    }

    pub fn actor(&self) -> (r: Actor)
        ensures
            r == self.0,
    {
        self.0
    }

    pub fn moment(&self) -> (r: Moment)
        ensures
            r == self.1,
    {
        self.1
    }
}

/// The moment that a vector clock holds for `a`, zero where it has none.
pub open spec fn observed(m: Map<Actor, Moment>, a: Actor) -> nat {
    if m.contains_key(a) {
        m[a].0 as nat
    } else {
        0
    }
}

/// Whether a vector clock has seen the mutation `s`.
pub open spec fn covers(m: Map<Actor, Moment>, s: Shard) -> bool {
    observed(m, s.0) >= s.1.0
}

/// The shard that minting for `a` hands out.
pub open spec fn minted(m: Map<Actor, Moment>, a: Actor) -> Shard {
    Shard(a, Moment((observed(m, a) + 1) as u32))
}

/// The clock after minting for `a`.
pub open spec fn after_mint(m: Map<Actor, Moment>, a: Actor) -> Map<Actor, Moment> {
    m.insert(a, minted(m, a).1)
}

/// The clock after recording `s`: its actor's entry becomes the larger of the two moments.
pub open spec fn record(m: Map<Actor, Moment>, s: Shard) -> Map<Actor, Moment> {
    if m.contains_key(s.0) && m[s.0].0 >= s.1.0 {
        m
    } else {
        m.insert(s.0, s.1)
    }
}

/// Pointwise maximum of two vector clocks.
pub open spec fn join(m1: Map<Actor, Moment>, m2: Map<Actor, Moment>) -> Map<Actor, Moment> {
    Map::new(
        |a: Actor| m1.contains_key(a) || m2.contains_key(a),
        |a: Actor|
            if !m2.contains_key(a) || (m1.contains_key(a) && m1[a].0 >= m2[a].0) {
                m1[a]
            } else {
                m2[a]
            },
    )
}

/// Moves the entry of the invalid actor, if any, under `a`.
pub open spec fn rebind<V>(m: Map<Actor, V>, a: Actor) -> Map<Actor, V> {
    if m.contains_key(unbound()) {
        m.remove(unbound()).insert(a, m[unbound()])
    } else {
        m
    }
}

/// A vector clock: the highest moment observed from each actor.
#[derive(Debug)]
pub struct Clock {
    pub(crate) moments: ActorMap<Moment>,
}

impl Clock {
    pub open(crate) spec fn wf(&self) -> bool {
        self.moments.wf()
    }

    pub open(crate) spec fn view(&self) -> Map<Actor, Moment> {
        self.moments@
    }

    pub fn new() -> (r: Clock)
        ensures
            r.wf(),
            r@ == Map::<Actor, Moment>::empty(),
    {
        Clock { moments: ActorMap::new() }
    }

    /// The moment observed from `actor`, zero where there is none.
    pub fn get(&self, actor: Actor) -> (r: Moment)
        requires
            self.wf(),
        ensures
            r.0 == observed(self@, actor),
    {
        match self.moments.get(actor) {
            Some(m) => *m,
            None => Moment(0),
        }
    }

    /// Mints the next shard of `actor`.
    pub fn get_shard(&mut self, actor: Actor) -> (r: Shard)
        requires
            old(self).wf(),
            observed(old(self)@, actor) < u32::MAX,
        ensures
            final(self).wf(),
            r == minted(old(self)@, actor),
            final(self)@ == after_mint(old(self)@, actor),
    {
        let counter = self.increment(actor);
        Shard(actor, counter)
    }

    /// Advances the moment of `actor` by one and returns it.
    pub fn increment(&mut self, actor: Actor) -> (r: Moment)
        requires
            old(self).wf(),
            observed(old(self)@, actor) < u32::MAX,
        ensures
            final(self).wf(),
            r == minted(old(self)@, actor).1,
            final(self)@ == after_mint(old(self)@, actor),
    {
        let mut entry = self.get(actor);
        entry.increment();
        self.moments.insert(actor, entry);
        entry
    }

    pub fn contains(&self, shard: &Shard) -> (r: bool)
        requires
            self.wf(),
        ensures
            r == covers(self@, *shard),
    {
        self.get(shard.0).0 >= shard.1.0
    }

    /// Records `shard`: the entry of its actor becomes the larger of the two moments.
    pub fn insert(&mut self, shard: Shard)
        requires
            old(self).wf(),
        ensures
            final(self).wf(),
            final(self)@ == record(old(self)@, shard),
    {
        match self.moments.get(shard.0) {
            Some(m) => {
                if m.0 >= shard.1.0 {
                    return ;
                }
            },
            None => {},
        }
        self.moments.insert(shard.0, shard.1);
    }

    /// Takes in every entry of `other`, keeping the larger moment of each actor.
    pub fn merge(&mut self, other: &Clock)
        requires
            old(self).wf(),
            other.wf(),
        ensures
            final(self).wf(),
            final(self)@ == join(old(self)@, other@),
            forall|a: Actor|
                #[trigger] observed(final(self)@, a) == if observed(old(self)@, a) >= observed(
                    other@,
                    a,
                ) {
                    observed(old(self)@, a)
                } else {
                    observed(other@, a)
                },
    {
        let ghost start = self@;
        let ghost s = other.moments.items();
        proof {
            lemma_prefix_full(s);
            assert(join(start, Map::empty()) =~= start);
        }
        let mut i: usize = 0;
        while i < other.moments.len()
            invariant
                self.wf(),
                other.wf(),
                s == other.moments.items(),
                i <= s.len(),
                self@ == join(start, entries_map(s.take(i as int))),
            decreases s.len() - i,
        {
            let (a, m) = other.moments.entries[i];
            proof {
                lemma_prefix_step(s, i as int);
                lemma_join_record(start, entries_map(s.take(i as int)), a, m);
            }
            self.insert(Shard(a, m));
            i = i + 1;
        }
        proof {
            lemma_join_observed(start, other@);
        }
    }

    /// Moves the entry of the invalid actor, if any, under `actor`.
    pub(crate) fn prepare(&mut self, actor: Actor)
        requires
            old(self).wf(),
        ensures
            final(self).wf(),
            final(self)@ == rebind(old(self)@, actor),
    {
        if let Some(moment) = self.moments.remove(Actor(0)) {
            self.moments.insert(actor, moment);
        }
    }
}

impl Clone for Clock {
    fn clone(&self) -> (r: Self)
        ensures
            self.wf() ==> r.wf() && r@ == self@,
    {
        Clock { moments: self.moments.copied() }
    }
}

proof fn lemma_join_record(m: Map<Actor, Moment>, p: Map<Actor, Moment>, a: Actor, v: Moment)
    requires
        !p.contains_key(a),
    ensures
        join(m, p.insert(a, v)) == record(join(m, p), Shard(a, v)),
{
    assert(join(m, p.insert(a, v)) =~= record(join(m, p), Shard(a, v)));
}

/// Reading a joined clock gives the larger of the two readings.
pub proof fn lemma_join_observed(m1: Map<Actor, Moment>, m2: Map<Actor, Moment>)
    ensures
        forall|a: Actor|
            #[trigger] observed(join(m1, m2), a) == if observed(m1, a) >= observed(m2, a) {
                observed(m1, a)
            } else {
                observed(m2, a)
            },
{
}

/// Joining vector clocks is a semilattice: associative, commutative and idempotent.
pub proof fn lemma_join_semilattice(
    a: Map<Actor, Moment>,
    b: Map<Actor, Moment>,
    c: Map<Actor, Moment>,
)
    ensures
        join(a, join(b, c)) == join(join(a, b), c),
        join(a, b) == join(b, a),
        join(a, a) == a,
{
    assert(join(a, join(b, c)) =~= join(join(a, b), c));
    assert(join(a, b) =~= join(b, a));
    assert(join(a, a) =~= a);
}

/// A freshly minted shard is covered by the clock that minted it.
pub proof fn lemma_mint_covered(m: Map<Actor, Moment>, a: Actor)
    requires
        observed(m, a) < u32::MAX,
    ensures
        covers(after_mint(m, a), minted(m, a)),
        observed(after_mint(m, a), a) == observed(m, a) + 1,
{
}

} // verus!
