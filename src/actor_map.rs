use vstd::prelude::*;

use crate::clock::Actor;

verus! {

/// Entries ordered by strictly increasing actor id; so no actor appears twice.
pub open spec fn ascending<V>(s: Seq<(Actor, V)>) -> bool {
    forall|i: int, j: int| 0 <= i < j < s.len() ==> #[trigger] s[i].0.0 < #[trigger] s[j].0.0
}

/// Whether some entry of `s` is keyed by `a`.
pub open spec fn has_key<V>(s: Seq<(Actor, V)>, a: Actor) -> bool {
    exists|i: int| 0 <= i < s.len() && #[trigger] s[i].0 == a
}

/// The index of the entry keyed by `a`, where there is one.
pub open spec fn position<V>(s: Seq<(Actor, V)>, a: Actor) -> int {
    choose|i: int| 0 <= i < s.len() && #[trigger] s[i].0 == a
}

/// The map that a list of entries stands for.
pub open spec fn entries_map<V>(s: Seq<(Actor, V)>) -> Map<Actor, V> {
    Map::new(|a: Actor| has_key(s, a), |a: Actor| s[position(s, a)].1)
}

pub proof fn lemma_position<V>(s: Seq<(Actor, V)>, i: int)
    requires
        ascending(s),
        0 <= i < s.len(),
    ensures
        has_key(s, s[i].0),
        position(s, s[i].0) == i,
        entries_map(s).contains_key(s[i].0),
        entries_map(s)[s[i].0] == s[i].1,
{
    assert(has_key(s, s[i].0));
    let p = position(s, s[i].0);
    if p < i {
        assert(s[p].0.0 < s[i].0.0);
    } else if p > i {
        assert(s[i].0.0 < s[p].0.0);
    }
}

/// A map keyed by actor, kept as a vector ordered by actor id.
///
/// The clock, the counters and the register keep their per-actor entries here rather than in a
/// `HashMap` or `BTreeMap`: their loops walk the entries in actor order and are proved entry by
/// entry over prefixes of this vector, the register reads its value of the smallest actor at
/// index zero, and snapshots come out in one canonical order.
#[derive(Debug)]
pub struct ActorMap<V> {
    pub(crate) entries: Vec<(Actor, V)>,
}

impl<V> ActorMap<V> {
    pub open(crate) spec fn wf(&self) -> bool {
        ascending(self.entries@)
    }

    pub open(crate) spec fn view(&self) -> Map<Actor, V> {
        entries_map(self.entries@)
    }

    /// The entries in actor order.
    pub open(crate) spec fn items(&self) -> Seq<(Actor, V)> {
        self.entries@
    }

    pub fn new() -> (r: Self)
        ensures
            r.wf(),
            r@ == Map::<Actor, V>::empty(),
            r.items().len() == 0,
    {
        let r = ActorMap { entries: Vec::new() };
        assert(r@ =~= Map::<Actor, V>::empty());
        r
    }

    pub fn len(&self) -> (r: usize)
        ensures
            r == self.items().len(),
    {
        self.entries.len()
    }

    /// The first index whose actor id is not below `a`'s.
    fn find(&self, a: Actor) -> (r: usize)
        requires
            self.wf(),
        ensures
            r <= self.entries@.len(),
            forall|j: int| 0 <= j < r ==> #[trigger] self.entries@[j].0.0 < a.0,
            r < self.entries@.len() ==> self.entries@[r as int].0.0 >= a.0,
    {
        let mut i: usize = 0;
        while i < self.entries.len()
            invariant
                i <= self.entries@.len(),
                forall|j: int| 0 <= j < i ==> #[trigger] self.entries@[j].0.0 < a.0,
            decreases self.entries@.len() - i,
        {
            if self.entries[i].0.0 >= a.0 {
                return i;
            }
            i = i + 1;
        }
        i
    }

    proof fn lemma_absent(&self, a: Actor, r: usize)
        requires
            self.wf(),
            r <= self.entries@.len(),
            forall|j: int| 0 <= j < r ==> #[trigger] self.entries@[j].0.0 < a.0,
            r < self.entries@.len() ==> self.entries@[r as int].0.0 > a.0,
        ensures
            !self@.contains_key(a),
    {
        if has_key(self.entries@, a) {
            let p = position(self.entries@, a);
            if p >= r {
                if p > r {
                    assert(self.entries@[r as int].0.0 < self.entries@[p].0.0);
                }
            }
        }
    }

    pub fn get(&self, a: Actor) -> (r: Option<&V>)
        requires
            self.wf(),
        ensures
            r is Some <==> self@.contains_key(a),
            r matches Some(v) ==> *v == self@[a],
    {
        let i = self.find(a);
        if i < self.entries.len() && self.entries[i].0.0 == a.0 {
            proof {
                lemma_position(self.entries@, i as int);
            }
            Some(&self.entries[i].1)
        } else {
            proof {
                self.lemma_absent(a, i);
            }
            None
        }
    }

    pub fn insert(&mut self, a: Actor, v: V)
        requires
            old(self).wf(),
        ensures
            final(self).wf(),
            final(self)@ == old(self)@.insert(a, v),
    {
        let i = self.find(a);
        let ghost s = self.entries@;
        if i < self.entries.len() && self.entries[i].0.0 == a.0 {
            let _ = self.entries.remove(i);
            self.entries.insert(i, (a, v));
            let ghost t = self.entries@;
            assert(t =~= s.update(i as int, (a, v)));
            assert forall|x: int, y: int| 0 <= x < y < t.len() implies #[trigger] t[x].0.0
                < #[trigger] t[y].0.0 by {
                assert(s[x].0.0 < s[y].0.0);
            }
            proof {
                self.lemma_update_view(s, i as int, a, v);
            }
        } else {
            proof {
                self.lemma_absent(a, i);
            }
            self.entries.insert(i, (a, v));
            let ghost t = self.entries@;
            assert forall|x: int, y: int| 0 <= x < y < t.len() implies #[trigger] t[x].0.0
                < #[trigger] t[y].0.0 by {
                if y < i {
                    assert(s[x].0.0 < s[y].0.0);
                } else if y == i {
                    assert(s[x].0.0 < a.0);
                } else if x < i {
                    assert(s[x].0.0 < a.0);
                    assert(s[y - 1].0.0 >= a.0);
                } else if x == i {
                    assert(s[i as int].0.0 >= a.0);
                    if y - 1 > i {
                        assert(s[i as int].0.0 < s[y - 1].0.0);
                    }
                } else {
                    assert(s[x - 1].0.0 < s[y - 1].0.0);
                }
            }
            proof {
                self.lemma_insert_view(s, i as int, a, v);
            }
        }
    }

    proof fn lemma_update_view(&self, s: Seq<(Actor, V)>, i: int, a: Actor, v: V)
        requires
            ascending(s),
            self.wf(),
            0 <= i < s.len(),
            s[i].0 == a,
            self.entries@ == s.update(i, (a, v)),
        ensures
            self@ == entries_map(s).insert(a, v),
    {
        let t = self.entries@;
        assert forall|b: Actor| #[trigger] has_key(t, b) <==> has_key(s, b) || b == a by {
            if has_key(t, b) {
                let p = position(t, b);
                if p != i {
                    assert(s[p].0 == b);
                }
            }
            if has_key(s, b) {
                let p = position(s, b);
                assert(t[p].0 == b);
            }
            if b == a {
                assert(t[i].0 == b);
            }
        }
        assert forall|b: Actor| #[trigger] has_key(t, b) implies entries_map(t)[b] == entries_map(
            s,
        ).insert(a, v)[b] by {
            let p = position(t, b);
            lemma_position(t, p);
            if p < i {
                assert(t[p].0.0 < t[i].0.0);
            } else if p > i {
                assert(t[i].0.0 < t[p].0.0);
            }
            if p != i {
                assert(s[p] == t[p]);
                lemma_position(s, p);
            } else {
                assert(t[i] == (a, v));
            }
        }
        assert(self@ =~= entries_map(s).insert(a, v));
    }

    proof fn lemma_insert_view(&self, s: Seq<(Actor, V)>, i: int, a: Actor, v: V)
        requires
            ascending(s),
            self.wf(),
            0 <= i <= s.len(),
            !entries_map(s).contains_key(a),
            self.entries@ == s.insert(i, (a, v)),
        ensures
            self@ == entries_map(s).insert(a, v),
    {
        let t = self.entries@;
        assert forall|b: Actor| #[trigger] has_key(t, b) <==> has_key(s, b) || b == a by {
            if has_key(t, b) {
                let p = position(t, b);
                if p < i {
                    assert(s[p].0 == b);
                } else if p > i {
                    assert(s[p - 1].0 == b);
                }
            }
            if has_key(s, b) {
                let p = position(s, b);
                if p < i {
                    assert(t[p].0 == b);
                } else {
                    assert(t[p + 1].0 == b);
                }
            }
            if b == a {
                assert(t[i].0 == b);
            }
        }
        assert forall|b: Actor| #[trigger] has_key(t, b) implies entries_map(t)[b] == entries_map(
            s,
        ).insert(a, v)[b] by {
            let p = position(t, b);
            lemma_position(t, p);
            assert(t[p].0 == b);
            if p < i {
                assert(t[p].0.0 < t[i].0.0);
                assert(s[p] == t[p]);
                lemma_position(s, p);
            } else if p > i {
                assert(t[i].0.0 < t[p].0.0);
                assert(s[p - 1] == t[p]);
                lemma_position(s, p - 1);
            } else {
                assert(t[i] == (a, v));
                assert(entries_map(t)[b] == v);
            }
            assert(entries_map(t)[b] == entries_map(s).insert(a, v)[b]);
        }
        assert(self@ =~= entries_map(s).insert(a, v));
    }

    pub fn remove(&mut self, a: Actor) -> (r: Option<V>)
        requires
            old(self).wf(),
        ensures
            final(self).wf(),
            final(self)@ == old(self)@.remove(a),
            r is Some <==> old(self)@.contains_key(a),
            r matches Some(v) ==> v == old(self)@[a],
            r is None ==> final(self).items() == old(self).items(),
    {
        let i = self.find(a);
        let ghost s = self.entries@;
        if i < self.entries.len() && self.entries[i].0.0 == a.0 {
            proof {
                lemma_position(s, i as int);
            }
            let (_, v) = self.entries.remove(i);
            let ghost t = self.entries@;
            assert forall|x: int, y: int| 0 <= x < y < t.len() implies #[trigger] t[x].0.0
                < #[trigger] t[y].0.0 by {
                if y < i {
                    assert(s[x].0.0 < s[y].0.0);
                } else if x < i {
                    assert(s[x].0.0 < s[y + 1].0.0);
                } else {
                    assert(s[x + 1].0.0 < s[y + 1].0.0);
                }
            }
            assert forall|b: Actor| #[trigger] has_key(t, b) <==> has_key(s, b) && b != a by {
                if has_key(t, b) {
                    let p = position(t, b);
                    if p < i {
                        assert(s[p].0 == b);
                        assert(s[p].0.0 < s[i as int].0.0);
                    } else {
                        assert(s[p + 1].0 == b);
                        assert(s[i as int].0.0 < s[p + 1].0.0);
                    }
                }
                if has_key(s, b) && b != a {
                    let p = position(s, b);
                    if p < i {
                        assert(t[p].0 == b);
                    } else {
                        assert(t[p - 1].0 == b);
                    }
                }
            }
            assert forall|b: Actor| #[trigger] has_key(t, b) implies entries_map(t)[b]
                == entries_map(s).remove(a)[b] by {
                let p = position(t, b);
                lemma_position(t, p);
                if p < i {
                    lemma_position(s, p);
                } else {
                    lemma_position(s, p + 1);
                }
            }
            assert(self@ =~= entries_map(s).remove(a));
            Some(v)
        } else {
            proof {
                self.lemma_absent(a, i);
            }
            assert(self@ =~= entries_map(s).remove(a));
            None
        }
    }
}

} // verus!

verus! {

impl<V: Copy> ActorMap<V> {
    /// A copy of the map, entry for entry.
    pub fn copied(&self) -> (r: Self)
        ensures
            r.items() == self.items(),
    {
        let mut entries: Vec<(Actor, V)> = Vec::new();
        let mut i: usize = 0;
        while i < self.entries.len()
            invariant
                i <= self.entries@.len(),
                entries@ == self.entries@.take(i as int),
            decreases self.entries@.len() - i,
        {
            entries.push(self.entries[i]);
            i = i + 1;
            assert(entries@ =~= self.entries@.take(i as int));
        }
        assert(entries@ =~= self.entries@);
        ActorMap { entries }
    }
}

impl<V: Clone> Clone for ActorMap<V> {
    /// Clones every value; the actors stay as they are.
    fn clone(&self) -> (r: Self)
        ensures
            r.items().len() == self.items().len(),
            forall|i: int|
                0 <= i < self.items().len() ==> #[trigger] r.items()[i].0 == self.items()[i].0
                    && cloned(self.items()[i].1, r.items()[i].1),
            self.wf() ==> r.wf(),
    {
        let mut entries: Vec<(Actor, V)> = Vec::new();
        let mut i: usize = 0;
        while i < self.entries.len()
            invariant
                i <= self.entries@.len(),
                entries@.len() == i,
                forall|j: int|
                    0 <= j < i ==> #[trigger] entries@[j].0 == self.entries@[j].0 && cloned(
                        self.entries@[j].1,
                        entries@[j].1,
                    ),
            decreases self.entries@.len() - i,
        {
            let a = self.entries[i].0;
            let v = self.entries[i].1.clone();
            entries.push((a, v));
            i = i + 1;
        }
        let r = ActorMap { entries };
        assert(self.wf() ==> r.wf()) by {
            if self.wf() {
                assert forall|x: int, y: int| 0 <= x < y < r.entries@.len() implies #[trigger] r.entries@[x].0.0
                    < #[trigger] r.entries@[y].0.0 by {
                    assert(self.entries@[x].0.0 < self.entries@[y].0.0);
                }
            }
        }
        r
    }
}

/// Growing a prefix of ascending entries by one entry inserts a fresh key.
pub proof fn lemma_prefix_step<V>(s: Seq<(Actor, V)>, i: int)
    requires
        ascending(s),
        0 <= i < s.len(),
    ensures
        !entries_map(s.take(i)).contains_key(s[i].0),
        entries_map(s.take(i + 1)) == entries_map(s.take(i)).insert(s[i].0, s[i].1),
{
    let p = s.take(i);
    let q = s.take(i + 1);
    assert(ascending(p));
    assert(ascending(q));
    if has_key(p, s[i].0) {
        let k = position(p, s[i].0);
        assert(p[k].0.0 < s[i].0.0);
    }
    assert forall|b: Actor| #[trigger] has_key(q, b) <==> has_key(p, b) || b == s[i].0 by {
        if has_key(q, b) {
            let k = position(q, b);
            if k < i {
                assert(p[k].0 == b);
            }
        }
        if has_key(p, b) {
            let k = position(p, b);
            assert(q[k].0 == b);
        }
        if b == s[i].0 {
            assert(q[i].0 == b);
        }
    }
    assert forall|b: Actor| #[trigger] has_key(q, b) implies entries_map(q)[b] == entries_map(
        p,
    ).insert(s[i].0, s[i].1)[b] by {
        let k = position(q, b);
        lemma_position(q, k);
        assert(q[k].0 == b);
        if k < i {
            assert(q[k].0.0 < q[i].0.0);
            assert(p[k] == q[k]);
            lemma_position(p, k);
        }
    }
    assert(entries_map(q) =~= entries_map(p).insert(s[i].0, s[i].1));
}

/// The whole list as its longest prefix.
pub proof fn lemma_prefix_full<V>(s: Seq<(Actor, V)>)
    ensures
        entries_map(s.take(s.len() as int)) == entries_map(s),
        entries_map(s.take(0)) == Map::<Actor, V>::empty(),
{
    assert(s.take(s.len() as int) =~= s);
    assert(entries_map(s.take(0)) =~= Map::<Actor, V>::empty());
}

} // verus!
