use vstd::prelude::*;

pub mod grow_only;

pub use grow_only::GrowOnly;

use crate::actor_map::ActorMap;
use crate::cache::{Cache, Handle, Outbox, Sequence};
use crate::clock::{Actor, rebind};
use crate::Replicative;
use grow_only::{add_count, all_nonnegative, count, counts_of, emitted, has_negative, sum_counts};

verus! {

/// The error of decrementing a grow-only counter.
#[derive(Debug)]
pub struct IncrementError;

impl IncrementError {
    /// What went wrong, in words.
    pub fn message(&self) -> (r: &'static str)
        ensures
            r@ == "cannot decrement grow-only counter"@,
    {
        "cannot decrement grow-only counter"
    }
}

/// A numeric type that counters count in.
pub trait Incrementable: Sized + Copy {
    /// The number the value stands for.
    spec fn amount(&self) -> int;

    /// Whether the type can hold `n`.
    spec fn holds(n: int) -> bool;

    /// Every value's amount can be held, and what can be held is an interval around zero.
    proof fn lemma_range(x: Self, n: int, m: int)
        ensures
            Self::holds(x.amount()),
            Self::holds(0),
            Self::holds(n) && Self::holds(m) && n <= m ==> forall|k: int|
                n <= k <= m ==> #[trigger] Self::holds(k),
    ;

    /// Adds `by`; a negative `by` is refused and changes nothing.
    fn increment(&mut self, by: Self) -> (r: Result<(), IncrementError>)
        requires
            by.amount() < 0 || Self::holds(old(self).amount() + by.amount()),
        ensures
            by.amount() < 0 ==> r is Err && *final(self) == *old(self),
            by.amount() >= 0 ==> r is Ok && final(self).amount() == old(self).amount()
                + by.amount(),
    ;

    /// Whether the amount is negative.
    fn is_negative(&self) -> (r: bool)
        ensures
            r == (self.amount() < 0),
    ;
}

/// A numeric type with a zero.
pub trait Zero: Incrementable {
    fn zero() -> (r: Self)
        ensures
            r.amount() == 0,
    ;
}

/// A numeric type with negative values, which a positive-negative counter counts in.
pub trait Signed: Zero {
    /// Whether the amount is above zero.
    fn is_positive(&self) -> (r: bool)
        ensures
            r == (self.amount() > 0),
    ;

    /// The value of the opposite amount.
    spec fn negated(&self) -> Self;

    fn negate(&self) -> (r: Self)
        requires
            Self::holds(-self.amount()),
        ensures
            r == self.negated(),
            r.amount() == -self.amount(),
    ;

    fn minus(&self, other: &Self) -> (r: Self)
        requires
            Self::holds(self.amount() - other.amount()),
        ensures
            r.amount() == self.amount() - other.amount(),
    ;
}

impl Incrementable for u8 {
    open spec fn amount(&self) -> int {
        *self as int
    }

    open spec fn holds(n: int) -> bool {
        u8::MIN <= n <= u8::MAX
    }

    proof fn lemma_range(x: u8, n: int, m: int) {
    }

    fn increment(&mut self, by: u8) -> (r: Result<(), IncrementError>) {
        *self = *self + by;
        Ok(())
    }

    fn is_negative(&self) -> (r: bool) {
        false
    }
}

impl Zero for u8 {
    fn zero() -> (r: u8) {
        0
    }
}

impl Incrementable for u16 {
    open spec fn amount(&self) -> int {
        *self as int
    }

    open spec fn holds(n: int) -> bool {
        u16::MIN <= n <= u16::MAX
    }

    proof fn lemma_range(x: u16, n: int, m: int) {
    }

    fn increment(&mut self, by: u16) -> (r: Result<(), IncrementError>) {
        *self = *self + by;
        Ok(())
    }

    fn is_negative(&self) -> (r: bool) {
        false
    }
}

impl Zero for u16 {
    fn zero() -> (r: u16) {
        0
    }
}

impl Incrementable for u32 {
    open spec fn amount(&self) -> int {
        *self as int
    }

    open spec fn holds(n: int) -> bool {
        u32::MIN <= n <= u32::MAX
    }

    proof fn lemma_range(x: u32, n: int, m: int) {
    }

    fn increment(&mut self, by: u32) -> (r: Result<(), IncrementError>) {
        *self = *self + by;
        Ok(())
    }

    fn is_negative(&self) -> (r: bool) {
        false
    }
}

impl Zero for u32 {
    fn zero() -> (r: u32) {
        0
    }
}

impl Incrementable for u64 {
    open spec fn amount(&self) -> int {
        *self as int
    }

    open spec fn holds(n: int) -> bool {
        u64::MIN <= n <= u64::MAX
    }

    proof fn lemma_range(x: u64, n: int, m: int) {
    }

    fn increment(&mut self, by: u64) -> (r: Result<(), IncrementError>) {
        *self = *self + by;
        Ok(())
    }

    fn is_negative(&self) -> (r: bool) {
        false
    }
}

impl Zero for u64 {
    fn zero() -> (r: u64) {
        0
    }
}

impl Incrementable for u128 {
    open spec fn amount(&self) -> int {
        *self as int
    }

    open spec fn holds(n: int) -> bool {
        u128::MIN <= n <= u128::MAX
    }

    proof fn lemma_range(x: u128, n: int, m: int) {
    }

    fn increment(&mut self, by: u128) -> (r: Result<(), IncrementError>) {
        *self = *self + by;
        Ok(())
    }

    fn is_negative(&self) -> (r: bool) {
        false
    }
}

impl Zero for u128 {
    fn zero() -> (r: u128) {
        0
    }
}

impl Incrementable for i8 {
    open spec fn amount(&self) -> int {
        *self as int
    }

    open spec fn holds(n: int) -> bool {
        i8::MIN <= n <= i8::MAX
    }

    proof fn lemma_range(x: i8, n: int, m: int) {
    }

    fn increment(&mut self, by: i8) -> (r: Result<(), IncrementError>) {
        if by < 0 {
            Err(IncrementError)
        } else {
            *self = *self + by;
            Ok(())
        }
    }

    fn is_negative(&self) -> (r: bool) {
        *self < 0
    }
}

impl Zero for i8 {
    fn zero() -> (r: i8) {
        0
    }
}

impl Signed for i8 {
    open spec fn negated(&self) -> i8 {
        (-*self) as i8
    }

    fn is_positive(&self) -> (r: bool) {
        *self > 0
    }

    fn negate(&self) -> (r: i8) {
        -*self
    }

    fn minus(&self, other: &i8) -> (r: i8) {
        *self - *other
    }
}

impl Incrementable for i16 {
    open spec fn amount(&self) -> int {
        *self as int
    }

    open spec fn holds(n: int) -> bool {
        i16::MIN <= n <= i16::MAX
    }

    proof fn lemma_range(x: i16, n: int, m: int) {
    }

    fn increment(&mut self, by: i16) -> (r: Result<(), IncrementError>) {
        if by < 0 {
            Err(IncrementError)
        } else {
            *self = *self + by;
            Ok(())
        }
    }

    fn is_negative(&self) -> (r: bool) {
        *self < 0
    }
}

impl Zero for i16 {
    fn zero() -> (r: i16) {
        0
    }
}

impl Signed for i16 {
    open spec fn negated(&self) -> i16 {
        (-*self) as i16
    }

    fn is_positive(&self) -> (r: bool) {
        *self > 0
    }

    fn negate(&self) -> (r: i16) {
        -*self
    }

    fn minus(&self, other: &i16) -> (r: i16) {
        *self - *other
    }
}

impl Incrementable for i32 {
    open spec fn amount(&self) -> int {
        *self as int
    }

    open spec fn holds(n: int) -> bool {
        i32::MIN <= n <= i32::MAX
    }

    proof fn lemma_range(x: i32, n: int, m: int) {
    }

    fn increment(&mut self, by: i32) -> (r: Result<(), IncrementError>) {
        if by < 0 {
            Err(IncrementError)
        } else {
            *self = *self + by;
            Ok(())
        }
    }

    fn is_negative(&self) -> (r: bool) {
        *self < 0
    }
}

impl Zero for i32 {
    fn zero() -> (r: i32) {
        0
    }
}

impl Signed for i32 {
    open spec fn negated(&self) -> i32 {
        (-*self) as i32
    }

    fn is_positive(&self) -> (r: bool) {
        *self > 0
    }

    fn negate(&self) -> (r: i32) {
        -*self
    }

    fn minus(&self, other: &i32) -> (r: i32) {
        *self - *other
    }
}

impl Incrementable for i64 {
    open spec fn amount(&self) -> int {
        *self as int
    }

    open spec fn holds(n: int) -> bool {
        i64::MIN <= n <= i64::MAX
    }

    proof fn lemma_range(x: i64, n: int, m: int) {
    }

    fn increment(&mut self, by: i64) -> (r: Result<(), IncrementError>) {
        if by < 0 {
            Err(IncrementError)
        } else {
            *self = *self + by;
            Ok(())
        }
    }

    fn is_negative(&self) -> (r: bool) {
        *self < 0
    }
}

impl Zero for i64 {
    fn zero() -> (r: i64) {
        0
    }
}

impl Signed for i64 {
    open spec fn negated(&self) -> i64 {
        (-*self) as i64
    }

    fn is_positive(&self) -> (r: bool) {
        *self > 0
    }

    fn negate(&self) -> (r: i64) {
        -*self
    }

    fn minus(&self, other: &i64) -> (r: i64) {
        *self - *other
    }
}

impl Incrementable for i128 {
    open spec fn amount(&self) -> int {
        *self as int
    }

    open spec fn holds(n: int) -> bool {
        i128::MIN <= n <= i128::MAX
    }

    proof fn lemma_range(x: i128, n: int, m: int) {
    }

    fn increment(&mut self, by: i128) -> (r: Result<(), IncrementError>) {
        if by < 0 {
            Err(IncrementError)
        } else {
            *self = *self + by;
            Ok(())
        }
    }

    fn is_negative(&self) -> (r: bool) {
        *self < 0
    }
}

impl Zero for i128 {
    fn zero() -> (r: i128) {
        0
    }
}

impl Signed for i128 {
    open spec fn negated(&self) -> i128 {
        (-*self) as i128
    }

    fn is_positive(&self) -> (r: bool) {
        *self > 0
    }

    fn negate(&self) -> (r: i128) {
        -*self
    }

    fn minus(&self, other: &i128) -> (r: i128) {
        *self - *other
    }
}

/// A positive-negative counter: a grow-only counter of increases and one of decreases; its
/// value is the first's minus the second's.
#[derive(Debug)]
pub struct Counter<T> {
    pub(crate) p: GrowOnly<T>,
    pub(crate) n: GrowOnly<T>,
    pub(crate) handle: Sequence<T>,
}

impl<T: Signed> Counter<T> {
    pub open(crate) spec fn wf(&self) -> bool {
        &&& self.p.wf()
        &&& self.n.wf()
        &&& self.p.local_actor() == self.n.local_actor()
    }

    /// The increments of each actor.
    pub open(crate) spec fn increments(&self) -> Map<Actor, int> {
        self.p.counts()
    }

    /// The decrements of each actor.
    pub open(crate) spec fn decrements(&self) -> Map<Actor, int> {
        self.n.counts()
    }

    /// The sum of the increments.
    pub open(crate) spec fn raised(&self) -> int {
        self.p.value()
    }

    /// The sum of the decrements.
    pub open(crate) spec fn lowered(&self) -> int {
        self.n.value()
    }

    /// The value of the counter.
    pub open(crate) spec fn value(&self) -> int {
        self.raised() - self.lowered()
    }

    pub open(crate) spec fn local_actor(&self) -> Actor {
        self.p.local_actor()
    }

    pub open(crate) spec fn cache(&self) -> Sequence<T> {
        self.handle
    }

    /// A counter whose value is `item`, held for the placeholder actor.
    pub fn new(item: T) -> (r: Counter<T>)
        requires
            T::holds(-item.amount()),
        ensures
            r.wf(),
            r.local_actor() == Actor(0),
            item.amount() > 0 ==> r.increments() == map![Actor(0) => item.amount()]
                && r.decrements() == map![Actor(0) => 0int],
            item.amount() <= 0 ==> r.increments() == map![Actor(0) => 0int] && r.decrements()
                == map![Actor(0) => -item.amount()],
            r.cache() is Cache,
            r.cache().buffered() == Seq::<T>::empty(),
    {
        if item.is_positive() {
            Counter { p: GrowOnly::new(item), n: GrowOnly::new(T::zero()), handle: Sequence::new() }
        } else {
            Counter {
                p: GrowOnly::new(T::zero()),
                n: GrowOnly::new(item.negate()),
                handle: Sequence::new(),
            }
        }
    }

    /// The value of the counter.
    pub fn get(&self) -> (r: T)
        requires
            self.wf(),
            T::holds(self.raised()),
            T::holds(self.lowered()),
            T::holds(self.value()),
        ensures
            r.amount() == self.value(),
    {
        self.p.get().minus(&self.n.get())
    }

    /// Whether adding `by` for `origin` stays within the bounds of the type.
    pub open(crate) spec fn add_fits(&self, origin: Actor, by: int) -> bool {
        if by > 0 {
            T::holds(count(self.increments(), origin) + by)
        } else {
            T::holds(-by) && T::holds(count(self.decrements(), origin) - by)
        }
    }

    /// Adds a positive `by` to the increases of `origin`, and any other to its decreases.
    fn increment_origin(&mut self, origin: Actor, by: T)
        requires
            old(self).wf(),
            old(self).add_fits(origin, by.amount()),
        ensures
            final(self).wf(),
            final(self).local_actor() == old(self).local_actor(),
            final(self).cache() == old(self).cache(),
            by.amount() > 0 ==> final(self).increments() == add_count(
                old(self).increments(),
                origin,
                by.amount(),
            ) && final(self).decrements() == old(self).decrements(),
            by.amount() <= 0 ==> final(self).decrements() == add_count(
                old(self).decrements(),
                origin,
                -by.amount(),
            ) && final(self).increments() == old(self).increments(),
    {
        if by.is_positive() {
            let _ = self.p.increment_origin(origin, by);
        } else {
            let _ = self.n.increment_origin(origin, by.negate());
        }
    }

    /// Adds `by`, which may be negative, locally and emits it.
    pub fn add(&mut self, by: T) -> (r: Result<(), IncrementError>)
        requires
            old(self).wf(),
            old(self).add_fits(old(self).local_actor(), by.amount()),
        ensures
            r is Ok,
            final(self).wf(),
            final(self).local_actor() == old(self).local_actor(),
            by.amount() > 0 ==> final(self).increments() == add_count(
                old(self).increments(),
                old(self).local_actor(),
                by.amount(),
            ) && final(self).decrements() == old(self).decrements(),
            by.amount() <= 0 ==> final(self).decrements() == add_count(
                old(self).decrements(),
                old(self).local_actor(),
                -by.amount(),
            ) && final(self).increments() == old(self).increments(),
            emitted(old(self).cache(), final(self).cache(), by),
    {
        let this = self.p.this;
        self.increment_origin(this, by);
        self.handle.dispatch(by);
        Ok(())
    }

    /// Subtracts `by` locally and emits its negation.
    pub fn sub(&mut self, by: T) -> (r: Result<(), IncrementError>)
        requires
            old(self).wf(),
            T::holds(-by.amount()),
            old(self).add_fits(old(self).local_actor(), -by.amount()),
        ensures
            r is Ok,
            final(self).wf(),
            final(self).local_actor() == old(self).local_actor(),
            -by.amount() > 0 ==> final(self).increments() == add_count(
                old(self).increments(),
                old(self).local_actor(),
                -by.amount(),
            ) && final(self).decrements() == old(self).decrements(),
            -by.amount() <= 0 ==> final(self).decrements() == add_count(
                old(self).decrements(),
                old(self).local_actor(),
                by.amount(),
            ) && final(self).increments() == old(self).increments(),
            emitted(old(self).cache(), final(self).cache(), by.negated()),
    {
        let negated = by.negate();
        self.add(negated)
    }
}

impl<T: Signed> Counter<T> {
    /// Takes one operation buffered before binding, the latest first.
    pub fn next_cached(&mut self) -> (r: Option<T>)
        requires
            old(self).wf(),
        ensures
            final(self).wf(),
            final(self).increments() == old(self).increments(),
            final(self).decrements() == old(self).decrements(),
            final(self).local_actor() == old(self).local_actor(),
            old(self).cache() is Cache && old(self).cache().buffered().len() > 0 ==> r == Some(
                old(self).cache().buffered().last(),
            ) && final(self).cache().buffered() == old(self).cache().buffered().drop_last(),
            !(old(self).cache() is Cache && old(self).cache().buffered().len() > 0) ==> r is None,
    {
        self.handle.next_cached()
    }

    /// Takes out the operations sent through the bound handle, oldest first.
    pub fn take_dispatched(&mut self) -> (r: Vec<T>)
        requires
            old(self).wf(),
        ensures
            final(self).wf(),
            r@ == old(self).cache().sent(),
            final(self).cache().sent() == Seq::<T>::empty(),
            final(self).increments() == old(self).increments(),
            final(self).decrements() == old(self).decrements(),
            final(self).local_actor() == old(self).local_actor(),
    {
        self.handle.take_dispatched()
    }
}

impl<T: Signed> Replicative for Counter<T> {
    type Op = T;

    type State = (ActorMap<T>, ActorMap<T>);

    type MergeError = IncrementError;

    type ApplyError = IncrementError;

    open spec fn inv(&self) -> bool {
        self.wf()
    }

    open spec fn apply_fits(&self, origin: Actor, op: T) -> bool {
        self.add_fits(origin, op.amount())
    }

    open spec fn merge_fits(&self, state: (ActorMap<T>, ActorMap<T>)) -> bool {
        &&& state.0.wf()
        &&& state.1.wf()
        &&& forall|a: Actor|
            #[trigger] T::holds(count(self.increments(), a) + count(counts_of(state.0@), a))
        &&& forall|a: Actor|
            #[trigger] T::holds(count(self.decrements(), a) + count(counts_of(state.1@), a))
    }

    open spec fn state_fits(state: (ActorMap<T>, ActorMap<T>)) -> bool {
        state.0.wf() && state.1.wf()
    }

    /// Adds `op` for `origin`: a positive one to its increments, any other, negated, to its
    /// decrements.
    fn apply(&mut self, origin: Actor, op: T) -> (r: Result<(), IncrementError>)
        ensures
            r is Ok,
            final(self).local_actor() == old(self).local_actor(),
            final(self).cache() == old(self).cache(),
            op.amount() > 0 ==> final(self).increments() == add_count(
                old(self).increments(),
                origin,
                op.amount(),
            ) && final(self).decrements() == old(self).decrements(),
            op.amount() <= 0 ==> final(self).decrements() == add_count(
                old(self).decrements(),
                origin,
                -op.amount(),
            ) && final(self).increments() == old(self).increments(),
    {
        self.increment_origin(origin, op);
        Ok(())
    }

    /// Moves the placeholder's counts under the handle's actor and flushes what was buffered.
    fn prepare(&mut self, handle: Outbox<T>)
        ensures
            final(self).increments() == rebind(old(self).increments(), handle.target().0),
            final(self).decrements() == rebind(old(self).decrements(), handle.target().0),
            final(self).local_actor() == handle.target().0,
            final(self).cache() matches Sequence::Handle(h) && h.target() == handle.target(),
            final(self).cache().sent() == handle.dispatched() + old(self).cache().buffered(),
    {
        let actor = handle.this().0;
        self.p.rebind(actor);
        self.n.rebind(actor);
        self.handle.prepare(handle);
    }

    /// A counter holding the increments and decrements of `state`; refused if a count is
    /// negative.
    fn from_state(state: (ActorMap<T>, ActorMap<T>)) -> (r: Result<Counter<T>, IncrementError>)
        ensures
            has_negative(state.0@) || has_negative(state.1@) ==> r is Err,
            !has_negative(state.0@) && !has_negative(state.1@) ==> (r matches Ok(c)
                && c.increments() == counts_of(state.0@) && c.decrements() == counts_of(state.1@)
                && c.local_actor() == Actor(0) && c.cache() is Cache
                && c.cache().buffered() == Seq::<T>::empty()),
    {
        let (ps, ns) = state;
        if !all_nonnegative(&ns) {
            return Err(IncrementError);
        }
        let p = match <GrowOnly<T> as Replicative>::from_state(ps) {
            Ok(p) => p,
            Err(e) => {
                return Err(e);
            },
        };
        let n = match <GrowOnly<T> as Replicative>::from_state(ns) {
            Ok(n) => n,
            Err(e) => {
                return Err(e);
            },
        };
        Ok(Counter { p, n, handle: Sequence::new() })
    }

    /// Merges the increments and the decrements of `state` pointwise; refused, changing
    /// nothing, if a count is negative.
    fn merge(&mut self, state: (ActorMap<T>, ActorMap<T>)) -> (r: Result<(), IncrementError>)
        ensures
            final(self).local_actor() == old(self).local_actor(),
            final(self).cache() == old(self).cache(),
            has_negative(state.0@) || has_negative(state.1@) ==> r is Err
                && final(self).increments() == old(self).increments() && final(self).decrements()
                == old(self).decrements(),
            !has_negative(state.0@) && !has_negative(state.1@) ==> r is Ok
                && final(self).increments() == sum_counts(
                old(self).increments(),
                counts_of(state.0@),
            ) && final(self).decrements() == sum_counts(
                old(self).decrements(),
                counts_of(state.1@),
            ),
    {
        let (ps, ns) = state;
        if !all_nonnegative(&ps) || !all_nonnegative(&ns) {
            return Err(IncrementError);
        }
        assert(self.p.merge_fits(ps)) by {
            assert forall|a: Actor| #[trigger] T::holds(count(self.p.counts(), a) + count(counts_of(ps@), a)) by {
                assert(T::holds(count(self.increments(), a) + count(counts_of(state.0@), a)));
            }
        }
        assert(self.n.merge_fits(ns)) by {
            assert forall|a: Actor| #[trigger] T::holds(count(self.n.counts(), a) + count(counts_of(ns@), a)) by {
                assert(T::holds(count(self.decrements(), a) + count(counts_of(state.1@), a)));
            }
        }
        let _ = self.p.merge(ps);
        let _ = self.n.merge(ns);
        Ok(())
    }

    /// The increments and the decrements.
    fn fetch(&self) -> (r: (ActorMap<T>, ActorMap<T>))
        ensures
            r.0.wf() && r.1.wf(),
            counts_of(r.0@) == self.increments(),
            counts_of(r.1@) == self.decrements(),
    {
        (self.p.fetch(), self.n.fetch())
    }
}

} // verus!
