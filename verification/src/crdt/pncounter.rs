//! Positive-negative counter.
use super::gcounter::{count_of, map_max, sum_of, GCounter};
use super::replica_id::ReplicaId;
use super::{Crdt, CrdtError};
use vstd::prelude::*;

verus! {

/// Counter that can go down: two grow-only counters, one for increments and one
/// for decrements; its value is their difference.
#[derive(Clone, Debug, Eq, PartialEq)]
pub struct PNCounter {
    positive: GCounter,
    negative: GCounter,
}

/// The components of both halves.
pub struct PNView {
    pub positive: Map<Seq<char>, u64>,
    pub negative: Map<Seq<char>, u64>,
}

impl View for PNCounter {
    type V = PNView;

    closed spec fn view(&self) -> PNView {
        PNView { positive: self.positive@, negative: self.negative@ }
    }
}

/// The sum of a grow-only counter's components.
pub open spec fn total(g: GCounter) -> int {
    sum_of(g.entries(), g.entries().len() as int)
}

/// Merging both halves component-wise.
pub open spec fn pn_merge(a: PNView, b: PNView) -> PNView {
    PNView { positive: map_max(a.positive, b.positive), negative: map_max(a.negative, b.negative) }
}

impl PNCounter {
    /// The increment half.
    pub closed spec fn positive_half(&self) -> GCounter {
        self.positive
    }

    /// The decrement half.
    pub closed spec fn negative_half(&self) -> GCounter {
        self.negative
    }

    /// A counter of value zero.
    pub fn new() -> (c: Self)
        ensures
            c@ == (PNView {
                positive: Map::<Seq<char>, u64>::empty(),
                negative: Map::<Seq<char>, u64>::empty(),
            }),
    {
        PNCounter { positive: GCounter::new(), negative: GCounter::new() }
    }

    /// Adds `amount` to the increments of `replica`.
    pub fn increment(&mut self, replica: &ReplicaId, amount: u64) -> (res: Result<(), CrdtError>)
        ensures
            count_of(old(self)@.positive, replica@) + amount > u64::MAX ==> (res matches Err(
                CrdtError::CounterOverflow,
            ) && final(self)@ == old(self)@),
            count_of(old(self)@.positive, replica@) + amount <= u64::MAX ==> (res is Ok && final(self)@ == PNView {
                positive: old(self)@.positive.insert(
                    replica@,
                    (count_of(old(self)@.positive, replica@) + amount) as u64,
                ),
                ..old(self)@
            }),
    {
        self.positive.increment(replica, amount)
    }

    /// Adds `amount` to the decrements of `replica`.
    pub fn decrement(&mut self, replica: &ReplicaId, amount: u64) -> (res: Result<(), CrdtError>)
        ensures
            count_of(old(self)@.negative, replica@) + amount > u64::MAX ==> (res matches Err(
                CrdtError::CounterOverflow,
            ) && final(self)@ == old(self)@),
            count_of(old(self)@.negative, replica@) + amount <= u64::MAX ==> (res is Ok && final(self)@ == PNView {
                negative: old(self)@.negative.insert(
                    replica@,
                    (count_of(old(self)@.negative, replica@) + amount) as u64,
                ),
                ..old(self)@
            }),
    {
        self.negative.increment(replica, amount)
    }

    /// Increments minus decrements; fails when either sum overflows `u64`.
    pub fn value(&self) -> (res: Result<i128, CrdtError>)
        ensures
            total(self.positive_half()) <= u64::MAX && total(self.negative_half()) <= u64::MAX
                ==> res == Ok::<i128, CrdtError>(
                (total(self.positive_half()) - total(self.negative_half())) as i128,
            ),
            total(self.positive_half()) > u64::MAX || total(self.negative_half()) > u64::MAX
                ==> (res matches Err(CrdtError::ValueOverflow)),
    {
        let positive = match self.positive.value() {
            Ok(v) => v,
            Err(e) => return Err(e),
        };
        let negative = match self.negative.value() {
            Ok(v) => v,
            Err(e) => return Err(e),
        };
        let p = positive as i128;
        let n = negative as i128;
        Ok(p - n)
    }

    /// The increment half.
    pub fn positive(&self) -> (g: &GCounter)
        ensures
            *g == self.positive_half(),
            g@ == self@.positive,
    {
        &self.positive
    }

    /// The decrement half.
    pub fn negative(&self) -> (g: &GCounter)
        ensures
            *g == self.negative_half(),
            g@ == self@.negative,
    {
        &self.negative
    }
}

impl Crdt for PNCounter {
    /// Merges both halves; `true` exactly when this counter changed.
    fn merge(&mut self, other: &Self) -> (changed: bool)
        ensures
            final(self)@ == pn_merge(old(self)@, other@),
            changed == (final(self)@ != old(self)@),
    {
        let positive_changed = self.positive.merge(&other.positive);
        let negative_changed = self.negative.merge(&other.negative);
        positive_changed || negative_changed
    }
}

/// Merging is commutative.
pub proof fn lemma_pn_merge_commutative(a: PNView, b: PNView)
    ensures
        pn_merge(a, b) == pn_merge(b, a),
{
    super::gcounter::lemma_merge_commutative(a.positive, b.positive);
    super::gcounter::lemma_merge_commutative(a.negative, b.negative);
}

/// Merging is associative.
pub proof fn lemma_pn_merge_associative(a: PNView, b: PNView, c: PNView)
    ensures
        pn_merge(pn_merge(a, b), c) == pn_merge(a, pn_merge(b, c)),
{
    super::gcounter::lemma_merge_associative(a.positive, b.positive, c.positive);
    super::gcounter::lemma_merge_associative(a.negative, b.negative, c.negative);
}

/// Merging is idempotent.
pub proof fn lemma_pn_merge_idempotent(a: PNView)
    ensures
        pn_merge(a, a) == a,
{
    super::gcounter::lemma_merge_idempotent(a.positive);
    super::gcounter::lemma_merge_idempotent(a.negative);
}

} // verus!
