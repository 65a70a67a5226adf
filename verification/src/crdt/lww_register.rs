//! Last-write-wins register.
use super::replica_id::{replica_lt, IdOrder, ReplicaId};
use super::Crdt;
use vstd::prelude::*;

verus! {

/// Register keeping the write with the greatest `(timestamp, replica)`; equal
/// timestamps are decided by replica order. Timestamps are the application's.
#[derive(Clone, Debug, Eq, PartialEq)]
pub struct LwwRegister<T> {
    value: T,
    timestamp: u64,
    replica: ReplicaId,
}

/// The contents of a register.
pub struct LwwView<T> {
    pub value: T,
    pub timestamp: u64,
    pub replica: Seq<char>,
}

impl<T> View for LwwRegister<T> {
    type V = LwwView<T>;

    closed spec fn view(&self) -> LwwView<T> {
        LwwView { value: self.value, timestamp: self.timestamp, replica: self.replica@ }
    }
}

/// Whether a write stamped `(ts, r)` beats one stamped `(ts0, r0)`.
pub open spec fn write_wins(ts: u64, r: Seq<char>, ts0: u64, r0: Seq<char>) -> bool {
    ts > ts0 || (ts == ts0 && replica_lt(r0, r))
}

/// The stamp and value kept after merging `b` into `a`, values compared as kept.
pub open spec fn lww_merge<T>(a: LwwView<T>, b: LwwView<T>) -> LwwView<T> {
    if write_wins(b.timestamp, b.replica, a.timestamp, a.replica) {
        b
    } else {
        a
    }
}

impl<T> LwwRegister<T> {
    /// A register holding `value`, written at `timestamp` by `replica`.
    pub fn new(value: T, timestamp: u64, replica: ReplicaId) -> (r: Self)
        ensures
            r@ == (LwwView { value, timestamp, replica: replica@ }),
    {
        LwwRegister { value, timestamp, replica }
    }

    /// The current value.
    pub fn value(&self) -> (v: &T)
        ensures
            *v == self@.value,
    {
        &self.value
    }

    /// The timestamp of the current value.
    pub fn timestamp(&self) -> (t: u64)
        ensures
            t == self@.timestamp,
    {
        self.timestamp
    }

    /// The replica that wrote the current value.
    pub fn replica(&self) -> (r: &ReplicaId)
        ensures
            r@ == self@.replica,
    {
        &self.replica
    }

    /// Writes `value` when `(timestamp, replica)` beats the current stamp; `true`
    /// when it did.
    pub fn assign(&mut self, value: T, timestamp: u64, replica: ReplicaId) -> (changed: bool)
        ensures
            changed == write_wins(timestamp, replica@, old(self)@.timestamp, old(self)@.replica),
            changed ==> final(self)@ == (LwwView { value, timestamp, replica: replica@ }),
            !changed ==> final(self)@ == old(self)@,
    {
        let wins = if timestamp > self.timestamp {
            true
        } else if timestamp == self.timestamp {
            match replica.compare(&self.replica) {
                IdOrder::Greater => true,
                _ => false,
            }
        } else {
            false
        };
        if wins {
            self.value = value;
            self.timestamp = timestamp;
            self.replica = replica;
            return true;
        }
        false
    }
}

impl<T: Clone> Crdt for LwwRegister<T> {
    /// Takes the other register's write when it wins; `true` when it did.
    fn merge(&mut self, other: &Self) -> (changed: bool)
        ensures
            changed == write_wins(other@.timestamp, other@.replica, old(self)@.timestamp, old(self)@.replica),
            changed ==> final(self)@.timestamp == other@.timestamp && final(self)@.replica
                == other@.replica && vstd::pervasive::cloned(other@.value, final(self)@.value),
            !changed ==> final(self)@ == old(self)@,
            changed == (final(self)@ != old(self)@),
    {
        let ghost o = self@;
        let v = other.value.clone();
        let changed = self.assign(v, other.timestamp, other.replica.duplicate());
        proof {
            super::replica_id::lemma_bytes_lt_irrefl(super::replica_id::id_bytes(o.replica));
            if changed {
                assert(self@.timestamp != o.timestamp || self@.replica != o.replica);
            }
        }
        changed
    }
}

/// Merging keeps the greatest stamp of the two, in either order: neither input's
/// stamp beats the kept one, and both orders keep the same stamp.
pub proof fn lemma_lww_merge_stamp<T>(a: LwwView<T>, b: LwwView<T>)
    ensures
        lww_merge(a, b).timestamp == lww_merge(b, a).timestamp,
        lww_merge(a, b).replica == lww_merge(b, a).replica,
        !write_wins(a.timestamp, a.replica, lww_merge(a, b).timestamp, lww_merge(a, b).replica),
        !write_wins(b.timestamp, b.replica, lww_merge(a, b).timestamp, lww_merge(a, b).replica),
{
    let ia = super::replica_id::id_bytes(a.replica);
    let ib = super::replica_id::id_bytes(b.replica);
    super::replica_id::lemma_bytes_lt_total(ia, ib);
    super::replica_id::lemma_bytes_lt_irrefl(ia);
    super::replica_id::lemma_bytes_lt_irrefl(ib);
    if ia =~= ib {
        super::replica_id::lemma_id_bytes_injective(a.replica, b.replica);
    }
    if super::replica_id::bytes_lt(ia, ib) {
        super::replica_id::lemma_bytes_lt_asym(ia, ib);
    }
}

/// Merging gives the same register in either order, unless two different values
/// carry the same stamp: the value is not part of the order, so such a tie keeps
/// each side's own value.
pub proof fn lemma_lww_merge_commutative<T>(a: LwwView<T>, b: LwwView<T>)
    requires
        a.timestamp == b.timestamp && a.replica == b.replica ==> a == b,
    ensures
        lww_merge(a, b) == lww_merge(b, a),
{
    let ia = super::replica_id::id_bytes(a.replica);
    let ib = super::replica_id::id_bytes(b.replica);
    super::replica_id::lemma_bytes_lt_total(ia, ib);
    if ia =~= ib {
        super::replica_id::lemma_id_bytes_injective(a.replica, b.replica);
        super::replica_id::lemma_bytes_lt_irrefl(ia);
    }
    if super::replica_id::bytes_lt(ia, ib) {
        super::replica_id::lemma_bytes_lt_asym(ia, ib);
    }
}

/// Merging is associative.
pub proof fn lemma_lww_merge_associative<T>(a: LwwView<T>, b: LwwView<T>, c: LwwView<T>)
    ensures
        lww_merge(lww_merge(a, b), c) == lww_merge(a, lww_merge(b, c)),
{
    let ia = super::replica_id::id_bytes(a.replica);
    let ib = super::replica_id::id_bytes(b.replica);
    let ic = super::replica_id::id_bytes(c.replica);
    if super::replica_id::bytes_lt(ia, ib) && super::replica_id::bytes_lt(ib, ic) {
        super::replica_id::lemma_bytes_lt_trans(ia, ib, ic);
    }
    if super::replica_id::bytes_lt(ic, ib) && super::replica_id::bytes_lt(ib, ia) {
        super::replica_id::lemma_bytes_lt_trans(ic, ib, ia);
    }
    if super::replica_id::bytes_lt(ia, ic) {
        super::replica_id::lemma_bytes_lt_asym(ia, ic);
    }
    if super::replica_id::bytes_lt(ia, ib) {
        super::replica_id::lemma_bytes_lt_asym(ia, ib);
    }
    if super::replica_id::bytes_lt(ib, ic) {
        super::replica_id::lemma_bytes_lt_asym(ib, ic);
    }
    super::replica_id::lemma_bytes_lt_total(ia, ib);
    super::replica_id::lemma_bytes_lt_total(ib, ic);
    super::replica_id::lemma_bytes_lt_total(ia, ic);
    super::replica_id::lemma_bytes_lt_irrefl(ia);
    super::replica_id::lemma_bytes_lt_irrefl(ib);
    super::replica_id::lemma_bytes_lt_irrefl(ic);
}

/// Merging is idempotent.
pub proof fn lemma_lww_merge_idempotent<T>(a: LwwView<T>)
    ensures
        lww_merge(a, a) == a,
{
}

} // verus!
