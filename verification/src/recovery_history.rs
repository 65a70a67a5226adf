//! A bounded history of sent packets, and the planner that decides whether a
//! lagging receiver can be caught up by replaying packets or needs a snapshot.
use crate::packet::wire_len;
use crate::error::DeltaError;
use crate::packet::{sat_add, Packet, PacketView};
use std::collections::VecDeque;
use vstd::prelude::*;

verus! {

/// How to bring a lagging receiver up to date.
#[derive(Debug, Clone, PartialEq, Eq)]
pub enum RecoveryPlan {
    Replay(Vec<Packet>),
    Snapshot(Packet),
}

/// The most recent packets, bounded in count and in encoded bytes.
#[derive(Debug, Clone)]
pub struct RecoveryHistory {
    packets: VecDeque<Packet>,
    max_packets: usize,
    max_bytes: usize,
    bytes: usize,
}

/// The state of a [`RecoveryHistory`].
pub struct HistoryView {
    pub packets: Seq<PacketView>,
    pub max_packets: usize,
    pub max_bytes: usize,
    pub bytes: usize,
}

/// The contents of a list of packets.
pub open spec fn packet_views(ps: Seq<Packet>) -> Seq<PacketView> {
    ps.map_values(|p: Packet| p@)
}

impl View for RecoveryHistory {
    type V = HistoryView;

    closed spec fn view(&self) -> HistoryView {
        HistoryView {
            packets: packet_views(self.packets@),
            max_packets: self.max_packets,
            max_bytes: self.max_bytes,
            bytes: self.bytes,
        }
    }
}

/// `a - b` saturating at zero.
pub open spec fn sub_sat(a: int, b: int) -> int {
    if a >= b {
        a - b
    } else {
        0
    }
}

/// Dropping the oldest packets while there are more than `max_packets` of them or
/// their byte count exceeds `max_bytes`.
pub open spec fn evict(ps: Seq<PacketView>, bytes: int, max_packets: int, max_bytes: int) -> (
    Seq<PacketView>,
    int,
)
    decreases ps.len(),
{
    if (ps.len() > max_packets || bytes > max_bytes) && ps.len() > 0 {
        evict(ps.drop_first(), sub_sat(bytes, wire_len(ps[0])), max_packets, max_bytes)
    } else {
        (ps, bytes)
    }
}

/// A history is well formed when its bounds are at least one and it is within
/// its packet bound.
pub open spec fn history_wf(h: HistoryView) -> bool {
    &&& h.max_packets >= 1
    &&& h.max_bytes >= 1
    &&& h.packets.len() <= h.max_packets
}

/// Sequence `first + i` for the `i`-th packet, each building on the one before.
pub open spec fn chain_from(r: Seq<PacketView>, first: int, n: int) -> bool {
    forall|i: int|
        0 <= i < n ==> #[trigger] r[i].sequence == first + i && r[i].base_sequence == first + i - 1
}

/// Encoded bytes of the first `n` packets, saturating.
pub open spec fn replay_bytes(r: Seq<PacketView>, n: int) -> int
    decreases n,
{
    if n <= 0 {
        0
    } else {
        sat_add(replay_bytes(r, n - 1), wire_len(r[n - 1]))
    }
}

/// What the planner decides.
pub enum PlanChoice {
    Replay(Seq<PacketView>),
    Snapshot,
}

/// The planning rule: with no local state, or one not behind the snapshot, send
/// the snapshot. Otherwise replay the recorded packets from the next sequence
/// through the snapshot's, when there are some, they form an unbroken chain that
/// ends exactly at the snapshot's sequence, and together they are smaller than
/// the snapshot; else send the snapshot.
pub open spec fn plan_choice(h: HistoryView, local: Option<u64>, snapshot: PacketView) -> PlanChoice {
    match local {
        None => PlanChoice::Snapshot,
        Some(l) => if l >= snapshot.sequence {
            PlanChoice::Snapshot
        } else {
            let first = l + 1;
            let r = h.packets.filter(|p: PacketView| first <= p.sequence <= snapshot.sequence);
            let expected_end = if first + r.len() > u64::MAX {
                u64::MAX as int
            } else {
                first + r.len()
            };
            if r.len() == 0 {
                PlanChoice::Snapshot
            } else if !chain_from(r, first, r.len() as int) {
                PlanChoice::Snapshot
            } else if expected_end - 1 != snapshot.sequence || replay_bytes(r, r.len() as int)
                >= wire_len(snapshot) {
                PlanChoice::Snapshot
            } else {
                PlanChoice::Replay(r)
            }
        },
    }
}

impl RecoveryHistory {
    /// An empty history keeping at most `max_packets` packets and `max_bytes`
    /// encoded bytes (each bound at least one).
    pub fn new(max_packets: usize, max_bytes: usize) -> (h: Self)
        ensures
            h@ == (HistoryView {
                packets: Seq::empty(),
                max_packets: if max_packets == 0 {
                    1
                } else {
                    max_packets
                },
                max_bytes: if max_bytes == 0 {
                    1
                } else {
                    max_bytes
                },
                bytes: 0,
            }),
            history_wf(h@),
    {
        let max_packets = if max_packets == 0 {
            1
        } else {
            max_packets
        };
        let max_bytes = if max_bytes == 0 {
            1
        } else {
            max_bytes
        };
        let h = RecoveryHistory {
            packets: VecDeque::with_capacity(max_packets),
            max_packets,
            max_bytes,
            bytes: 0,
        };
        assert(packet_views(h.packets@) =~= Seq::empty());
        h
    }

    /// Records a sent packet, evicting the oldest ones beyond the bounds.
    pub fn record(&mut self, packet: Packet)
        ensures
            ({
                let (ps, b) = evict(
                    old(self)@.packets.push(packet@),
                    sat_add(old(self)@.bytes as int, wire_len(packet@)),
                    old(self)@.max_packets as int,
                    old(self)@.max_bytes as int,
                );
                final(self)@ == HistoryView { packets: ps, bytes: b as usize, ..old(self)@ }
            }),
            history_wf(old(self)@) ==> history_wf(final(self)@),
    {
        self.bytes = self.bytes.saturating_add(packet.encoded_len());
        let ghost pv = packet@;
        self.packets.push_back(packet);
        assert(packet_views(self.packets@) =~= old(self)@.packets.push(pv));
        let ghost target = evict(
            old(self)@.packets.push(pv),
            sat_add(old(self)@.bytes as int, wire_len(pv)),
            old(self)@.max_packets as int,
            old(self)@.max_bytes as int,
        );
        while (self.packets.len() > self.max_packets || self.bytes > self.max_bytes)
            && self.packets.len() > 0
            invariant
                self.max_packets == old(self).max_packets,
                self.max_bytes == old(self).max_bytes,
                evict(
                    packet_views(self.packets@),
                    self.bytes as int,
                    self.max_packets as int,
                    self.max_bytes as int,
                ) == target,
            decreases self.packets@.len(),
        {
            let ghost before = packet_views(self.packets@);
            let oldest = self.packets.pop_front();
            match oldest {
                Some(p) => {
                    self.bytes = self.bytes.saturating_sub(p.encoded_len());
                    assert(packet_views(self.packets@) =~= before.drop_first());
                },
                None => {},
            }
        }
    }

    /// Plans the recovery of a receiver at `local_sequence`, given the snapshot
    /// that would otherwise be sent.
    pub fn plan(&self, local_sequence: Option<u64>, snapshot: Packet) -> (res: Result<
        RecoveryPlan,
        DeltaError,
    >)
        ensures
            match plan_choice(self@, local_sequence, snapshot@) {
                PlanChoice::Snapshot => res matches Ok(RecoveryPlan::Snapshot(p)) && p@ == snapshot@,
                PlanChoice::Replay(r) => res matches Ok(RecoveryPlan::Replay(v)) && packet_views(v@)
                    == r,
            },
    {
        let local = match local_sequence {
            None => return Ok(RecoveryPlan::Snapshot(snapshot)),
            Some(l) => l,
        };
        if local >= snapshot.sequence {
            return Ok(RecoveryPlan::Snapshot(snapshot));
        }
        let required_first = local + 1;
        let ghost hp = self@.packets;
        let ghost pred = |p: PacketView| required_first <= p.sequence <= snapshot.sequence;
        let mut replay: Vec<Packet> = Vec::new();
        proof {
            reveal(Seq::filter);
            assert(packet_views(replay@) =~= hp.take(0).filter(pred));
        }
        let mut i: usize = 0;
        while i < self.packets.len()
            invariant
                hp == packet_views(self.packets@),
                i <= hp.len(),
                pred == (|p: PacketView| required_first <= p.sequence <= snapshot.sequence),
                packet_views(replay@) == hp.take(i as int).filter(pred),
            decreases hp.len() - i,
        {
            let p = &self.packets[i];
            proof {
                assert(hp.take(i + 1).drop_last() =~= hp.take(i as int));
                assert(hp[i as int] == p@);
            }
            if p.sequence >= required_first && p.sequence <= snapshot.sequence {
                replay.push(p.duplicate());
            }
            i = i + 1;
            proof {
                reveal(Seq::filter);
                assert(hp.take(i as int).drop_last() =~= hp.take(i - 1));
                assert(packet_views(replay@) =~= hp.take(i as int).filter(pred));
            }
        }
        proof {
            assert(hp.take(hp.len() as int) =~= hp);
        }
        let ghost r = packet_views(replay@);
        if replay.len() == 0 {
            return Ok(RecoveryPlan::Snapshot(snapshot));
        }
        let mut expected: u128 = required_first as u128;
        let mut bytes: usize = 0;
        let mut k: usize = 0;
        while k < replay.len()
            invariant
                r == packet_views(replay@),
                r == self@.packets.filter(pred),
                pred == (|p: PacketView| required_first <= p.sequence <= snapshot.sequence),
                local_sequence == Some(local),
                local < snapshot.sequence,
                r.len() > 0,
                k <= r.len(),
                required_first == local + 1,
                expected == required_first + k,
                chain_from(r, required_first as int, k as int),
                bytes == replay_bytes(r, k as int),
            decreases r.len() - k,
        {
            let packet = &replay[k];
            assert(r[k as int] == packet@);
            if packet.sequence as u128 != expected || packet.base_sequence as u128 != expected - 1 {
                assert(!chain_from(r, required_first as int, r.len() as int)) by {
                    if chain_from(r, required_first as int, r.len() as int) {
                        assert(r[k as int].sequence == required_first + k);
                    }
                }
                return Ok(RecoveryPlan::Snapshot(snapshot));
            }
            bytes = bytes.saturating_add(packet.encoded_len());
            expected = expected + 1;
            k = k + 1;
        }
        let end_expected: u64 = if expected > u64::MAX as u128 {
            u64::MAX
        } else {
            expected as u64
        };
        if end_expected - 1 != snapshot.sequence || bytes >= snapshot.encoded_len() {
            return Ok(RecoveryPlan::Snapshot(snapshot));
        }
        Ok(RecoveryPlan::Replay(replay))
    }

    /// Number of recorded packets.
    pub fn len(&self) -> (n: usize)
        ensures
            n == self@.packets.len(),
    {
        self.packets.len()
    }

    /// Whether no packet is recorded.
    pub fn is_empty(&self) -> (b: bool)
        ensures
            b == (self@.packets.len() == 0),
    {
        self.packets.len() == 0
    }

    /// Encoded bytes of the recorded packets, as accounted (saturating).
    pub fn bytes(&self) -> (n: usize)
        ensures
            n == self@.bytes,
    {
        self.bytes
    }
}

impl Default for RecoveryHistory {
    fn default() -> (h: Self)
        ensures
            h@ == (HistoryView {
                packets: Seq::empty(),
                max_packets: 256,
                max_bytes: 8388608,
                bytes: 0,
            }),
    {
        RecoveryHistory::new(256, 8 * 1024 * 1024)
    }
}

/// A replay plan is an unbroken chain of packets from the sequence after the
/// receiver's up to the snapshot's, each building on the previous one, and it is
/// smaller than the snapshot.
pub proof fn lemma_replay_is_chain(h: HistoryView, local: u64, snapshot: PacketView)
    requires
        plan_choice(h, Some(local), snapshot) is Replay,
    ensures
        ({
            let r = plan_choice(h, Some(local), snapshot)->Replay_0;
            &&& r.len() > 0
            &&& r[0].sequence == local + 1
            &&& r[r.len() - 1].sequence == snapshot.sequence
            &&& chain_from(r, local + 1, r.len() as int)
            &&& replay_bytes(r, r.len() as int) < wire_len(snapshot)
            &&& forall|i: int| 0 <= i < r.len() ==> h.packets.contains(#[trigger] r[i])
        }),
{
    let first = local + 1;
    let r = h.packets.filter(|p: PacketView| first <= p.sequence <= snapshot.sequence);
    assert(r[0].sequence == first + 0);
    assert(r[r.len() - 1].sequence == first + (r.len() - 1));
    assert forall|i: int| 0 <= i < r.len() implies h.packets.contains(#[trigger] r[i]) by {
        assert(r.contains(r[i]));
        h.packets.lemma_filter_contains_rev(
            |p: PacketView| first <= p.sequence <= snapshot.sequence,
            r[i],
        );
    }
}


/// A receiver behind the snapshot is sent a replay whenever one can serve: when
/// the recorded packets from the sequence after the receiver's through the
/// snapshot's are an unbroken chain ending at the snapshot's sequence and
/// together smaller than the snapshot, the plan replays exactly them. (A
/// snapshot at the last sequence is always sent as is: the count of the chain
/// saturates there.)
pub proof fn lemma_replay_when_possible(h: HistoryView, local: u64, snapshot: PacketView, r: Seq<PacketView>)
    requires
        local < snapshot.sequence,
        snapshot.sequence < u64::MAX,
        ({
            let first = local + 1;
            r == h.packets.filter(|p: PacketView| first <= p.sequence <= snapshot.sequence)
        }),
        r.len() > 0,
        chain_from(r, local + 1, r.len() as int),
        r[r.len() - 1].sequence == snapshot.sequence,
        replay_bytes(r, r.len() as int) < wire_len(snapshot),
    ensures
        plan_choice(h, Some(local), snapshot) == PlanChoice::Replay(r),
{
    assert(r[r.len() - 1].sequence == local + 1 + (r.len() - 1));
}


/// Eviction keeps a suffix of the packets, oldest dropped first, and stops once
/// the packet count and the byte count are within their bounds or nothing is left.
pub proof fn lemma_evict_suffix(ps: Seq<PacketView>, bytes: int, max_packets: int, max_bytes: int)
    ensures
        exists|k: int| 0 <= k <= ps.len() && #[trigger] ps.skip(k) == evict(ps, bytes, max_packets, max_bytes).0,
        evict(ps, bytes, max_packets, max_bytes).0.len() == 0 || (evict(ps, bytes, max_packets, max_bytes).0.len()
            <= max_packets && evict(ps, bytes, max_packets, max_bytes).1 <= max_bytes),
    decreases ps.len(),
{
    if (ps.len() > max_packets || bytes > max_bytes) && ps.len() > 0 {
        let rest = ps.drop_first();
        lemma_evict_suffix(rest, sub_sat(bytes, wire_len(ps[0])), max_packets, max_bytes);
        let k = choose|k: int|
            0 <= k <= rest.len() && #[trigger] rest.skip(k) == evict(
                rest,
                sub_sat(bytes, wire_len(ps[0])),
                max_packets,
                max_bytes,
            ).0;
        assert(ps.skip(k + 1) =~= rest.skip(k));
    } else {
        assert(ps.skip(0) =~= ps);
    }
}

} // verus!
