//! The state behind the dashboard demo: each tick publishes the next agent
//! state, optionally loses it on the way, and recovers the receiver with a
//! snapshot when it falls out of step.
use crate::error::DeltaError;
use crate::metrics::{plus_sat, Metrics};
use crate::binary::agent_state_bytes;
use crate::multi_client::{delivery_ok, lemma_current_delivery_ok};
use crate::packet::{sat_add, wire_bytes, PacketKind, PacketView, KNOWN_FLAGS, MAX_LOGICAL_PAYLOAD, MAX_WIRE_PAYLOAD};
use crate::state::{demo_view, AgentState, AgentStateView};
use crate::sync::{
    agent_choice, agent_snapshot, agent_step, chosen_payload, cpu_step_exact, recoverable, sat_inc, ApplyResult, Decoder,
    DecoderView, Encoder, EncoderView,
};
use vstd::prelude::*;

verus! {

/// What one tick sent and what the receiver made of it.
#[derive(Debug)]
pub struct TickOutcome {
    pub state: AgentState,
    pub metrics: Metrics,
    pub full_bytes: usize,
    pub delta_bytes: usize,
    pub dropped: bool,
    pub desync_detected: bool,
    pub resynced: bool,
    pub sequence: u64,
}

/// `p` can be put on the wire: its flags are known and its payload fits.
pub open spec fn wire_ready(p: PacketView) -> bool {
    p.flags & !KNOWN_FLAGS == 0 && p.payload.len() <= MAX_WIRE_PAYLOAD
}

/// A tick that publishes `next` succeeds from receiver `d` and sender `e`: the
/// receiver is in step with the sender or behind it, the sender can take one
/// more sequence, the compressor lets it choose both its packet for `next` and
/// the recovery snapshot of `next`, both fit on the wire, the payloads fit the
/// receiver's limit, and the CPU load does not step between the two zeros.
pub open spec fn tick_succeeds(d: DecoderView, e: EncoderView, next: AgentStateView) -> bool {
    &&& recoverable(d, e)
    &&& e.last_state is None ==> e.sequence == 0
    &&& e.sequence < u64::MAX
    &&& agent_choice(e, (e.sequence + 1) as u64, next) matches Some((p, c)) && wire_ready(p) && chosen_payload(
        c.mode,
        e.last_state,
        next,
    ).len() <= MAX_LOGICAL_PAYLOAD
    &&& agent_state_bytes(next).len() <= MAX_LOGICAL_PAYLOAD
    &&& e.last_state matches Some(prev) ==> cpu_step_exact(prev, next)
    &&& e.policy.initial_choice(agent_snapshot((e.sequence + 1) as u64, next)) matches Some((q, _)) && wire_ready(q)
}

/// What a successful tick that published `next` from sender `e`, receiver `d`
/// and counters `m` reports: the packet `p` the sender chose, lost or offered to
/// the receiver; when the receiver needed a snapshot, the recovery snapshot `q`
/// at the new sequence; the wire bytes of both; and each counter moved by them.
pub open spec fn tick_counts(
    e: EncoderView,
    d: DecoderView,
    m: Metrics,
    next: AgentStateView,
    full_bytes: usize,
    t: TickOutcome,
) -> bool {
    let seq = sat_inc(e.sequence);
    &&& agent_choice(e, seq, next) matches Some((p, _))
    &&& t.desync_detected == (!t.dropped && agent_step(d, p) is NeedSnapshot)
    &&& t.metrics.full_json_bytes == plus_sat(m.full_json_bytes, full_bytes as int)
    &&& t.metrics.delta_packets == if p.kind == PacketKind::Delta {
        plus_sat(m.delta_packets, 1)
    } else {
        m.delta_packets
    }
    &&& t.metrics.snapshot_packets == if p.kind == PacketKind::Delta {
        m.snapshot_packets
    } else {
        plus_sat(m.snapshot_packets, 1)
    }
    &&& t.metrics.compressed_packets == if p.is_compressed() {
        plus_sat(m.compressed_packets, 1)
    } else {
        m.compressed_packets
    }
    &&& t.metrics.duplicates == if !t.dropped && agent_step(d, p) is Duplicate {
        plus_sat(m.duplicates, 1)
    } else {
        m.duplicates
    }
    &&& if t.desync_detected {
        &&& e.policy.initial_choice(agent_snapshot(seq, next)) matches Some((q, _))
        &&& t.sequence == q.sequence
        &&& t.delta_bytes == sat_add(wire_bytes(p).len() as int, wire_bytes(q).len() as int)
        &&& t.metrics.wire_bytes == plus_sat(
            plus_sat(m.wire_bytes, wire_bytes(p).len() as int),
            wire_bytes(q).len() as int,
        )
    } else {
        &&& t.sequence == p.sequence
        &&& t.delta_bytes == wire_bytes(p).len()
        &&& t.metrics.wire_bytes == plus_sat(m.wire_bytes, wire_bytes(p).len() as int)
    }
    &&& t.metrics.checksum_failures == m.checksum_failures
    &&& t.metrics.bytes_avoided == m.bytes_avoided
}

/// The demo's sender, receiver, counters and pending loss.
#[derive(Debug)]
pub struct DemoState {
    current: AgentState,
    encoder: Encoder,
    decoder: Decoder,
    metrics: Metrics,
    drop_next: bool,
}

fn bump(counter: u64, by: usize) -> (r: u64)
    ensures
        r == if counter + by > u64::MAX {
            u64::MAX as int
        } else {
            counter + by
        },
{
    let by = by as u64;
    counter.saturating_add(by)
}

impl DemoState {
    /// The demo at its start: the demo agent, nothing sent, no loss pending.
    pub fn fresh() -> (d: Self)
        ensures
            d.wf(),
            !d.drop_pending(),
            d.current_state() == demo_view(),
            d.counters() == (Metrics {
                updates: 0,
                full_json_bytes: 0,
                wire_bytes: 0,
                delta_packets: 0,
                snapshot_packets: 0,
                compressed_packets: 0,
                resyncs: 0,
                duplicates: 0,
                checksum_failures: 0,
                bytes_avoided: 0,
            }),
    {
        DemoState {
            current: AgentState::demo(),
            encoder: Encoder::default(),
            decoder: Decoder::default(),
            metrics: Metrics {
                updates: 0,
                full_json_bytes: 0,
                wire_bytes: 0,
                delta_packets: 0,
                snapshot_packets: 0,
                compressed_packets: 0,
                resyncs: 0,
                duplicates: 0,
                checksum_failures: 0,
                bytes_avoided: 0,
            },
            drop_next: false,
        }
    }

    /// The receiver is well formed.
    pub closed spec fn wf(self) -> bool {
        self.decoder@.wf()
    }

    /// What the sender has published.
    pub closed spec fn sender(self) -> EncoderView {
        self.encoder@
    }

    /// What the receiver holds.
    pub closed spec fn receiver(self) -> DecoderView {
        self.decoder@
    }

    /// Whether the next tick's packet will be lost.
    pub closed spec fn drop_pending(self) -> bool {
        self.drop_next
    }

    /// The agent state last published.
    pub closed spec fn current_state(self) -> AgentStateView {
        self.current@
    }

    /// The counters so far.
    pub closed spec fn counters(self) -> Metrics {
        self.metrics
    }

    /// Loses the next tick's packet.
    pub fn request_drop(&mut self)
        requires
            old(self).wf(),
        ensures
            final(self).wf(),
            final(self).drop_pending(),
            final(self).current_state() == old(self).current_state(),
            final(self).counters() == old(self).counters(),
    {
        self.drop_next = true;
    }

    /// The agent state last published.
    pub fn current(&self) -> (s: &AgentState)
        ensures
            s@ == self.current_state(),
    {
        &self.current
    }

    /// Publishes `next`, whose plain JSON encoding is `full_bytes` long: counts
    /// the packet, loses it when a loss was requested, and otherwise applies it,
    /// recovering the receiver with a snapshot when it needs one. Counters
    /// saturate.
    #[verifier::rlimit(60)]
    #[verifier::spinoff_prover]
    pub fn tick(&mut self, next: AgentState, full_bytes: usize) -> (res: Result<TickOutcome, DeltaError>)
        requires
            old(self).wf(),
        ensures
            final(self).wf(),
            res is Ok ==> !final(self).drop_pending(),
            res matches Ok(t) ==> {
                &&& t.state@ == next@
                &&& final(self).current_state() == next@
                &&& t.metrics == final(self).counters()
                &&& t.dropped == old(self).drop_pending()
                &&& t.full_bytes == full_bytes
                &&& t.desync_detected == t.resynced
                &&& t.dropped ==> !t.desync_detected
                &&& t.metrics.updates == sat_inc(old(self).counters().updates)
                &&& t.metrics.resyncs == if t.desync_detected {
                    sat_inc(old(self).counters().resyncs)
                } else {
                    old(self).counters().resyncs
                }
            },
            tick_succeeds(old(self).receiver(), old(self).sender(), next@) ==> res is Ok,
            res matches Ok(t) ==> tick_counts(old(self).sender(), old(self).receiver(), old(self).counters(), next@, full_bytes, t),
    {
        let ghost e0 = self.encoder@;
        let ghost d0 = self.decoder@;
        let ghost ok = tick_succeeds(d0, e0, next@);
        let packet = self.encoder.encode(&next)?;
        proof {
            if ok {
                let decision = self.encoder@.last_decision->0;
                lemma_current_delivery_ok(d0, e0, self.encoder@, next@, packet@, decision);
                assert(delivery_ok(d0, packet@, self.encoder@, next@));
            }
        }
        let wire = packet.encode()?;
        let packet_bytes = wire.len();
        let dropped = self.drop_next;
        self.drop_next = false;
        let mut desync_detected = false;
        let mut resynced = false;
        let mut wire_bytes = packet_bytes;
        let mut sequence = packet.sequence;
        self.metrics.updates = bump(self.metrics.updates, 1);
        self.metrics.full_json_bytes = bump(self.metrics.full_json_bytes, full_bytes);
        self.metrics.wire_bytes = bump(self.metrics.wire_bytes, packet_bytes);
        if packet.kind == PacketKind::Delta {
            self.metrics.delta_packets = bump(self.metrics.delta_packets, 1);
        } else {
            self.metrics.snapshot_packets = bump(self.metrics.snapshot_packets, 1);
        }
        if packet.is_compressed() {
            self.metrics.compressed_packets = bump(self.metrics.compressed_packets, 1);
        }
        if !dropped {
            match self.decoder.apply_packet(packet)? {
                ApplyResult::Applied { .. } => {},
                ApplyResult::Duplicate { .. } => {
                    self.metrics.duplicates = bump(self.metrics.duplicates, 1);
                },
                ApplyResult::NeedSnapshot { .. } => {
                    desync_detected = true;
                    self.metrics.resyncs = bump(self.metrics.resyncs, 1);
                    let snapshot = self.encoder.recovery_snapshot(&next)?;
                    let snapshot_bytes = snapshot.encode()?.len();
                    wire_bytes = wire_bytes.saturating_add(snapshot_bytes);
                    self.metrics.wire_bytes = bump(self.metrics.wire_bytes, snapshot_bytes);
                    sequence = snapshot.sequence;
                    match self.decoder.apply_packet(snapshot)? {
                        ApplyResult::Applied { .. } | ApplyResult::Duplicate { .. } => resynced = true,
                        ApplyResult::NeedSnapshot { .. } => {
                            return Err(DeltaError::InvalidState("snapshot failed to resync decoder"));
                        },
                    }
                },
            }
        }
        self.current = next.clone();
        Ok(TickOutcome {
            state: next,
            metrics: self.metrics,
            full_bytes,
            delta_bytes: wire_bytes,
            dropped,
            desync_detected,
            resynced,
            sequence,
        })
    }
}

} // verus!
