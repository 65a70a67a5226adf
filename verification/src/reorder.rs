//! An agent-state receiver that holds back deltas arriving ahead of a short gap
//! and applies them once the gap fills.
use crate::error::DeltaError;
use crate::packet::{Packet, PacketKind, PacketView};
use crate::replay::recorded;
use crate::state::{AgentState, AgentStateView};
use crate::adaptive::AdaptivePolicy;
use crate::sync::{
    agent_apply_post, agent_step, consistent, genuine, lemma_genuine_commit, lemma_genuine_step, payloads_fit,
    sat_inc, AgentOutcome, ApplyResult, Decoder, DecoderView,
};
use std::collections::BTreeMap;
use vstd::prelude::*;

verus! {

broadcast use vstd::laws_cmp::group_laws_cmp;

/// Result of offering a packet to a [`ReorderDecoder`].
#[derive(Debug, Clone)]
pub enum ReorderApplyResult {
    Applied { sequence: u64, state: AgentState, drained: usize },
    Buffered { sequence: u64 },
    NeedRecovery { local_sequence: Option<u64>, required_sequence: u64 },
    Duplicate { sequence: u64 },
}

/// A decoder with a bounded buffer of deltas that arrived early.
#[derive(Debug)]
pub struct ReorderDecoder {
    decoder: Decoder,
    pending: BTreeMap<u64, Packet>,
    max_gap: u64,
    max_pending: usize,
}

/// The state of a [`ReorderDecoder`].
pub struct ReorderView {
    pub decoder: DecoderView,
    pub pending: Map<u64, Packet>,
    pub max_gap: u64,
    pub max_pending: usize,
}

impl View for ReorderDecoder {
    type V = ReorderView;

    closed spec fn view(&self) -> ReorderView {
        ReorderView {
            decoder: self.decoder@,
            pending: self.pending@,
            max_gap: self.max_gap,
            max_pending: self.max_pending,
        }
    }
}

impl ReorderView {
    /// The inner decoder is well formed, the buffer finite, and the limits at least one.
    pub open spec fn wf(self) -> bool {
        &&& self.decoder.wf()
        &&& self.pending.dom().finite()
        &&& self.max_gap >= 1
        &&& self.max_pending >= 1
    }
}

/// How draining the buffer after an applied packet ends.
pub enum Drained {
    /// No buffered packet follows the current sequence.
    Done { decoder: DecoderView, pending: Map<u64, Packet>, state: AgentStateView, drained: nat },
    /// A buffered packet did not build on the current state.
    Recovery {
        decoder: DecoderView,
        pending: Map<u64, Packet>,
        local_sequence: Option<u64>,
        required_sequence: u64,
    },
    /// A buffered packet was rejected with an error.
    Failed { decoder: DecoderView, pending: Map<u64, Packet>, packet: PacketView },
}

/// Repeatedly takes the buffered packet that follows the current sequence and
/// offers it to the decoder, until none follows or one is not applied.
pub open spec fn drain(d: DecoderView, pending: Map<u64, Packet>, state: AgentStateView, drained: nat) -> Drained
    decreases pending.len(),
    when pending.dom().finite()
{
    match d.sequence {
        None => Drained::Done { decoder: d, pending, state, drained },
        Some(local) => {
            let next = sat_inc(local);
            if !pending.contains_key(next) {
                Drained::Done { decoder: d, pending, state, drained }
            } else {
                let p = pending[next]@;
                let rest = pending.remove(next);
                match agent_step(d, p) {
                    AgentOutcome::Applied { sequence, state: s } => drain(
                        DecoderView {
                            sequence: Some(sequence),
                            state: Some(s),
                            replay: recorded(d.replay, sequence),
                        },
                        rest,
                        s,
                        drained + 1,
                    ),
                    AgentOutcome::Duplicate { .. } => drain(d, rest, state, drained),
                    AgentOutcome::NeedSnapshot { local_sequence, required_sequence } => Drained::Recovery {
                        decoder: d,
                        pending: rest,
                        local_sequence,
                        required_sequence,
                    },
                    _ => Drained::Failed { decoder: d, pending: rest, packet: p },
                }
            }
        },
    }
}

/// Whether a packet is held back: a delta whose base is ahead of the local
/// sequence, within the allowed gap, while the buffer has room.
pub open spec fn is_early(r: ReorderView, p: PacketView) -> bool {
    &&& p.kind == PacketKind::Delta
    &&& r.decoder.sequence matches Some(local) && p.base_sequence > local
}

/// What `ReorderDecoder::apply` does: an early delta is buffered (the first copy
/// of a sequence is kept) when the gap and the buffer allow, else recovery is
/// needed; any other packet goes to the decoder, and after an applied packet
/// the buffered packets that follow it are drained in order.
pub open spec fn reorder_post(
    old: ReorderView,
    packet: Packet,
    new: ReorderView,
    res: Result<ReorderApplyResult, DeltaError>,
) -> bool {
    let p = packet@;
    &&& new.max_gap == old.max_gap
    &&& new.max_pending == old.max_pending
    &&& if is_early(old, p) {
        let local = old.decoder.sequence->0;
        if p.base_sequence - local <= old.max_gap && old.pending.len() < old.max_pending {
            &&& res matches Ok(ReorderApplyResult::Buffered { sequence }) && sequence == p.sequence
            &&& new.decoder == old.decoder
            &&& new.pending == if old.pending.contains_key(p.sequence) {
                old.pending
            } else {
                old.pending.insert(p.sequence, packet)
            }
        } else {
            &&& res matches Ok(ReorderApplyResult::NeedRecovery { local_sequence, required_sequence })
                && local_sequence == Some(local) && required_sequence == p.base_sequence
            &&& new == old
        }
    } else {
        match agent_step(old.decoder, p) {
            AgentOutcome::Applied { sequence, state } => {
                let d1 = DecoderView {
                    sequence: Some(sequence),
                    state: Some(state),
                    replay: recorded(old.decoder.replay, sequence),
                };
                match drain(d1, old.pending, state, 0) {
                    Drained::Done { decoder, pending, state: s, drained } => {
                        &&& res matches Ok(ReorderApplyResult::Applied { sequence: q, state: v, drained: n })
                            && q == decoder.sequence->0 && v@ == s && n == drained
                        &&& new.decoder == decoder
                        &&& new.pending == pending
                    },
                    Drained::Recovery { decoder, pending, local_sequence, required_sequence } => {
                        &&& res matches Ok(ReorderApplyResult::NeedRecovery { local_sequence: l, required_sequence: r })
                            && l == local_sequence && r == required_sequence
                        &&& new.decoder == decoder
                        &&& new.pending == pending
                    },
                    Drained::Failed { decoder, pending, packet: q } => {
                        &&& res matches Err(e) && agent_apply_post(decoder, q, decoder, Err(e))
                        &&& new.decoder == decoder
                        &&& new.pending == pending
                    },
                }
            },
            AgentOutcome::Duplicate { sequence } => {
                &&& res matches Ok(ReorderApplyResult::Duplicate { sequence: s }) && s == sequence
                &&& new == old
            },
            AgentOutcome::NeedSnapshot { local_sequence, required_sequence } => {
                &&& res matches Ok(ReorderApplyResult::NeedRecovery { local_sequence: l, required_sequence: r })
                    && l == local_sequence && r == required_sequence
                &&& new == old
            },
            _ => {
                &&& res matches Err(e) && agent_apply_post(old.decoder, p, old.decoder, Err(e))
                &&& new == old
            },
        }
    }
}

impl ReorderDecoder {
    /// A receiver that buffers deltas up to `max_gap` sequences ahead, holding at
    /// most `max_pending` of them (each limit at least one).
    pub fn new(max_gap: u64, max_pending: usize) -> (r: Self)
        ensures
            r@.wf(),
            r@.decoder.sequence is None,
            r@.decoder.state is None,
            r@.pending == Map::<u64, Packet>::empty(),
            r@.max_gap == if max_gap < 1 {
                1
            } else {
                max_gap
            },
            r@.max_pending == if max_pending < 1 {
                1
            } else {
                max_pending
            },
    {
        ReorderDecoder {
            decoder: Decoder::default(),
            pending: BTreeMap::new(),
            max_gap: if max_gap < 1 {
                1
            } else {
                max_gap
            },
            max_pending: if max_pending < 1 {
                1
            } else {
                max_pending
            },
        }
    }

    /// Offers a packet: buffers an early delta, or applies it and then every
    /// buffered packet that follows.
    #[verifier::rlimit(40)]
    #[verifier::loop_isolation(false)]
    pub fn apply(&mut self, packet: Packet) -> (res: Result<ReorderApplyResult, DeltaError>)
        requires
            old(self)@.wf(),
        ensures
            final(self)@.wf(),
            reorder_post(old(self)@, packet, final(self)@, res),
    {
        if packet.kind == PacketKind::Delta {
            if let Some(local) = self.decoder.sequence() {
                if packet.base_sequence > local {
                    let gap = packet.base_sequence - local;
                    if gap <= self.max_gap && self.pending.len() < self.max_pending {
                        let sequence = packet.sequence;
                        if !self.pending.contains_key(&sequence) {
                            self.pending.insert(sequence, packet);
                        }
                        return Ok(ReorderApplyResult::Buffered { sequence });
                    }
                    return Ok(ReorderApplyResult::NeedRecovery {
                        local_sequence: Some(local),
                        required_sequence: packet.base_sequence,
                    });
                }
            }
        }
        let ghost p = packet@;
        match self.decoder.apply_packet(packet)? {
            ApplyResult::Applied { sequence, state } => {
                let ghost d1 = self.decoder@;
                let ghost target = drain(d1, self.pending@, state@, 0);
                let mut state = state;
                let mut drained: usize = 0;
                let mut done = false;
                let initial = self.pending.len();
                while !done
                    invariant
                        self.decoder@.wf(),
                        self.pending@.dom().finite(),
                        self.max_gap == old(self).max_gap,
                        self.max_pending == old(self).max_pending,
                        self.decoder@.sequence is Some,
                        drained + self.pending@.len() <= initial,
                        initial == old(self).pending@.len(),
                        drain(self.decoder@, self.pending@, state@, drained as nat) == target,
                        done ==> target == (Drained::Done {
                            decoder: self.decoder@,
                            pending: self.pending@,
                            state: state@,
                            drained: drained as nat,
                        }),
                    decreases 2 * self.pending@.len() + if done {
                        0int
                    } else {
                        1int
                    },
                {
                    let local = match self.decoder.sequence() {
                        Some(l) => l,
                        None => {
                            done = true;
                            continue;
                        },
                    };
                    let next_sequence = local.saturating_add(1);
                    let ghost before = self.pending@;
                    let next = match self.pending.remove(&next_sequence) {
                        Some(n) => n,
                        None => {
                            assert(self.pending@ =~= before);
                            done = true;
                            continue;
                        },
                    };
                    assert(before.contains_key(next_sequence) && before[next_sequence] == next);
                    assert(self.pending@ == before.remove(next_sequence));
                    match self.decoder.apply_packet(next)? {
                        ApplyResult::Applied { state: next_state, .. } => {
                            state = next_state;
                            drained = drained + 1;
                        },
                        ApplyResult::Duplicate { .. } => {},
                        ApplyResult::NeedSnapshot { local_sequence, required_sequence } => {
                            return Ok(ReorderApplyResult::NeedRecovery { local_sequence, required_sequence });
                        },
                    }
                }
                let current = match self.decoder.sequence() {
                    Some(s) => s,
                    None => sequence,
                };
                Ok(ReorderApplyResult::Applied { sequence: current, state, drained })
            },
            ApplyResult::Duplicate { sequence } => Ok(ReorderApplyResult::Duplicate { sequence }),
            ApplyResult::NeedSnapshot { local_sequence, required_sequence } => {
                Ok(ReorderApplyResult::NeedRecovery { local_sequence, required_sequence })
            },
        }
    }

    /// The synchronized state, if any.
    pub fn state(&self) -> (s: Option<&AgentState>)
        ensures
            match s {
                Some(x) => self@.decoder.state == Some(x@),
                None => self@.decoder.state is None,
            },
    {
        self.decoder.state()
    }

    /// The last applied sequence.
    pub fn sequence(&self) -> (s: Option<u64>)
        ensures
            s == self@.decoder.sequence,
    {
        self.decoder.sequence()
    }

    /// How many packets are buffered.
    pub fn pending_len(&self) -> (n: usize)
        requires
            self@.wf(),
        ensures
            n == self@.pending.len(),
    {
        self.pending.len()
    }

    /// Drops every buffered packet.
    pub fn clear_pending(&mut self)
        requires
            old(self)@.wf(),
        ensures
            final(self)@.wf(),
            final(self)@ == (ReorderView { pending: Map::empty(), ..old(self)@ }),
    {
        self.pending.clear();
    }

    /// Drops the buffer and resets the decoder.
    pub fn reset(&mut self)
        requires
            old(self)@.wf(),
        ensures
            final(self)@.wf(),
            final(self)@.pending == Map::<u64, Packet>::empty(),
            final(self)@.decoder.sequence is None,
            final(self)@.decoder.state is None,
            final(self)@.max_gap == old(self)@.max_gap,
            final(self)@.max_pending == old(self)@.max_pending,
    {
        self.pending.clear();
        self.decoder.reset();
    }
}

impl Default for ReorderDecoder {
    fn default() -> (r: Self)
        ensures
            r@.wf(),
            r@.decoder.sequence is None,
            r@.pending == Map::<u64, Packet>::empty(),
            r@.max_gap == 8,
            r@.max_pending == 64,
    {
        ReorderDecoder::new(8, 64)
    }
}


/// The receiver holds published states and buffers only genuine packets, each
/// under its own sequence.
pub open spec fn reorder_consistent(r: ReorderView, policy: AdaptivePolicy, states: Seq<AgentStateView>) -> bool {
    &&& r.wf()
    &&& consistent(r.decoder, states)
    &&& forall|k: u64|
        #[trigger] r.pending.contains_key(k) ==> genuine(policy, states, r.pending[k]@) && r.pending[k]@.sequence
            == k
}

/// Draining genuine packets into a decoder that holds published states leaves
/// it holding published states, with fewer buffered packets.
proof fn lemma_drain_consistent(
    d: DecoderView,
    pending: Map<u64, Packet>,
    state: AgentStateView,
    drained: nat,
    policy: AdaptivePolicy,
    states: Seq<AgentStateView>,
)
    requires
        consistent(d, states),
        pending.dom().finite(),
        payloads_fit(states),
        forall|k: u64|
            #[trigger] pending.contains_key(k) ==> genuine(policy, states, pending[k]@) && pending[k]@.sequence == k,
    ensures
        match drain(d, pending, state, drained) {
            Drained::Done { decoder, pending: rest, .. } => consistent(decoder, states) && rest.dom().finite()
                && forall|k: u64| #[trigger] rest.contains_key(k) ==> pending.contains_key(k) && rest[k] == pending[k],
            Drained::Recovery { decoder, pending: rest, .. } => consistent(decoder, states) && rest.dom().finite()
                && forall|k: u64| #[trigger] rest.contains_key(k) ==> pending.contains_key(k) && rest[k] == pending[k],
            Drained::Failed { decoder, pending: rest, .. } => consistent(decoder, states) && rest.dom().finite()
                && forall|k: u64| #[trigger] rest.contains_key(k) ==> pending.contains_key(k) && rest[k] == pending[k],
        },
        !(drain(d, pending, state, drained) is Failed),
    decreases pending.len(),
{
    if let Some(local) = d.sequence {
        let next = sat_inc(local);
        if pending.contains_key(next) {
            let p = pending[next]@;
            let rest = pending.remove(next);
            lemma_genuine_step(d, policy, states, p);
            match agent_step(d, p) {
                AgentOutcome::Applied { sequence, state: s } => {
                    lemma_genuine_commit(d, policy, states, p);
                    lemma_drain_consistent(
                        DecoderView { sequence: Some(sequence), state: Some(s), replay: recorded(d.replay, sequence) },
                        rest,
                        s,
                        drained + 1,
                        policy,
                        states,
                    );
                },
                AgentOutcome::Duplicate { .. } => {
                    lemma_drain_consistent(d, rest, state, drained, policy, states);
                },
                _ => {},
            }
        }
    }
}

/// Offering a genuine packet to a receiver that holds published states and
/// buffers only genuine packets keeps it so, whatever the outcome.
pub proof fn lemma_reorder_consistent(
    old: ReorderView,
    packet: Packet,
    new: ReorderView,
    res: Result<ReorderApplyResult, DeltaError>,
    policy: AdaptivePolicy,
    states: Seq<AgentStateView>,
)
    requires
        reorder_consistent(old, policy, states),
        genuine(policy, states, packet@),
        payloads_fit(states),
        new.wf(),
        reorder_post(old, packet, new, res),
    ensures
        reorder_consistent(new, policy, states),
        res is Ok,
{
    let p = packet@;
    if !is_early(old, p) {
        lemma_genuine_step(old.decoder, policy, states, p);
        if agent_step(old.decoder, p) is Applied {
            lemma_genuine_commit(old.decoder, policy, states, p);
            let d1 = DecoderView {
                sequence: Some(p.sequence),
                state: Some(states[p.sequence - 1]),
                replay: recorded(old.decoder.replay, p.sequence),
            };
            lemma_drain_consistent(d1, old.pending, states[p.sequence - 1], 0, policy, states);
        }
    }
}

/// Draining to the end leaves no buffered packet for the sequence after the
/// decoder's, and keeps only packets that were buffered before.
proof fn lemma_drain_done(d: DecoderView, pending: Map<u64, Packet>, state: AgentStateView, drained: nat)
    requires
        pending.dom().finite(),
        d.sequence is Some,
    ensures
        drain(d, pending, state, drained) matches Drained::Done { decoder, pending: rest, .. } ==> (
        decoder.sequence matches Some(l) && !rest.contains_key(sat_inc(l)) && forall|k: u64|
            #[trigger] rest.contains_key(k) ==> pending.contains_key(k) && rest[k] == pending[k]),
    decreases pending.len(),
{
    let local = d.sequence->0;
    let next = sat_inc(local);
    if pending.contains_key(next) {
        let p = pending[next]@;
        let rest = pending.remove(next);
        match agent_step(d, p) {
            AgentOutcome::Applied { sequence, state: s } => {
                lemma_drain_done(
                    DecoderView { sequence: Some(sequence), state: Some(s), replay: recorded(d.replay, sequence) },
                    rest,
                    s,
                    drained + 1,
                );
            },
            AgentOutcome::Duplicate { .. } => {
                lemma_drain_done(d, rest, state, drained);
            },
            _ => {},
        }
    }
}

/// After a packet is applied, the receiver has applied every buffered packet
/// that continues its sequence: none is left waiting for the sequence after the
/// one it reports, and what stays buffered was buffered before.
pub proof fn lemma_reorder_drains(
    old: ReorderView,
    packet: Packet,
    new: ReorderView,
    res: Result<ReorderApplyResult, DeltaError>,
)
    requires
        old.wf(),
        reorder_post(old, packet, new, res),
        res matches Ok(ReorderApplyResult::Applied { .. }),
    ensures
        res matches Ok(ReorderApplyResult::Applied { sequence, .. }) && new.decoder.sequence == Some(sequence)
            && !new.pending.contains_key(sat_inc(sequence)),
        forall|k: u64| #[trigger] new.pending.contains_key(k) ==> old.pending.contains_key(k) && new.pending[k] == old.pending[k],
{
    let p = packet@;
    if let AgentOutcome::Applied { sequence, state } = agent_step(old.decoder, p) {
        let d1 = DecoderView {
            sequence: Some(sequence),
            state: Some(state),
            replay: recorded(old.decoder.replay, sequence),
        };
        lemma_drain_done(d1, old.pending, state, 0);
    }
}

} // verus!
