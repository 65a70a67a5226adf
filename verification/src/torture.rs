//! A deterministic hard simulation: drops, duplicates, bounded reordering,
//! corruption, short and long disconnects, late joins and one global outage
//! followed by a resync storm served from a single shared snapshot.
use crate::adaptive::{lemma_choice_no_worse, lemma_initial_choice_no_worse, AdaptivePolicy, EncodeDecision};
use crate::binary::agent_state_bytes;
use crate::error::DeltaError;
use crate::packet::{
    carries, decode_outcome, wire_bytes, DecodeConfig, DecodeOutcome, Packet, PacketKind, PacketView, KNOWN_FLAGS,
    MAX_WIRE_PAYLOAD,
};
use crate::replay::recorded;
use crate::reorder::{
    drain, is_early, lemma_reorder_consistent, reorder_consistent, reorder_post, Drained, ReorderApplyResult, ReorderDecoder,
    ReorderView,
};
use crate::state::{AgentState, AgentStateView};
use crate::sync::{
    agent_choice, agent_delta, agent_snapshot, agent_step, choice_at, choices_exist, chosen_payload, consistent,
    delta_choice, genuine, lemma_genuine_step, snapshot_choice,
    payloads_fit, published_states, AgentOutcome, DecoderView, Encoder, EncoderView,
};
use vstd::prelude::*;

verus! {

/// Counters of the hard simulation.
#[derive(Debug, Clone, Default)]
pub struct TortureReport {
    pub resync_storm_snapshots_built: u64,
    pub clients: usize,
    pub updates: usize,
    pub deliveries: u64,
    pub drops: u64,
    pub duplicates: u64,
    pub corruptions: u64,
    pub reorders: u64,
    pub buffered_reorders: u64,
    pub disconnects: u64,
    pub late_joins: u64,
    pub long_disconnects: u64,
    pub resyncs: u64,
    pub resync_storm_clients: u64,
    pub recovery_snapshots_built: u64,
    pub converged_clients: usize,
    pub final_sequence: u64,
}

impl TortureReport {
    /// Whether every client ended in the publisher's state.
    pub fn all_converged(&self) -> (b: bool)
        ensures
            b == (self.converged_clients == self.clients),
    {
        self.converged_clients == self.clients
    }
}

/// Sum of the counters a simulation step can raise.
pub open spec fn events(r: TortureReport) -> int {
    r.deliveries + r.drops + r.duplicates + r.corruptions + r.reorders + r.disconnects + r.late_joins
        + r.long_disconnects + r.resyncs + r.resync_storm_clients + r.recovery_snapshots_built
        + r.resync_storm_snapshots_built
}

/// Whether the fixed fields of a report are as they were.
pub open spec fn same_frame(a: TortureReport, b: TortureReport) -> bool {
    &&& a.clients == b.clients
    &&& a.updates == b.updates
    &&& a.converged_clients == b.converged_clients
    &&& a.final_sequence == b.final_sequence
    &&& a.buffered_reorders <= b.buffered_reorders
}

/// The encoder's recovery snapshot of `s` is the snapshot of the published
/// state at its sequence.
pub open spec fn recovers_to(e: EncoderView, s: AgentStateView, states: Seq<AgentStateView>) -> bool {
    &&& e.policy == AdaptivePolicy::spec_default()
    &&& 1 <= e.sequence <= states.len()
    &&& s == states[e.sequence - 1]
}

proof fn lemma_recovery_genuine(e: EncoderView, s: AgentStateView, states: Seq<AgentStateView>, q: PacketView)
    requires
        recovers_to(e, s, states),
        e.policy.initial_choice(agent_snapshot(e.sequence, s)) matches Some((p, _)) && p == q,
        carries(q, agent_state_bytes(s)),
    ensures
        genuine(AdaptivePolicy::spec_default(), states, q),
        q.kind == PacketKind::Snapshot,
        q.sequence == e.sequence,
{
    reveal(genuine);
    lemma_initial_choice_no_worse(e.policy, agent_snapshot(e.sequence, s));
}

proof fn lemma_encoded_genuine(
    e0: EncoderView,
    s: AgentStateView,
    states: Seq<AgentStateView>,
    p: PacketView,
    d: EncodeDecision,
)
    requires
        e0.policy == AdaptivePolicy::spec_default(),
        e0.sequence < states.len(),
        e0.sequence < u64::MAX,
        s == states[e0.sequence as int],
        e0.sequence == 0 ==> e0.last_state is None,
        e0.sequence > 0 ==> e0.last_state == Some(states[e0.sequence - 1]),
        agent_choice(e0, (e0.sequence + 1) as u64, s) == Some((p, d)),
        carries(p, chosen_payload(d.mode, e0.last_state, s)),
    ensures
        genuine(AdaptivePolicy::spec_default(), states, p),
{
    reveal(genuine);
    let seq = (e0.sequence + 1) as u64;
    match e0.last_state {
        None => {
            lemma_initial_choice_no_worse(e0.policy, agent_snapshot(seq, s));
        },
        Some(prev) => {
            lemma_choice_no_worse(e0.policy, agent_snapshot(seq, s), agent_delta(seq, prev, s));
        },
    }
}

/// A receiver that holds published states and has no buffered packets ends in
/// the last published state after a genuine snapshot at the last sequence.
proof fn lemma_drain_empty(d: DecoderView, state: AgentStateView)
    ensures
        drain(d, Map::<u64, Packet>::empty(), state, 0) == (Drained::Done {
            decoder: d,
            pending: Map::<u64, Packet>::empty(),
            state,
            drained: 0,
        }),
{
    assert(Map::<u64, Packet>::empty().dom().finite());
}

proof fn lemma_final_applied(
    old: ReorderView,
    q: Packet,
    new: ReorderView,
    res: Result<ReorderApplyResult, DeltaError>,
    st: AgentStateView,
)
    requires
        old.pending == Map::<u64, Packet>::empty(),
        !is_early(old, q@),
        agent_step(old.decoder, q@) == (AgentOutcome::Applied { sequence: q@.sequence, state: st }),
        reorder_post(old, q, new, res),
    ensures
        new.decoder.state == Some(st),
{
    let d = old.decoder;
    let n = q@.sequence;
    let d1 = DecoderView { sequence: Some(n), state: Some(st), replay: recorded(d.replay, n) };
    lemma_drain_empty(d1, st);
}

proof fn lemma_final_duplicate(
    old: ReorderView,
    q: Packet,
    new: ReorderView,
    res: Result<ReorderApplyResult, DeltaError>,
    states: Seq<AgentStateView>,
)
    requires
        consistent(old.decoder, states),
        !is_early(old, q@),
        agent_step(old.decoder, q@) is Duplicate,
        old.decoder.replay.seen.contains(q@.sequence) || (old.decoder.sequence matches Some(l) && q@.sequence
            < l),
        q@.sequence == states.len(),
        reorder_post(old, q, new, res),
    ensures
        new.decoder.state == Some(states[states.len() - 1]),
{
    let d = old.decoder;
    let n = q@.sequence;
    if d.replay.seen.contains(n) {
        let i = choose|i: int| 0 <= i < d.replay.seen.len() && d.replay.seen[i] == n;
        assert(d.replay.seen[i] == n);
    }
}

proof fn lemma_final_other(
    old: ReorderView,
    q: Packet,
    new: ReorderView,
    res: Result<ReorderApplyResult, DeltaError>,
)
    requires
        !is_early(old, q@),
        !(agent_step(old.decoder, q@) is Applied),
        !(agent_step(old.decoder, q@) is Duplicate),
        !(agent_step(old.decoder, q@) is NeedSnapshot),
        reorder_post(old, q, new, res),
    ensures
        res is Err,
{
}

proof fn lemma_final_converges(
    old: ReorderView,
    q: Packet,
    new: ReorderView,
    res: Result<ReorderApplyResult, DeltaError>,
    states: Seq<AgentStateView>,
)
    requires
        reorder_consistent(old, AdaptivePolicy::spec_default(), states),
        old.pending == Map::<u64, Packet>::empty(),
        genuine(AdaptivePolicy::spec_default(), states, q@),
        q@.kind == PacketKind::Snapshot,
        q@.sequence == states.len(),
        payloads_fit(states),
        reorder_post(old, q, new, res),
        res is Ok,
    ensures
        new.decoder.state == Some(states[states.len() - 1]),
{
    let d = old.decoder;
    let n = q@.sequence;
    lemma_genuine_step(d, AdaptivePolicy::spec_default(), states, q@);
    assert(!is_early(old, q@));
    if agent_step(d, q@) is Applied {
        lemma_final_applied(old, q, new, res, states[n - 1]);
    } else if agent_step(d, q@) is Duplicate {
        lemma_final_duplicate(old, q, new, res, states);
    } else {
        lemma_final_other(old, q, new, res);
    }
}

/// A receiver with nothing buffered that is offered a genuine snapshot applies
/// it or ignores it as a duplicate.
proof fn lemma_snapshot_offer(
    old: ReorderView,
    q: Packet,
    new: ReorderView,
    res: Result<ReorderApplyResult, DeltaError>,
    states: Seq<AgentStateView>,
)
    requires
        reorder_consistent(old, AdaptivePolicy::spec_default(), states),
        old.pending == Map::<u64, Packet>::empty(),
        genuine(AdaptivePolicy::spec_default(), states, q@),
        q@.kind == PacketKind::Snapshot,
        payloads_fit(states),
        reorder_post(old, q, new, res),
    ensures
        res matches Ok(r) && (r is Applied || r is Duplicate),
{
    lemma_genuine_step(old.decoder, AdaptivePolicy::spec_default(), states, q@);
    assert(!is_early(old, q@));
    if let AgentOutcome::Applied { sequence, state } = agent_step(old.decoder, q@) {
        let d1 = DecoderView { sequence: Some(sequence), state: Some(state), replay: recorded(old.decoder.replay, sequence) };
        lemma_drain_empty(d1, state);
    }
}

fn count_drained(report: &mut TortureReport, drained: usize)
    ensures
        final(report).buffered_reorders == old(report).buffered_reorders.saturating_add(drained as u64),
        events(*final(report)) == events(*old(report)),
        same_frame(*old(report), *final(report)),
{
    report.buffered_reorders = report.buffered_reorders.saturating_add(drained as u64);
}

fn deliver(
    decoder: &mut ReorderDecoder,
    packet: Packet,
    encoder: &Encoder,
    state: &AgentState,
    report: &mut TortureReport,
    Ghost(states): Ghost<Seq<AgentStateView>>,
    Ghost(good): Ghost<bool>,
) -> (res: Result<(), DeltaError>)
    requires
        old(decoder)@.wf(),
        events(*old(report)) + 4 <= u64::MAX,
        good ==> {
            &&& payloads_fit(states)
            &&& reorder_consistent(old(decoder)@, AdaptivePolicy::spec_default(), states)
            &&& genuine(AdaptivePolicy::spec_default(), states, packet@)
            &&& recovers_to(encoder@, state@, states)
        },
    ensures
        final(decoder)@.wf(),
        events(*final(report)) <= events(*old(report)) + 4,
        same_frame(*old(report), *final(report)),
        good && res is Ok ==> reorder_consistent(final(decoder)@, AdaptivePolicy::spec_default(), states),
        good && encoder@.policy.initial_choice(agent_snapshot(encoder@.sequence, state@)) is Some ==> res is Ok,
{
    let ghost r0 = decoder@;
    let ghost pk = packet;
    let applied = decoder.apply(packet);
    proof {
        if good {
            lemma_reorder_consistent(r0, pk, decoder@, applied, AdaptivePolicy::spec_default(), states);
        }
    }
    match applied? {
        ReorderApplyResult::Applied { drained, .. } => {
            report.deliveries = report.deliveries + 1;
            count_drained(report, drained);
        },
        ReorderApplyResult::Buffered { .. } => report.reorders = report.reorders + 1,
        ReorderApplyResult::Duplicate { .. } => report.duplicates = report.duplicates + 1,
        ReorderApplyResult::NeedRecovery { .. } => {
            report.resyncs = report.resyncs + 1;
            decoder.clear_pending();
            let recovery = encoder.recovery_snapshot(state)?;
            report.recovery_snapshots_built = report.recovery_snapshots_built + 1;
            let ghost r1 = decoder@;
            let ghost rk = recovery;
            proof {
                if good {
                    lemma_recovery_genuine(encoder@, state@, states, recovery@);
                }
            }
            let again = decoder.apply(recovery);
            proof {
                if good {
                    lemma_reorder_consistent(r1, rk, decoder@, again, AdaptivePolicy::spec_default(), states);
                    lemma_snapshot_offer(r1, rk, decoder@, again, states);
                }
            }
            match again? {
                ReorderApplyResult::Applied { .. } | ReorderApplyResult::Duplicate { .. } => {
                    report.deliveries = report.deliveries + 1;
                },
                _ => return Err(DeltaError::InvalidState("torture recovery failed")),
            }
        },
    }
    Ok(())
}

/// `w` with the top bit of its last byte flipped.
pub open spec fn last_bit_flipped(w: Seq<u8>) -> Seq<u8> {
    if w.len() > 0 {
        w.update(w.len() - 1, w[w.len() - 1] ^ 0x80u8)
    } else {
        w
    }
}

/// `p` can be put on the wire, and flipping the top bit of its last wire byte
/// makes the result undecodable.
pub open spec fn corruption_detected(p: PacketView) -> bool {
    &&& p.flags & !KNOWN_FLAGS == 0
    &&& p.payload.len() <= MAX_WIRE_PAYLOAD
    &&& !(decode_outcome(last_bit_flipped(wire_bytes(p)), DecodeConfig::spec_default()) is Decoded)
}

/// Encodes `packet`, flips the top bit of its last wire byte, and reports
/// whether decoding then fails; fails itself when `packet` cannot be encoded.
fn corrupted_is_rejected(packet: &Packet) -> (res: Result<bool, DeltaError>)
    ensures
        (packet@.flags & !KNOWN_FLAGS != 0 || packet@.payload.len() > MAX_WIRE_PAYLOAD) ==> res is Err,
        !(packet@.flags & !KNOWN_FLAGS != 0 || packet@.payload.len() > MAX_WIRE_PAYLOAD) ==> res == Ok::<
            bool,
            DeltaError,
        >(!(decode_outcome(last_bit_flipped(wire_bytes(packet@)), DecodeConfig::spec_default()) is Decoded)),
{
    let mut wire = packet.encode()?;
    let n = wire.len();
    if n > 0 {
        let last = wire[n - 1];
        wire.set(n - 1, last ^ 0x80);
    }
    Ok(Packet::decode(wire.as_slice()).is_err())
}

/// The packet the default policy publishes for the `i`-th of `ps` at sequence
/// `i + 1`, when the compressor lets it choose one.
pub open spec fn published_packet(ps: Seq<AgentStateView>, i: int) -> Option<PacketView> {
    let e = EncoderView {
        sequence: i as u64,
        last_state: if i == 0 {
            None
        } else {
            Some(ps[i - 1])
        },
        policy: AdaptivePolicy::spec_default(),
        last_decision: None,
    };
    match agent_choice(e, (i + 1) as u64, ps[i]) {
        Some((p, _)) => Some(p),
        None => None,
    }
}

/// Corrupting the last wire byte of any packet published for `ps` is caught.
#[verifier::opaque]
pub open spec fn corruptions_detected(ps: Seq<AgentStateView>) -> bool {
    forall|i: int|
        0 <= i < ps.len() ==> (#[trigger] published_packet(ps, i) is Some ==> corruption_detected(
            published_packet(ps, i)->0,
        ))
}

/// The parameters of one update that every client sees.
pub struct Round {
    pub update: usize,
    pub join_modulus: usize,
    pub long_outage: usize,
}

#[verifier::rlimit(80)]
#[verifier::spinoff_prover]
fn serve_client(
    id: usize,
    round: &Round,
    decoder: &mut ReorderDecoder,
    offline_until: &mut usize,
    joined: &mut bool,
    delayed: &mut Option<Packet>,
    packet: &Packet,
    encoder: &Encoder,
    state: &AgentState,
    report: &mut TortureReport,
    Ghost(states): Ghost<Seq<AgentStateView>>,
    Ghost(good): Ghost<bool>,
) -> (res: Result<(), DeltaError>)
    requires
        old(decoder)@.wf(),
        round.join_modulus >= 1,
        events(*old(report)) + 16 <= u64::MAX,
        good ==> {
            &&& payloads_fit(states)
            &&& reorder_consistent(old(decoder)@, AdaptivePolicy::spec_default(), states)
            &&& genuine(AdaptivePolicy::spec_default(), states, packet@)
            &&& recovers_to(encoder@, state@, states)
            &&& (*old(delayed) matches Some(p) ==> genuine(AdaptivePolicy::spec_default(), states, p@))
        },
    ensures
        final(decoder)@.wf(),
        events(*final(report)) <= events(*old(report)) + 16,
        same_frame(*old(report), *final(report)),
        good && res is Ok ==> {
            &&& reorder_consistent(final(decoder)@, AdaptivePolicy::spec_default(), states)
            &&& (*final(delayed) matches Some(p) ==> genuine(AdaptivePolicy::spec_default(), states, p@))
        },
        good && encoder@.policy.initial_choice(agent_snapshot(encoder@.sequence, state@)) is Some
            && corruption_detected(packet@) ==> res is Ok,
{
    let update = round.update;
    let join_at: usize = if id % 10 == 0 {
        ((id as u128 * 37) % round.join_modulus as u128) as usize
    } else {
        0
    };
    if !*joined {
        if update < join_at {
            return Ok(());
        }
        *joined = true;
        if join_at > 0 {
            report.late_joins = report.late_joins + 1;
        }
        let snapshot = encoder.recovery_snapshot(state)?;
        report.recovery_snapshots_built = report.recovery_snapshots_built + 1;
        let ghost r0 = decoder@;
        let ghost sk = snapshot;
        proof {
            if good {
                lemma_recovery_genuine(encoder@, state@, states, snapshot@);
            }
        }
        let joined_res = decoder.apply(snapshot);
        proof {
            if good {
                lemma_reorder_consistent(r0, sk, decoder@, joined_res, AdaptivePolicy::spec_default(), states);
            }
        }
        let _ = joined_res?;
        return Ok(());
    }
    if update > 0 && (update as u128 + id as u128 * 29) % 10_007 == 0 {
        *offline_until = update.saturating_add(round.long_outage);
        report.disconnects = report.disconnects + 1;
        report.long_disconnects = report.long_disconnects + 1;
    } else if update > 0 && (update as u128 + id as u128 * 13) % 997 == 0 {
        *offline_until = update.saturating_add(5);
        report.disconnects = report.disconnects + 1;
    }
    if update < *offline_until {
        report.drops = report.drops + 1;
        return Ok(());
    }
    if update > 0 && (update as u128 + id as u128 * 17) % 211 == 0 {
        report.drops = report.drops + 1;
        return Ok(());
    }
    if update > 0 && (update as u128 + id as u128 * 31) % 1237 == 0 {
        if !corrupted_is_rejected(packet)? {
            return Err(DeltaError::InvalidState("corrupted torture packet was accepted"));
        }
        report.corruptions = report.corruptions + 1;
        report.drops = report.drops + 1;
        return Ok(());
    }
    if update > 1 && packet.kind == PacketKind::Delta && delayed.is_none() && (update as u128 + id as u128
        * 19) % 389 == 0 {
        *delayed = Some(packet.duplicate());
        report.reorders = report.reorders + 1;
        return Ok(());
    }
    deliver(decoder, packet.duplicate(), encoder, state, report, Ghost(states), Ghost(good))?;
    let mut late: Option<Packet> = None;
    std::mem::swap(&mut late, delayed);
    if let Some(p) = late {
        let ghost r0 = decoder@;
        let ghost pk = p;
        let late_res = decoder.apply(p);
        proof {
            if good {
                lemma_reorder_consistent(r0, pk, decoder@, late_res, AdaptivePolicy::spec_default(), states);
            }
        }
        match late_res? {
            ReorderApplyResult::Applied { drained, .. } => {
                report.deliveries = report.deliveries + 1;
                count_drained(report, drained);
            },
            ReorderApplyResult::Buffered { .. } => report.reorders = report.reorders + 1,
            ReorderApplyResult::Duplicate { .. } => report.duplicates = report.duplicates + 1,
            ReorderApplyResult::NeedRecovery { .. } => {
                report.resyncs = report.resyncs + 1;
                decoder.clear_pending();
                let snapshot = encoder.recovery_snapshot(state)?;
                report.recovery_snapshots_built = report.recovery_snapshots_built + 1;
                let ghost r1 = decoder@;
                let ghost sk = snapshot;
                proof {
                    if good {
                        lemma_recovery_genuine(encoder@, state@, states, snapshot@);
                    }
                }
                let again = decoder.apply(snapshot);
                proof {
                    if good {
                        lemma_reorder_consistent(r1, sk, decoder@, again, AdaptivePolicy::spec_default(), states);
                    }
                }
                let _ = again?;
            },
        }
    }
    if update > 0 && (update as u128 + id as u128 * 23) % 307 == 0 {
        deliver(decoder, packet.duplicate(), encoder, state, report, Ghost(states), Ghost(good))?;
    }
    Ok(())
}

/// Runs the hard simulation with `clients` receivers (at least one) over the
/// successive `states`. Every tenth client joins late, at update `37 id` modulo
/// the update count; half-way through, every joined client misses one update
/// and is resynchronized from one shared snapshot on the next; the usual loss,
/// corruption, reordering, duplication and disconnect patterns apply otherwise.
/// A final snapshot goes to every client, and the report counts the clients
/// that end in the last state.
#[verifier::rlimit(100)]
#[verifier::spinoff_prover]
pub fn run(clients: usize, states: &[AgentState]) -> (res: Result<TortureReport, DeltaError>)
    requires
        states@.len() >= 1,
        16 * (if clients < 1 { 1 } else { clients as int }) * states@.len() + 16 <= u64::MAX,
    ensures
        res matches Ok(r) ==> {
            &&& r.clients == if clients < 1 {
                1
            } else {
                clients
            }
            &&& r.updates == states@.len()
            &&& r.final_sequence == states@.len()
            &&& r.converged_clients <= r.clients
            &&& payloads_fit(published_states(states@)) ==> r.converged_clients == r.clients
        },
        payloads_fit(published_states(states@)) && choices_exist(published_states(states@))
            && corruptions_detected(published_states(states@)) ==> res is Ok,
{
    let ghost pv = published_states(states@);
    let ghost fit = payloads_fit(pv);
    let ghost ok = fit && choices_exist(pv) && corruptions_detected(pv);
    let client_count = if clients < 1 {
        1
    } else {
        clients
    };
    let update_count = states.len();
    let mut report = TortureReport {
        resync_storm_snapshots_built: 0,
        clients: client_count,
        updates: update_count,
        deliveries: 0,
        drops: 0,
        duplicates: 0,
        corruptions: 0,
        reorders: 0,
        buffered_reorders: 0,
        disconnects: 0,
        late_joins: 0,
        long_disconnects: 0,
        resyncs: 0,
        resync_storm_clients: 0,
        recovery_snapshots_built: 0,
        converged_clients: 0,
        final_sequence: 0,
    };
    let mut encoder = Encoder::default();
    let mut state = AgentState::demo();
    let mut decoders: Vec<ReorderDecoder> = Vec::new();
    let mut offline_until: Vec<usize> = Vec::new();
    let mut joined: Vec<bool> = Vec::new();
    let mut delayed: Vec<Option<Packet>> = Vec::new();
    let mut c: usize = 0;
    while c < client_count
        invariant
            c <= client_count,
            decoders@.len() == c,
            offline_until@.len() == c,
            joined@.len() == c,
            delayed@.len() == c,
            forall|j: int| 0 <= j < c ==> (#[trigger] decoders@[j])@.wf(),
            forall|j: int|
                0 <= j < c ==> reorder_consistent(
                    (#[trigger] decoders@[j])@,
                    AdaptivePolicy::spec_default(),
                    published_states(states@),
                ),
            forall|j: int| 0 <= j < c ==> (#[trigger] delayed@[j]) is None,
        decreases client_count - c,
    {
        decoders.push(ReorderDecoder::default());
        offline_until.push(0);
        joined.push(false);
        delayed.push(None);
        c = c + 1;
    }
    let storm_at = update_count / 2;
    let join_modulus = if update_count < 2 {
        2
    } else {
        update_count
    };
    let long_outage = if 500 < update_count / 4 + 1 {
        500
    } else {
        update_count / 4 + 1
    };
    let ghost n = update_count as int;
    let ghost k = client_count as int;
    let mut update: usize = 0;
    while update < update_count
        invariant
            16 * k * n + 16 <= u64::MAX,
            n == update_count,
            k == client_count,
            k >= 1,
            update_count == states@.len(),
            join_modulus >= 1,
            update <= update_count,
            decoders@.len() == client_count,
            offline_until@.len() == client_count,
            joined@.len() == client_count,
            delayed@.len() == client_count,
            forall|j: int| 0 <= j < client_count ==> (#[trigger] decoders@[j])@.wf(),
            pv == published_states(states@),
            fit == payloads_fit(pv),
            pv.len() == states@.len(),
            forall|j: int|
                0 <= j < client_count ==> fit ==> reorder_consistent(
                    (#[trigger] decoders@[j])@,
                    AdaptivePolicy::spec_default(),
                    pv,
                ),
            forall|j: int|
                0 <= j < client_count ==> fit ==> (#[trigger] delayed@[j] matches Some(p) ==> genuine(
                    AdaptivePolicy::spec_default(),
                    pv,
                    p@,
                )),
            encoder@.sequence == update,
            encoder@.policy == AdaptivePolicy::spec_default(),
            ok == (fit && choices_exist(pv) && corruptions_detected(pv)),
            update == 0 ==> encoder@.last_state is None,
            update > 0 ==> encoder@.last_state == Some(pv[update - 1]),
            update > 0 ==> state@ == pv[update - 1],
            report.clients == client_count,
            report.updates == update_count,
            report.converged_clients == 0,
            report.final_sequence == 0,
            events(report) <= 16 * k * update,
        decreases update_count - update,
    {
        state = states[update].clone();
        let ghost e0 = encoder@;
        proof {
            if ok {
                assert(choice_at(pv, update as int)) by {
                    reveal(choices_exist);
                }
                assert(pv[update as int] == states@[update as int]@);
                if update > 0 {
                    assert(pv[update - 1] == states@[update - 1]@);
                }
                assert(agent_choice(encoder@, (update + 1) as u64, state@) is Some) by {
                    reveal(snapshot_choice);
                    reveal(delta_choice);
                }
                assert(published_packet(pv, update as int) == match agent_choice(
                    encoder@,
                    (update + 1) as u64,
                    state@,
                ) {
                    Some((p, _)) => Some(p),
                    None => None,
                });
            }
        }
        let packet = encoder.encode(&state)?;
        proof {
            if ok {
                assert(published_packet(pv, update as int) == Some(packet@));
                assert(corruption_detected(packet@)) by {
                    reveal(corruptions_detected);
                    assert(published_packet(pv, update as int) is Some);
                }
                assert(encoder@.policy.initial_choice(agent_snapshot(encoder@.sequence, state@)) is Some) by {
                    reveal(snapshot_choice);
                }
            }
        }
        proof {
            assert(pv[update as int] == states@[update as int]@);
            lemma_encoded_genuine(e0, state@, pv, packet@, encoder@.last_decision->0);
            assert(recovers_to(encoder@, state@, pv));
        }
        if update == storm_at {
            let mut id: usize = 0;
            while id < client_count
                invariant
                    16 * k * n + 16 <= u64::MAX,
                    n == update_count,
                    k == client_count,
                    k >= 1,
                    update_count == states@.len(),
                    join_modulus >= 1,
                    update < update_count,
                    id <= client_count,
                    joined@.len() == client_count,
                    report.clients == client_count,
                    report.updates == update_count,
                    report.converged_clients == 0,
                    report.final_sequence == 0,
                    events(report) <= 16 * k * update + id,
                decreases client_count - id,
            {
                proof {
                    assert(16 * k * update + id + 1 <= 16 * k * n + 16) by (nonlinear_arith)
                        requires
                            update < n,
                            id < k,
                    ;
                }
                if joined[id] {
                    report.drops = report.drops + 1;
                }
                id = id + 1;
            }
            proof {
                assert(16 * k * update + k <= 16 * k * (update + 1)) by (nonlinear_arith)
                    requires
                        k >= 1,
                ;
            }
            update = update + 1;
            continue;
        }
        if update == storm_at.saturating_add(1) {
            let shared = encoder.recovery_snapshot(&state)?;
            proof {
                if fit {
                    lemma_recovery_genuine(encoder@, state@, pv, shared@);
                }
            }
            proof {
                assert(16 * k * update + 2 <= 16 * k * n + 16) by (nonlinear_arith)
                    requires
                        update < n,
                        k >= 1,
                ;
            }
            report.recovery_snapshots_built = report.recovery_snapshots_built + 1;
            report.resync_storm_snapshots_built = report.resync_storm_snapshots_built + 1;
            let mut id: usize = 0;
            while id < client_count
                invariant
                    16 * k * n + 16 <= u64::MAX,
                    n == update_count,
                    k == client_count,
                    k >= 1,
                    update_count == states@.len(),
                    join_modulus >= 1,
                    update < update_count,
                    id <= client_count,
                    decoders@.len() == client_count,
                    joined@.len() == client_count,
                    forall|j: int| 0 <= j < client_count ==> (#[trigger] decoders@[j])@.wf(),
                    forall|j: int|
                        0 <= j < client_count ==> fit ==> reorder_consistent(
                            (#[trigger] decoders@[j])@,
                            AdaptivePolicy::spec_default(),
                            pv,
                        ),
                    fit ==> payloads_fit(pv),
                    fit ==> genuine(AdaptivePolicy::spec_default(), pv, shared@),
                    pv == published_states(states@),
                    fit == payloads_fit(pv),
                    ok == (fit && choices_exist(pv) && corruptions_detected(pv)),
                    report.clients == client_count,
                    report.updates == update_count,
                    report.converged_clients == 0,
                    report.final_sequence == 0,
                    events(report) <= 16 * k * update + 2 + 2 * id,
                decreases client_count - id,
            {
                proof {
                    assert(16 * k * update + 2 + 2 * id + 2 <= 16 * k * n + 16) by (nonlinear_arith)
                        requires
                            update < n,
                            id < k,
                    ;
                }
                if joined[id] {
                    let mut decoder = ReorderDecoder::default();
                    std::mem::swap(&mut decoder, &mut decoders[id]);
                    decoder.clear_pending();
                    let ghost r0 = decoder@;
                    let sk = shared.duplicate();
                    let ghost sg = sk;
                    let storm_res = decoder.apply(sk);
                    proof {
                        if fit {
                            lemma_reorder_consistent(r0, sg, decoder@, storm_res, AdaptivePolicy::spec_default(), pv);
                        }
                    }
                    let _ = storm_res?;
                    decoders.set(id, decoder);
                    report.resync_storm_clients = report.resync_storm_clients + 1;
                    report.resyncs = report.resyncs + 1;
                }
                id = id + 1;
            }
            proof {
                assert(16 * k * update + 2 + 2 * k <= 16 * k * (update + 1)) by (nonlinear_arith)
                    requires
                        k >= 1,
                ;
            }
            update = update + 1;
            continue;
        }
        let round = Round { update, join_modulus, long_outage };
        let mut id: usize = 0;
        while id < client_count
            invariant
                16 * k * n + 16 <= u64::MAX,
                n == update_count,
                k == client_count,
                k >= 1,
                update_count == states@.len(),
                join_modulus >= 1,
                update < update_count,
                round.join_modulus == join_modulus,
                id <= client_count,
                decoders@.len() == client_count,
                offline_until@.len() == client_count,
                joined@.len() == client_count,
                delayed@.len() == client_count,
                forall|j: int| 0 <= j < client_count ==> (#[trigger] decoders@[j])@.wf(),
                forall|j: int|
                    0 <= j < client_count ==> fit ==> reorder_consistent(
                        (#[trigger] decoders@[j])@,
                        AdaptivePolicy::spec_default(),
                        pv,
                    ),
                forall|j: int|
                    0 <= j < client_count ==> fit ==> (#[trigger] delayed@[j] matches Some(p) ==> genuine(
                        AdaptivePolicy::spec_default(),
                        pv,
                        p@,
                    )),
                fit ==> payloads_fit(pv),
                fit ==> genuine(AdaptivePolicy::spec_default(), pv, packet@),
                fit ==> recovers_to(encoder@, state@, pv),
                pv == published_states(states@),
                fit == payloads_fit(pv),
                ok == (fit && choices_exist(pv) && corruptions_detected(pv)),
                ok ==> encoder@.policy.initial_choice(agent_snapshot(encoder@.sequence, state@)) is Some,
                ok ==> corruption_detected(packet@),
                report.clients == client_count,
                report.updates == update_count,
                report.converged_clients == 0,
                report.final_sequence == 0,
                events(report) <= 16 * k * update + 16 * id,
            decreases client_count - id,
        {
            proof {
                assert(16 * k * update + 16 * id + 16 <= 16 * k * n + 16) by (nonlinear_arith)
                    requires
                        update < n,
                        id < k,
                ;
            }
            let mut decoder = ReorderDecoder::default();
            std::mem::swap(&mut decoder, &mut decoders[id]);
            let mut off = offline_until[id];
            let mut has_joined = joined[id];
            let mut late: Option<Packet> = None;
            std::mem::swap(&mut late, &mut delayed[id]);
            serve_client(
                id,
                &round,
                &mut decoder,
                &mut off,
                &mut has_joined,
                &mut late,
                &packet,
                &encoder,
                &state,
                &mut report,
                Ghost(pv),
                Ghost(fit),
            )?;
            offline_until.set(id, off);
            joined.set(id, has_joined);
            delayed.set(id, late);
            decoders.set(id, decoder);
            id = id + 1;
        }
        proof {
            assert(16 * k * update + 16 * k == 16 * k * (update + 1)) by (nonlinear_arith);
        }
        update = update + 1;
    }
    proof {
        if ok {
            assert(encoder@.policy.initial_choice(agent_snapshot(encoder@.sequence, state@)) is Some) by {
                reveal(choices_exist);
                assert(choice_at(pv, states@.len() - 1));
                reveal(snapshot_choice);
            }
        }
    }
    let final_snapshot = encoder.recovery_snapshot(&state)?;
    proof {
        if fit {
            lemma_recovery_genuine(encoder@, state@, pv, final_snapshot@);
        }
    }
    report.recovery_snapshots_built = report.recovery_snapshots_built + 1;
    let mut converged: usize = 0;
    let mut id: usize = 0;
    while id < client_count
        invariant
            id <= client_count,
            converged <= id,
            fit ==> converged == id,
            decoders@.len() == client_count,
            joined@.len() == client_count,
            forall|j: int| 0 <= j < client_count ==> (#[trigger] decoders@[j])@.wf(),
            forall|j: int|
                id <= j < client_count ==> fit ==> reorder_consistent(
                    (#[trigger] decoders@[j])@,
                    AdaptivePolicy::spec_default(),
                    pv,
                ),
            fit ==> payloads_fit(pv),
            fit ==> genuine(AdaptivePolicy::spec_default(), pv, final_snapshot@),
            fit ==> final_snapshot@.kind == PacketKind::Snapshot,
            fit ==> final_snapshot@.sequence == pv.len(),
            pv == published_states(states@),
            fit == payloads_fit(pv),
            ok == (fit && choices_exist(pv) && corruptions_detected(pv)),
            pv.len() >= 1,
            state@ == pv[pv.len() - 1],
        decreases client_count - id,
    {
        joined.set(id, true);
        let mut decoder = ReorderDecoder::default();
        std::mem::swap(&mut decoder, &mut decoders[id]);
        decoder.clear_pending();
        let ghost r0 = decoder@;
        let fk = final_snapshot.duplicate();
        let ghost fg = fk;
        let final_res = decoder.apply(fk);
        proof {
            if fit {
                lemma_reorder_consistent(r0, fg, decoder@, final_res, AdaptivePolicy::spec_default(), pv);
            }
            if fit && final_res is Ok {
                lemma_final_converges(r0, fg, decoder@, final_res, pv);
            }
        }
        let _ = final_res?;
        let matches = match decoder.state() {
            Some(s) => s.same_as(&state),
            None => false,
        };
        proof {
            if fit {
                assert(matches);
            }
        }
        if matches {
            converged = converged + 1;
        }
        decoders.set(id, decoder);
        id = id + 1;
    }
    report.final_sequence = encoder.sequence();
    report.converged_clients = converged;
    Ok(report)
}

} // verus!
