//! A deterministic multi-client fan-out simulation: independent loss,
//! duplicates, reordering and short disconnects, with snapshot recovery that
//! never advances the shared publisher sequence.
use crate::adaptive::{lemma_choice_no_worse, lemma_initial_choice_no_worse, AdaptivePolicy, EncodeDecision, EncodeMode};
use crate::binary::{agent_delta_bytes, agent_state_bytes, delta_between};
use crate::error::DeltaError;
use crate::packet::{carries, Packet, PacketKind, PacketView, MAX_LOGICAL_PAYLOAD};
use crate::replay::recorded;
use crate::state::{demo_view, AgentState, AgentStateView};
use crate::sync::{
    agent_choice, agent_delta, agent_in_step, chosen_payload, agent_snapshot, agent_step, behind, choice_at,
    choices_exist, cpu_step_exact, delta_choice, snapshot_choice,
    lemma_agent_decoder_follows_encoder, lemma_snapshot_applies, payloads_fit, published_states, recoverable,
    spec_agent_schema_hash, spec_fnv1a64, AgentOutcome, ApplyResult, Decoder, DecoderView, Encoder, EncoderView,
};
use vstd::prelude::*;

verus! {

/// Counters of the multi-client simulation.
#[derive(Debug, Clone, Default)]
pub struct MultiClientReport {
    pub clients: usize,
    pub updates: usize,
    pub deliveries: u64,
    pub drops: u64,
    pub duplicates: u64,
    pub reorders: u64,
    pub disconnects: u64,
    pub resyncs: u64,
    pub converged_clients: usize,
    pub final_sequence: u64,
}

impl MultiClientReport {
    /// Whether every client ended in the publisher's state.
    pub fn all_converged(&self) -> (b: bool)
        ensures
            b == (self.converged_clients == self.clients),
    {
        self.converged_clients == self.clients
    }
}

/// Sum of the event counters of a report.
pub open spec fn events(r: MultiClientReport) -> int {
    r.deliveries + r.drops + r.duplicates + r.reorders + r.disconnects + r.resyncs
}

/// A snapshot of `s` the encoder would send to recover a client.
pub open spec fn recovery_of(e: EncoderView, s: AgentStateView, q: PacketView) -> bool {
    &&& e.policy.initial_choice(agent_snapshot(e.sequence, s)) matches Some((p, _)) && p == q
    &&& carries(q, agent_state_bytes(s))
}

/// The decoder after a packet that it applied, ignored as a duplicate, or
/// answered with a need for the snapshot `q`.
pub open spec fn after_packet(old: DecoderView, p: PacketView, new: DecoderView) -> bool {
    match agent_step(old, p) {
        AgentOutcome::Applied { sequence, state } => new == (DecoderView {
            sequence: Some(sequence),
            state: Some(state),
            replay: recorded(old.replay, sequence),
        }),
        AgentOutcome::Duplicate { .. } => new == old,
        _ => false,
    }
}

/// What a successful delivery did: applied or ignored the packet, or, when the
/// client needed a snapshot, applied or ignored the recovery snapshot.
pub open spec fn delivered(old: DecoderView, p: PacketView, e: EncoderView, s: AgentStateView, new: DecoderView) -> bool {
    if agent_step(old, p) is NeedSnapshot {
        exists|q: PacketView| recovery_of(e, s, q) && #[trigger] after_packet(old, q, new)
    } else {
        after_packet(old, p, new)
    }
}

/// A delivery succeeds: the packet is applied or a duplicate, or the client
/// needs a snapshot and the encoder's recovery snapshot exists and is applied
/// or a duplicate.
pub open spec fn delivery_ok(old: DecoderView, p: PacketView, e: EncoderView, s: AgentStateView) -> bool {
    match agent_step(old, p) {
        AgentOutcome::Applied { .. } => true,
        AgentOutcome::Duplicate { .. } => true,
        AgentOutcome::NeedSnapshot { .. } => e.policy.initial_choice(agent_snapshot(e.sequence, s)) matches Some(
            (q, _),
        ) && (carries(q, agent_state_bytes(s)) ==> agent_step(old, q) is Applied || agent_step(old, q) is Duplicate),
        _ => false,
    }
}

fn deliver(
    decoder: &mut Decoder,
    packet: Packet,
    encoder: &Encoder,
    state: &AgentState,
    report: &mut MultiClientReport,
) -> (res: Result<(), DeltaError>)
    requires
        old(decoder)@.wf(),
        events(*old(report)) + 2 <= u64::MAX,
    ensures
        final(decoder)@.wf(),
        res is Ok ==> delivered(old(decoder)@, packet@, encoder@, state@, final(decoder)@),
        res is Ok <==> delivery_ok(old(decoder)@, packet@, encoder@, state@),
        events(*final(report)) <= events(*old(report)) + 2,
        final(report).clients == old(report).clients,
        final(report).updates == old(report).updates,
        final(report).converged_clients == old(report).converged_clients,
        final(report).final_sequence == old(report).final_sequence,
{
    let ghost d0 = decoder@;
    let ghost pv = packet@;
    match decoder.apply_packet(packet)? {
        ApplyResult::Applied { .. } => {
            assert(after_packet(d0, pv, decoder@));
            report.deliveries = report.deliveries + 1;
        },
        ApplyResult::Duplicate { .. } => {
            assert(after_packet(d0, pv, decoder@));
            report.duplicates = report.duplicates + 1;
        },
        ApplyResult::NeedSnapshot { .. } => {
            assert(agent_step(d0, pv) is NeedSnapshot);
            assert(decoder@ == d0);
            report.resyncs = report.resyncs + 1;
            let recovery = encoder.recovery_snapshot(state)?;
            let ghost qv = recovery@;
            assert(recovery_of(encoder@, state@, qv));
            match decoder.apply_packet(recovery)? {
                ApplyResult::Applied { .. } | ApplyResult::Duplicate { .. } => {
                    assert(after_packet(d0, qv, decoder@));
                    report.deliveries = report.deliveries + 1;
                },
                ApplyResult::NeedSnapshot { .. } => {
                    return Err(DeltaError::InvalidState("multi-client recovery failed"));
                },
            }
        },
    }
    Ok(())
}

/// A client that was in step with the encoder, or behind it, and then got the
/// encoder's next packet delivered, is in step with the encoder afterwards.
#[verifier::rlimit(60)]
#[verifier::spinoff_prover]
proof fn lemma_current_delivery(
    d0: DecoderView,
    e0: EncoderView,
    e1: EncoderView,
    cur: AgentStateView,
    p: PacketView,
    decision: EncodeDecision,
    new: DecoderView,
)
    requires
        d0.wf(),
        recoverable(d0, e0),
        e0.last_state is None ==> e0.sequence == 0,
        e0.sequence < u64::MAX,
        e1.sequence == e0.sequence + 1,
        e1.last_state == Some(cur),
        e1.policy == e0.policy,
        agent_choice(e0, e1.sequence, cur) == Some((p, decision)),
        carries(p, chosen_payload(decision.mode, e0.last_state, cur)),
        chosen_payload(decision.mode, e0.last_state, cur).len() <= MAX_LOGICAL_PAYLOAD,
        agent_state_bytes(cur).len() <= MAX_LOGICAL_PAYLOAD,
        e0.last_state matches Some(prev) ==> cpu_step_exact(prev, cur),
        delivered(d0, p, e1, cur, new),
    ensures
        agent_in_step(new, e1),
{
    let seq = e1.sequence;
    if agent_in_step(d0, e0) {
        lemma_agent_decoder_follows_encoder(d0, e0, cur, p, decision);
        assert(after_packet(d0, p, new));
    } else {
        assert(e0.last_state is Some);
        let prev = e0.last_state->0;
        let snap = agent_snapshot(seq, cur);
        let delta = agent_delta(seq, prev, cur);
        lemma_choice_no_worse(e0.policy, snap, delta);
        if decision.mode == EncodeMode::Delta || decision.mode == EncodeMode::DeltaZstd {
            assert(p.kind == PacketKind::Delta && p.sequence == seq && p.base_sequence == e0.sequence
                && p.schema_hash == spec_agent_schema_hash());
            assert(!d0.replay.seen.contains(seq)) by {
                if d0.replay.seen.contains(seq) {
                    let k = choose|k: int| 0 <= k < d0.replay.seen.len() && d0.replay.seen[k] == seq;
                    assert(d0.replay.seen[k] == seq);
                }
            }
            assert(agent_step(d0, p) is NeedSnapshot);
            let q = choose|q: PacketView| recovery_of(e1, cur, q) && #[trigger] after_packet(d0, q, new);
            lemma_initial_choice_no_worse(e1.policy, agent_snapshot(seq, cur));
            lemma_snapshot_applies(d0, q, seq, cur);
        } else {
            assert(p.kind == PacketKind::Snapshot && p.sequence == seq && p.schema_hash
                == spec_agent_schema_hash() && p.base_hash == spec_fnv1a64(agent_state_bytes(cur)));
            lemma_snapshot_applies(d0, p, seq, cur);
        }
    }
}

/// A client that was in step with the encoder, or behind it, takes the
/// encoder's next packet without error, given that the recovery snapshot of the
/// new state exists.
#[verifier::rlimit(60)]
#[verifier::spinoff_prover]
pub(crate) proof fn lemma_current_delivery_ok(
    d0: DecoderView,
    e0: EncoderView,
    e1: EncoderView,
    cur: AgentStateView,
    p: PacketView,
    decision: EncodeDecision,
)
    requires
        d0.wf(),
        fits_step(e0, e1, cur, p, decision),
        recoverable(d0, e0),
        e1.policy.initial_choice(agent_snapshot(e1.sequence, cur)) is Some,
    ensures
        delivery_ok(d0, p, e1, cur),
{
    let seq = e1.sequence;
    if agent_in_step(d0, e0) {
        lemma_agent_decoder_follows_encoder(d0, e0, cur, p, decision);
    } else {
        assert(e0.last_state is Some);
        let prev = e0.last_state->0;
        let snap = agent_snapshot(seq, cur);
        let delta = agent_delta(seq, prev, cur);
        lemma_choice_no_worse(e0.policy, snap, delta);
        if decision.mode == EncodeMode::Delta || decision.mode == EncodeMode::DeltaZstd {
            assert(p.kind == PacketKind::Delta && p.sequence == seq && p.base_sequence == e0.sequence
                && p.schema_hash == spec_agent_schema_hash());
            assert(!d0.replay.seen.contains(seq)) by {
                if d0.replay.seen.contains(seq) {
                    let k = choose|k: int| 0 <= k < d0.replay.seen.len() && d0.replay.seen[k] == seq;
                    assert(d0.replay.seen[k] == seq);
                }
            }
            assert(agent_step(d0, p) is NeedSnapshot);
            let (q, _) = e1.policy.initial_choice(agent_snapshot(seq, cur))->0;
            lemma_initial_choice_no_worse(e1.policy, agent_snapshot(seq, cur));
            if carries(q, agent_state_bytes(cur)) {
                lemma_snapshot_applies(d0, q, seq, cur);
            }
        } else {
            assert(p.kind == PacketKind::Snapshot && p.sequence == seq && p.schema_hash
                == spec_agent_schema_hash() && p.base_hash == spec_fnv1a64(agent_state_bytes(cur)));
            lemma_snapshot_applies(d0, p, seq, cur);
        }
    }
}

/// A packet no newer than what a decoder has committed is a duplicate to it,
/// or carries another schema.
proof fn lemma_stale_is_duplicate(d: DecoderView, p: PacketView)
    requires
        d.wf(),
        d.sequence matches Some(l) && p.sequence <= l,
    ensures
        agent_step(d, p) is Duplicate || agent_step(d, p) is SchemaMismatch,
{
}

/// The recovery snapshot of the encoder's last state leaves a client that is
/// in step or behind holding that state.
proof fn lemma_final_delivery(d: DecoderView, e: EncoderView, last: AgentStateView, q: PacketView)
    requires
        d.wf(),
        recoverable(d, e),
        e.last_state is None ==> e.sequence == 0,
        e.last_state matches Some(s) ==> s == last,
        recovery_of(e, last, q),
        agent_state_bytes(last).len() <= MAX_LOGICAL_PAYLOAD,
    ensures
        agent_step(d, q) == (AgentOutcome::Applied { sequence: e.sequence, state: last }) || (agent_step(d, q)
            is Duplicate && d.state == Some(last)),
{
    lemma_initial_choice_no_worse(e.policy, agent_snapshot(e.sequence, last));
    if agent_in_step(d, e) && e.last_state is Some {
        assert(d.replay.seen.contains(e.sequence));
    } else {
        lemma_snapshot_applies(d, q, e.sequence, last);
    }
}

/// The encoder went from `e0` to `e1` by publishing `cur` as packet `p` with
/// `decision`, within the decoder's payload limit and without a CPU load step
/// between the zeros.
pub open spec fn fits_step(
    e0: EncoderView,
    e1: EncoderView,
    cur: AgentStateView,
    p: PacketView,
    decision: EncodeDecision,
) -> bool {
    &&& e0.last_state is None ==> e0.sequence == 0
    &&& e0.sequence < u64::MAX
    &&& e1.sequence == e0.sequence + 1
    &&& e1.last_state == Some(cur)
    &&& e1.policy == e0.policy
    &&& agent_choice(e0, e1.sequence, cur) == Some((p, decision))
    &&& carries(p, chosen_payload(decision.mode, e0.last_state, cur))
    &&& chosen_payload(decision.mode, e0.last_state, cur).len() <= MAX_LOGICAL_PAYLOAD
    &&& agent_state_bytes(cur).len() <= MAX_LOGICAL_PAYLOAD
    &&& (e0.last_state matches Some(prev) ==> cpu_step_exact(prev, cur))
}

/// Every packet the encoder chooses carries the agent schema.
proof fn lemma_packet_schema(e: EncoderView, seq: u64, cur: AgentStateView, p: PacketView, d: EncodeDecision)
    requires
        agent_choice(e, seq, cur) == Some((p, d)),
    ensures
        p.schema_hash == spec_agent_schema_hash(),
{
    match e.last_state {
        None => {
            lemma_initial_choice_no_worse(e.policy, agent_snapshot(seq, cur));
        },
        Some(prev) => {
            lemma_choice_no_worse(e.policy, agent_snapshot(seq, cur), agent_delta(seq, prev, cur));
        },
    }
}

proof fn lemma_choice_sequence(e: EncoderView, seq: u64, cur: AgentStateView, p: PacketView, d: EncodeDecision)
    requires
        agent_choice(e, seq, cur) == Some((p, d)),
    ensures
        p.sequence == seq,
{
    match e.last_state {
        None => {
            lemma_initial_choice_no_worse(e.policy, agent_snapshot(seq, cur));
        },
        Some(prev) => {
            lemma_choice_no_worse(e.policy, agent_snapshot(seq, cur), agent_delta(seq, prev, cur));
        },
    }
}

/// One client's share of an update: it may go offline, lose the packet, have
/// it held back, or be served it.
#[verifier::rlimit(60)]
#[verifier::spinoff_prover]
fn step_client(
    decoders: &mut Vec<Decoder>,
    offline_until: &mut Vec<usize>,
    delayed: &mut Vec<Option<Packet>>,
    id: usize,
    update: usize,
    packet: &Packet,
    encoder: &Encoder,
    state: &AgentState,
    report: &mut MultiClientReport,
    Ghost(e0): Ghost<EncoderView>,
    Ghost(decision): Ghost<EncodeDecision>,
    Ghost(good): Ghost<bool>,
) -> (res: Result<(), DeltaError>)
    requires
        id < old(decoders)@.len(),
        old(offline_until)@.len() == old(decoders)@.len(),
        old(delayed)@.len() == old(decoders)@.len(),
        old(decoders)@[id as int]@.wf(),
        events(*old(report)) + 8 <= u64::MAX,
        e0.sequence == update,
        good ==> {
            &&& recoverable(old(decoders)@[id as int]@, e0)
            &&& fits_step(e0, encoder@, state@, packet@, decision)
            &&& (old(delayed)@[id as int] matches Some(p) ==> p@.sequence <= update)
        },
    ensures
        final(decoders)@.len() == old(decoders)@.len(),
        final(offline_until)@.len() == old(offline_until)@.len(),
        final(delayed)@.len() == old(delayed)@.len(),
        forall|j: int| 0 <= j < old(decoders)@.len() && j != id ==> final(decoders)@[j] == old(decoders)@[j],
        forall|j: int| 0 <= j < old(delayed)@.len() && j != id ==> final(delayed)@[j] == old(delayed)@[j],
        final(decoders)@[id as int]@.wf(),
        events(*final(report)) <= events(*old(report)) + 8,
        final(report).clients == old(report).clients,
        final(report).updates == old(report).updates,
        final(report).converged_clients == old(report).converged_clients,
        final(report).final_sequence == old(report).final_sequence,
        res is Ok && good ==> recoverable(final(decoders)@[id as int]@, encoder@),
        good ==> (final(delayed)@[id as int] matches Some(p) ==> p@.sequence <= update + 1),
        good && (old(delayed)@[id as int] is Some ==> old(delayed)@[id as int]->0@.schema_hash
            == spec_agent_schema_hash()) ==> (final(delayed)@[id as int] is Some
            ==> final(delayed)@[id as int]->0@.schema_hash == spec_agent_schema_hash()),
        good && encoder@.policy.initial_choice(agent_snapshot(encoder@.sequence, state@)) is Some && (old(
            delayed,
        )@[id as int] is Some ==> old(delayed)@[id as int]->0@.schema_hash == spec_agent_schema_hash()) ==> res is Ok,
{
    proof {
        if good {
            lemma_packet_schema(e0, encoder@.sequence, state@, packet@, decision);
            lemma_choice_sequence(e0, encoder@.sequence, state@, packet@, decision);
            let d = decoders@[id as int]@;
            if agent_in_step(d, e0) && e0.last_state is Some {
                assert(behind(d, encoder@.sequence));
            }
        }
    }
    if update > 0 && (update as u128 + id as u128 * 13) % 997 == 0 {
        offline_until.set(id, update.saturating_add(5));
        report.disconnects = report.disconnects + 1;
    }
    if update < offline_until[id] {
        report.drops = report.drops + 1;
        return Ok(());
    }
    if update > 0 && (update as u128 + id as u128 * 17) % 211 == 0 {
        report.drops = report.drops + 1;
        return Ok(());
    }
    if update > 0 && packet.kind == PacketKind::Delta && (update as u128 + id as u128 * 19) % 389 == 0
        && delayed[id].is_none() {
        delayed.set(id, Some(packet.duplicate()));
        report.reorders = report.reorders + 1;
        return Ok(());
    }
    let mut decoder = Decoder::default();
    std::mem::swap(&mut decoder, &mut decoders[id]);
    let mut late: Option<Packet> = None;
    std::mem::swap(&mut late, &mut delayed[id]);
    let twice = update > 0 && (update as u128 + id as u128 * 23) % 307 == 0;
    let r = serve_client(
        &mut decoder,
        packet,
        twice,
        late,
        encoder,
        state,
        report,
        Ghost(e0),
        Ghost(decision),
        Ghost(good),
    );
    decoders.set(id, decoder);
    r
}

/// Delivers the encoder's latest packet to one client, a second time when
/// `twice`, then the packet it held back, if any; a client that was in step or
/// behind ends in step.
#[verifier::rlimit(60)]
fn serve_client(
    decoder: &mut Decoder,
    packet: &Packet,
    twice: bool,
    late: Option<Packet>,
    encoder: &Encoder,
    state: &AgentState,
    report: &mut MultiClientReport,
    Ghost(e0): Ghost<EncoderView>,
    Ghost(decision): Ghost<EncodeDecision>,
    Ghost(good): Ghost<bool>,
) -> (res: Result<(), DeltaError>)
    requires
        old(decoder)@.wf(),
        events(*old(report)) + 6 <= u64::MAX,
        good ==> {
            &&& recoverable(old(decoder)@, e0)
            &&& fits_step(e0, encoder@, state@, packet@, decision)
            &&& (late matches Some(p) ==> p@.sequence <= e0.sequence)
        },
    ensures
        final(decoder)@.wf(),
        events(*final(report)) <= events(*old(report)) + 6,
        final(report).clients == old(report).clients,
        final(report).updates == old(report).updates,
        final(report).converged_clients == old(report).converged_clients,
        final(report).final_sequence == old(report).final_sequence,
        res is Ok && good ==> agent_in_step(final(decoder)@, encoder@),
        good && encoder@.policy.initial_choice(agent_snapshot(encoder@.sequence, state@)) is Some && (late matches Some(
            p,
        ) ==> p@.schema_hash == spec_agent_schema_hash()) ==> res is Ok,
{
    let ghost d0 = decoder@;
    let ghost ok = good && encoder@.policy.initial_choice(agent_snapshot(encoder@.sequence, state@)) is Some && (
    late is Some ==> late->0@.schema_hash == spec_agent_schema_hash());
    proof {
        if ok {
            lemma_current_delivery_ok(d0, e0, encoder@, state@, packet@, decision);
        }
    }
    deliver(decoder, packet.duplicate(), encoder, state, report)?;
    proof {
        if good {
            lemma_current_delivery(d0, e0, encoder@, state@, packet@, decision, decoder@);
        }
        if ok {
            lemma_choice_sequence(e0, encoder@.sequence, state@, packet@, decision);
            lemma_packet_schema(e0, encoder@.sequence, state@, packet@, decision);
        }
    }
    if twice {
        let ghost d1 = decoder@;
        deliver(decoder, packet.duplicate(), encoder, state, report)?;
        proof {
            if good {
                lemma_stale_is_duplicate(d1, packet@);
            }
        }
    }
    if let Some(p) = late {
        let ghost d2 = decoder@;
        deliver(decoder, p, encoder, state, report)?;
        proof {
            if good {
                lemma_stale_is_duplicate(d2, p@);
            }
        }
    }
    Ok(())
}

/// Fans each of `states` out to `clients` receivers (at least one). Client `id`
/// goes offline for five updates when `(update + 13 id) % 997 == 0`, loses the
/// update when `(update + 17 id) % 211 == 0`, receives a delta late when
/// `(update + 19 id) % 389 == 0`, and gets it twice when
/// `(update + 23 id) % 307 == 0`. A final snapshot goes to every client, and the
/// report counts the clients that end in the last state: all of them when
/// every payload fits the decoder's limit and no CPU load steps between the zeros.
#[verifier::rlimit(100)]
#[verifier::spinoff_prover]
pub fn run_deterministic(clients: usize, states: &[AgentState]) -> (res: Result<MultiClientReport, DeltaError>)
    requires
        8 * (if clients < 1 { 1 } else { clients as int }) * states@.len() + 8 <= u64::MAX,
    ensures
        res matches Ok(r) ==> {
            &&& r.clients == if clients < 1 {
                1
            } else {
                clients
            }
            &&& r.updates == states@.len()
            &&& r.final_sequence == states@.len()
            &&& r.converged_clients <= r.clients
            &&& payloads_fit(published_states(states@)) ==> r.converged_clients == r.clients
        },
        payloads_fit(published_states(states@)) && choices_exist(published_states(states@)) && (states@.len()
            == 0 ==> snapshot_choice(0, demo_view())) ==> res is Ok,
{
    let ghost ps = published_states(states@);
    let ghost fit = payloads_fit(ps);
    let ghost ok = fit && choices_exist(ps) && (states@.len() == 0 ==> snapshot_choice(0, demo_view()));
    let client_count = if clients < 1 {
        1
    } else {
        clients
    };
    let updates = states.len();
    let mut report = MultiClientReport {
        clients: client_count,
        updates,
        deliveries: 0,
        drops: 0,
        duplicates: 0,
        reorders: 0,
        disconnects: 0,
        resyncs: 0,
        converged_clients: 0,
        final_sequence: 0,
    };
    let mut encoder = Encoder::default();
    let mut state = AgentState::demo();
    let mut decoders: Vec<Decoder> = Vec::new();
    let mut offline_until: Vec<usize> = Vec::new();
    let mut delayed: Vec<Option<Packet>> = Vec::new();
    let mut c: usize = 0;
    while c < client_count
        invariant
            c <= client_count,
            decoders@.len() == c,
            offline_until@.len() == c,
            delayed@.len() == c,
            forall|j: int| 0 <= j < c ==> (#[trigger] decoders@[j])@.wf(),
            forall|j: int| 0 <= j < c ==> (#[trigger] decoders@[j])@.sequence is None,
            forall|j: int| 0 <= j < c ==> (#[trigger] delayed@[j]) is None,
        decreases client_count - c,
    {
        decoders.push(Decoder::default());
        offline_until.push(0);
        delayed.push(None);
        c = c + 1;
    }
    let ghost n = updates as int;
    let ghost k = client_count as int;
    let mut update: usize = 0;
    while update < updates
        invariant
            update <= updates,
            updates == states@.len(),
            n == updates,
            k == client_count,
            8 * k * n + 8 <= u64::MAX,
            ps == published_states(states@),
            fit == payloads_fit(ps),
            decoders@.len() == client_count,
            offline_until@.len() == client_count,
            delayed@.len() == client_count,
            forall|j: int| 0 <= j < client_count ==> (#[trigger] decoders@[j])@.wf(),
            forall|j: int| 0 <= j < client_count ==> fit ==> recoverable((#[trigger] decoders@[j])@, encoder@),
            forall|j: int|
                0 <= j < client_count ==> fit ==> (#[trigger] delayed@[j] matches Some(p) ==> p@.sequence
                    <= update),
            forall|j: int|
                0 <= j < client_count ==> ok ==> ((#[trigger] delayed@[j]) is Some ==> delayed@[j]->0@.schema_hash
                    == spec_agent_schema_hash()),
            ok == (fit && choices_exist(ps) && (states@.len() == 0 ==> snapshot_choice(0, demo_view()))),
            encoder@.policy == AdaptivePolicy::spec_default(),
            encoder@.sequence == update,
            update == 0 ==> encoder@.last_state is None,
            update > 0 ==> encoder@.last_state == Some(states@[update - 1]@),
            state@ == if update == 0 {
                demo_view()
            } else {
                states@[update - 1]@
            },
            report.clients == client_count,
            report.updates == updates,
            report.converged_clients == 0,
            report.final_sequence == 0,
            events(report) <= 8 * k * update,
        decreases updates - update,
    {
        state = states[update].clone();
        let ghost e0 = encoder@;
        let ghost cur = state@;
        proof {
            if ok {
                assert(choice_at(ps, update as int)) by {
                    reveal(choices_exist);
                }
                assert(agent_choice(encoder@, (update + 1) as u64, state@) is Some) by {
                    assert(ps[update as int] == states@[update as int]@);
                    if update > 0 {
                        assert(ps[update - 1] == states@[update - 1]@);
                    }
                    reveal(snapshot_choice);
                    reveal(delta_choice);
                }
            }
        }
        let packet = encoder.encode(&state)?;
        let ghost e1 = encoder@;
        let ghost decision = e1.last_decision->0;
        proof {
            assert(ps[update as int] == states@[update as int]@);
            if update > 0 {
                assert(ps[update - 1] == states@[update - 1]@);
            }
            if fit {
                assert(agent_state_bytes(ps[update as int]).len() <= MAX_LOGICAL_PAYLOAD);
                if update > 0 {
                    assert(agent_delta_bytes(delta_between(ps[update - 1], ps[update as int]))->0.len()
                        <= MAX_LOGICAL_PAYLOAD && cpu_step_exact(ps[update - 1], ps[update as int]));
                }
                assert(fits_step(e0, e1, cur, packet@, decision));
            }
            if ok {
                assert(e1.policy.initial_choice(agent_snapshot(e1.sequence, cur)) is Some) by {
                    reveal(snapshot_choice);
                }
            }
        }
        let mut id: usize = 0;
        while id < client_count
            invariant
                update < updates,
                id <= client_count,
                8 * k * n + 8 <= u64::MAX,
                n == updates,
                k == client_count,
                decoders@.len() == client_count,
                offline_until@.len() == client_count,
                delayed@.len() == client_count,
                forall|j: int| 0 <= j < client_count ==> (#[trigger] decoders@[j])@.wf(),
                forall|j: int| 0 <= j < id ==> fit ==> recoverable((#[trigger] decoders@[j])@, e1),
                forall|j: int| id <= j < client_count ==> fit ==> recoverable((#[trigger] decoders@[j])@, e0),
                forall|j: int|
                    0 <= j < id ==> fit ==> (#[trigger] delayed@[j] matches Some(p) ==> p@.sequence <= update + 1),
                forall|j: int|
                    id <= j < client_count ==> fit ==> (#[trigger] delayed@[j] matches Some(p) ==> p@.sequence
                        <= update),
                forall|j: int|
                    0 <= j < client_count ==> ok ==> ((#[trigger] delayed@[j]) is Some ==> delayed@[j]->0@.schema_hash
                        == spec_agent_schema_hash()),
                ps == published_states(states@),
                fit == payloads_fit(ps),
                ok == (fit && choices_exist(ps) && (states@.len() == 0 ==> snapshot_choice(0, demo_view()))),
                ok ==> e1.policy.initial_choice(agent_snapshot(e1.sequence, cur)) is Some,
                encoder@ == e1,
                e0.sequence == update,
                state@ == cur,
                fit ==> fits_step(e0, e1, cur, packet@, decision),
                report.clients == client_count,
                report.updates == updates,
                report.converged_clients == 0,
                report.final_sequence == 0,
                events(report) <= 8 * k * update + 8 * id,
            decreases client_count - id,
        {
            proof {
                assert(8 * k * update + 8 * id + 8 <= 8 * k * n + 8) by (nonlinear_arith)
                    requires
                        update < n,
                        id < k,
                ;
            }
            step_client(
                &mut decoders,
                &mut offline_until,
                &mut delayed,
                id,
                update,
                &packet,
                &encoder,
                &state,
                &mut report,
                Ghost(e0),
                Ghost(decision),
                Ghost(fit),
            )?;
            id = id + 1;
        }
        proof {
            assert(8 * k * update + 8 * k == 8 * k * (update + 1)) by (nonlinear_arith);
            assert forall|j: int| 0 <= j < client_count implies fit ==> recoverable(
                (#[trigger] decoders@[j])@,
                encoder@,
            ) by {}
        }
        update = update + 1;
    }
    let ghost ef = encoder@;
    proof {
        if ok {
            assert(encoder@.policy.initial_choice(agent_snapshot(encoder@.sequence, state@)) is Some) by {
                if states@.len() > 0 {
                    reveal(choices_exist);
                    assert(choice_at(ps, states@.len() - 1));
                    assert(ps[states@.len() - 1] == states@[states@.len() - 1]@);
                }
                reveal(snapshot_choice);
            }
        }
    }
    let final_snapshot = encoder.recovery_snapshot(&state)?;
    proof {
        if fit {
            if states@.len() == 0 {
                assert(ps[0] == demo_view());
            } else {
                assert(ps[states@.len() - 1] == states@[states@.len() - 1]@);
            }
            assert(agent_state_bytes(state@).len() <= MAX_LOGICAL_PAYLOAD);
        }
        assert(recovery_of(ef, state@, final_snapshot@));
    }
    let mut converged: usize = 0;
    let mut id: usize = 0;
    while id < client_count
        invariant
            id <= client_count,
            converged <= id,
            fit ==> converged == id,
            ps == published_states(states@),
            fit == payloads_fit(ps),
            ok == (fit && choices_exist(ps) && (states@.len() == 0 ==> snapshot_choice(0, demo_view()))),
            decoders@.len() == client_count,
            forall|j: int| 0 <= j < client_count ==> (#[trigger] decoders@[j])@.wf(),
            forall|j: int| id <= j < client_count ==> fit ==> recoverable((#[trigger] decoders@[j])@, ef),
            encoder@ == ef,
            ef.last_state is None ==> ef.sequence == 0,
            ef.last_state matches Some(s) ==> s == state@,
            recovery_of(ef, state@, final_snapshot@),
            fit ==> agent_state_bytes(state@).len() <= MAX_LOGICAL_PAYLOAD,
        decreases client_count - id,
    {
        let mut decoder = Decoder::default();
        std::mem::swap(&mut decoder, &mut decoders[id]);
        let ghost d = decoder@;
        proof {
            if fit {
                assert(recoverable(d, ef));
                lemma_final_delivery(d, ef, state@, final_snapshot@);
            }
        }
        let _ = decoder.apply_packet(final_snapshot.duplicate())?;
        let matches = match decoder.state() {
            Some(s) => s.same_as(&state),
            None => false,
        };
        proof {
            if fit {
                assert(decoder@.state == Some(state@));
                assert(matches);
            }
        }
        if matches {
            converged = converged + 1;
        }
        decoders.set(id, decoder);
        id = id + 1;
    }
    report.final_sequence = encoder.sequence();
    report.converged_clients = converged;
    Ok(report)
}

} // verus!
