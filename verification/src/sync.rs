use crate::adaptive::{AdaptivePolicy, EncodeDecision, EncodeMode};
use crate::binary::{
    agent_delta_bytes, agent_state_bytes, decode_agent_delta, decode_agent_state, delta_apply,
    delta_between, encode_agent_delta, encode_agent_state, f32_bits_eq, lemma_agent_delta_roundtrip,
    lemma_agent_state_roundtrip, lemma_apply_between, lemma_between_consistent, parse_agent_delta,
    parse_agent_state, AgentDelta,
};
use crate::adaptive::{lemma_choice_no_worse, lemma_initial_choice_no_worse};
use crate::state::{demo_view, AgentState, AgentStateView};
use crate::error::DeltaError;
use crate::packet::{
    carries, delta_packet, logical_of, logical_payload_matches, snapshot_packet, DecodeConfig, Packet,
    PacketKind, PacketView, MAX_LOGICAL_PAYLOAD,
};
use crate::replay::{keep_last, recorded, window_wf, ReplayView, ReplayWindow};
use crate::schema::{schema_hash, spec_schema_hash, DeltaState, SnapshotMigration};
use vstd::pervasive::cloned;
use vstd::prelude::*;
use vstd::string::*;

verus! {

/// The FNV-1a offset basis.
pub const FNV_OFFSET: u64 = 0xcbf29ce484222325;

/// The FNV-1a 64-bit prime.
pub const FNV_PRIME: u64 = 0x100000001b3;

/// Name of the built-in agent-state schema.
pub const AGENT_SCHEMA_NAME: &'static str = "delta-stream/AgentState/v2";

/// One FNV-1a round: xor the byte in, then multiply modulo 2^64.
pub open spec fn fnv_step(hash: u64, b: u8) -> u64 {
    (hash ^ (b as u64)).wrapping_mul(FNV_PRIME)
}

/// FNV-1a 64 of a byte sequence, folding from the left.
pub open spec fn spec_fnv1a64(bytes: Seq<u8>) -> u64
    decreases bytes.len(),
{
    if bytes.len() == 0 {
        FNV_OFFSET
    } else {
        fnv_step(spec_fnv1a64(bytes.drop_last()), bytes.last())
    }
}

/// FNV-1a 64-bit hash of `bytes`.
pub fn fnv1a64(bytes: &[u8]) -> (h: u64)
    ensures
        h == spec_fnv1a64(bytes@),
{
    let mut hash: u64 = FNV_OFFSET;
    let mut i: usize = 0;
    while i < bytes.len()
        invariant
            i <= bytes@.len(),
            hash == spec_fnv1a64(bytes@.take(i as int)),
        decreases bytes@.len() - i,
    {
        let b = bytes[i];
        proof {
            assert(bytes@.take(i + 1).drop_last() =~= bytes@.take(i as int));
        }
        hash = (hash ^ (b as u64)).wrapping_mul(FNV_PRIME);
        i = i + 1;
    }
    proof {
        assert(bytes@.take(bytes@.len() as int) =~= bytes@);
    }
    hash
}

/// Hash of the built-in agent-state schema name.
pub open spec fn spec_agent_schema_hash() -> u64 {
    spec_fnv1a64(AGENT_SCHEMA_NAME.spec_bytes())
}

/// Hash of the built-in agent-state schema name.
pub fn agent_schema_hash() -> (h: u64)
    ensures
        h == spec_agent_schema_hash(),
{
    fnv1a64(AGENT_SCHEMA_NAME.as_bytes())
}

/// Hash of an agent state: FNV-1a 64 of its snapshot encoding.
pub fn state_hash(state: &AgentState) -> (res: Result<u64, DeltaError>)
    ensures
        res == Ok::<u64, DeltaError>(spec_fnv1a64(agent_state_bytes(state@))),
{
    let bytes = encode_agent_state(state)?;
    Ok(fnv1a64(bytes.as_slice()))
}

/// The raw snapshot packet of an agent state.
pub open spec fn agent_snapshot(sequence: u64, s: AgentStateView) -> PacketView {
    snapshot_packet(sequence, spec_agent_schema_hash(), agent_state_bytes(s))
}

/// The raw delta packet from `previous` to `current`.
pub open spec fn agent_delta(sequence: u64, previous: AgentStateView, current: AgentStateView) -> PacketView {
    delta_packet(
        sequence,
        spec_agent_schema_hash(),
        agent_state_bytes(previous),
        agent_delta_bytes(delta_between(previous, current))->0,
    )
}

fn raw_snapshot(sequence: u64, state: &AgentState) -> (res: Result<Packet, DeltaError>)
    ensures
        res matches Ok(p) && p@ == agent_snapshot(sequence, state@) && !p@.is_compressed(),
{
    let hash = state_hash(state)?;
    let bytes = encode_agent_state(state)?;
    Ok(Packet::snapshot(sequence, hash, agent_schema_hash(), bytes))
}

/// Publishes agent states: a snapshot first, then whichever of snapshot or
/// delta, raw or compressed, the policy finds cheapest.
#[derive(Debug)]
pub struct Encoder {
    sequence: u64,
    last_state: Option<AgentState>,
    policy: AdaptivePolicy,
    last_decision: Option<EncodeDecision>,
}

/// The state of an [`Encoder`].
pub struct EncoderView {
    pub sequence: u64,
    pub last_state: Option<AgentStateView>,
    pub policy: AdaptivePolicy,
    pub last_decision: Option<EncodeDecision>,
}

/// The content of an optional agent state.
pub open spec fn opt_agent(o: Option<AgentState>) -> Option<AgentStateView> {
    match o {
        Some(s) => Some(s@),
        None => None,
    }
}

impl View for Encoder {
    type V = EncoderView;

    closed spec fn view(&self) -> EncoderView {
        EncoderView {
            sequence: self.sequence,
            last_state: opt_agent(self.last_state),
            policy: self.policy,
            last_decision: self.last_decision,
        }
    }
}

/// What an encoder in state `e` sends for `current` at `sequence`: the policy's
/// pick for the snapshot alone at first, afterwards between the snapshot and the
/// delta from the last state.
pub open spec fn agent_choice(e: EncoderView, sequence: u64, current: AgentStateView) -> Option<
    (PacketView, EncodeDecision),
> {
    match e.last_state {
        None => e.policy.initial_choice(agent_snapshot(sequence, current)),
        Some(previous) => e.policy.choice(
            agent_snapshot(sequence, current),
            agent_delta(sequence, previous, current),
        ),
    }
}

/// The uncompressed payload behind a choice: the snapshot encoding for a
/// snapshot mode, the delta encoding for a delta mode.
pub open spec fn chosen_payload(
    mode: EncodeMode,
    previous: Option<AgentStateView>,
    current: AgentStateView,
) -> Seq<u8> {
    match (mode, previous) {
        (EncodeMode::Delta, Some(prev)) => agent_delta_bytes(delta_between(prev, current))->0,
        (EncodeMode::DeltaZstd, Some(prev)) => agent_delta_bytes(delta_between(prev, current))->0,
        _ => agent_state_bytes(current),
    }
}

impl Encoder {
    /// An encoder at sequence zero with the given policy.
    pub fn with_policy(policy: AdaptivePolicy) -> (e: Self)
        ensures
            e@ == (EncoderView { sequence: 0, last_state: None, policy, last_decision: None }),
    {
        Encoder { sequence: 0, last_state: None, policy, last_decision: None }
    }

    /// Encodes the next state; fails only when the compressor does, and the
    /// sequence advances either way.
    pub fn encode(&mut self, state: &AgentState) -> (res: Result<Packet, DeltaError>)
        ensures
            final(self)@.sequence == sat_inc(old(self)@.sequence),
            final(self)@.policy == old(self)@.policy,
            match agent_choice(old(self)@, sat_inc(old(self)@.sequence), state@) {
                Some((p, d)) => {
                    &&& res matches Ok(q) && q@ == p
                    &&& carries(p, chosen_payload(d.mode, old(self)@.last_state, state@))
                    &&& final(self)@.last_state == Some(state@)
                    &&& final(self)@.last_decision == Some(d)
                },
                None => {
                    &&& res matches Err(e) && e is Compression
                    &&& final(self)@.last_state == old(self)@.last_state
                    &&& final(self)@.last_decision == old(self)@.last_decision
                },
            },
    {
        self.sequence = self.sequence.saturating_add(1);
        let sequence = self.sequence;
        let snapshot = raw_snapshot(sequence, state)?;
        let (packet, decision) = match &self.last_state {
            None => self.policy.select_initial(snapshot)?,
            Some(previous) => {
                let delta = AgentDelta::between(previous, state);
                proof {
                    lemma_between_consistent(previous@, state@);
                }
                let base_hash = state_hash(previous)?;
                let payload = encode_agent_delta(&delta)?;
                let delta = Packet::delta(sequence, sequence - 1, base_hash, agent_schema_hash(), payload);
                self.policy.select(snapshot, delta)?
            },
        };
        self.last_decision = Some(decision);
        self.last_state = Some(state.clone());
        Ok(packet)
    }

    /// Encodes `state` as a new snapshot, advancing the sequence.
    pub fn force_snapshot(&mut self, state: &AgentState) -> (res: Result<Packet, DeltaError>)
        ensures
            final(self)@.sequence == sat_inc(old(self)@.sequence),
            final(self)@.policy == old(self)@.policy,
            final(self)@.last_state == Some(state@),
            match old(self)@.policy.initial_choice(agent_snapshot(sat_inc(old(self)@.sequence), state@)) {
                Some((p, d)) => {
                    &&& res matches Ok(q) && q@ == p
                    &&& carries(p, agent_state_bytes(state@))
                    &&& final(self)@.last_decision == Some(d)
                },
                None => res matches Err(e) && e is Compression && final(self)@.last_decision
                    == old(self)@.last_decision,
            },
    {
        self.sequence = self.sequence.saturating_add(1);
        self.last_state = Some(state.clone());
        let snapshot = raw_snapshot(self.sequence, state)?;
        let (packet, decision) = self.policy.select_initial(snapshot)?;
        self.last_decision = Some(decision);
        Ok(packet)
    }

    /// A snapshot of `state` at the current sequence, for recovering one
    /// subscriber; the sequence does not advance, so other subscribers see no gap.
    pub fn recovery_snapshot(&self, state: &AgentState) -> (res: Result<Packet, DeltaError>)
        ensures
            match self@.policy.initial_choice(agent_snapshot(self@.sequence, state@)) {
                Some((p, d)) => res matches Ok(q) && q@ == p && carries(p, agent_state_bytes(state@)),
                None => res matches Err(e) && e is Compression,
            },
    {
        let snapshot = raw_snapshot(self.sequence, state)?;
        let (packet, decision) = self.policy.select_initial(snapshot)?;
        Ok(packet)
    }

    /// The current stream sequence.
    pub fn sequence(&self) -> (s: u64)
        ensures
            s == self@.sequence,
    {
        self.sequence
    }

    /// The last adaptive encoding decision, if any.
    pub fn last_decision(&self) -> (d: Option<EncodeDecision>)
        ensures
            d == self@.last_decision,
    {
        self.last_decision
    }

    /// The encoding policy.
    pub fn policy(&self) -> (p: AdaptivePolicy)
        ensures
            p == self@.policy,
    {
        self.policy
    }
}

impl Default for Encoder {
    fn default() -> (e: Self)
        ensures
            e@ == (EncoderView {
                sequence: 0,
                last_state: None,
                policy: AdaptivePolicy::spec_default(),
                last_decision: None,
            }),
    {
        Encoder::with_policy(AdaptivePolicy::default())
    }
}

/// `n + 1`, saturating at `u64::MAX`.
pub open spec fn sat_inc(n: u64) -> u64 {
    if n == u64::MAX {
        n
    } else {
        (n + 1) as u64
    }
}

/// Publishes states of type `T` as packets: a snapshot first, then whichever of
/// snapshot or delta, raw or compressed, the policy finds cheapest.
pub struct GenericEncoder<T: DeltaState> {
    sequence: u64,
    last_state: Option<T>,
    policy: AdaptivePolicy,
    last_decision: Option<EncodeDecision>,
}

/// The state of a [`GenericEncoder`].
pub struct GenericEncoderView<T> {
    pub sequence: u64,
    pub last_state: Option<T>,
    pub policy: AdaptivePolicy,
    pub last_decision: Option<EncodeDecision>,
}

impl<T: DeltaState> View for GenericEncoder<T> {
    type V = GenericEncoderView<T>;

    closed spec fn view(&self) -> GenericEncoderView<T> {
        GenericEncoderView {
            sequence: self.sequence,
            last_state: self.last_state,
            policy: self.policy,
            last_decision: self.last_decision,
        }
    }
}

/// `p` with decision `d` is what `policy` picks at `sequence` for a state whose
/// snapshot encoding is some byte string, given whether a previous state exists:
/// among the snapshot alone at first, and afterwards between the snapshot and a
/// delta on top of the previous state's encoding.
pub open spec fn publishes(
    policy: AdaptivePolicy,
    sequence: u64,
    schema: u64,
    has_previous: bool,
    p: PacketView,
    d: EncodeDecision,
) -> bool {
    if has_previous {
        exists|current: Seq<u8>, previous: Seq<u8>, delta: Seq<u8>|
            policy.choice(
                snapshot_packet(sequence, schema, current),
                delta_packet(sequence, schema, previous, delta),
            ) == Some((p, d))
    } else {
        exists|current: Seq<u8>| policy.initial_choice(snapshot_packet(sequence, schema, current)) == Some((p, d))
    }
}

/// `b` is a snapshot encoding that the state type's `encode_snapshot` returns
/// for `s`.
pub open spec fn snapshot_of<T: DeltaState>(s: T, b: Seq<u8>) -> bool {
    exists|v: Vec<u8>| v@ == b && #[trigger] call_ensures(T::encode_snapshot, (&s,), Ok::<Vec<u8>, DeltaError>(v))
}

/// `b` is a delta encoding that the state type's `encode_delta` returns for the
/// change from `old` to `new`.
pub open spec fn delta_of<T: DeltaState>(old: T, new: T, b: Seq<u8>) -> bool {
    exists|v: Vec<u8>|
        v@ == b && #[trigger] call_ensures(T::encode_delta, (&old, &new), Ok::<Vec<u8>, DeltaError>(v))
}

/// `n` is a state that the state type's `apply_delta` returns for `base` and the
/// delta bytes `payload`.
pub open spec fn delta_applied<T: DeltaState>(base: T, payload: Seq<u8>, n: T) -> bool {
    exists|d: &[u8]| d@ == payload && #[trigger] call_ensures(T::apply_delta, (&base, d), Ok::<T, DeltaError>(n))
}

/// `s` is a state that the state type's `decode_snapshot` returns for the
/// snapshot bytes `b`.
pub open spec fn snapshot_decoded<T: DeltaState>(b: Seq<u8>, s: T) -> bool {
    exists|v: &[u8]| v@ == b && #[trigger] call_ensures(T::decode_snapshot, (v,), Ok::<T, DeltaError>(s))
}

/// What the generic encoder in state `e` publishes for `state` at `sequence`:
/// the policy's choice among the snapshot encoding of `state` and, when there is
/// a previous state, the delta from that state to `state`, based on the snapshot
/// encoding of the previous state.
pub open spec fn generic_publishes<T: DeltaState>(
    e: GenericEncoderView<T>,
    state: T,
    sequence: u64,
    p: PacketView,
    d: EncodeDecision,
) -> bool {
    let schema = spec_schema_hash::<T>();
    match e.last_state {
        None => exists|cur: Seq<u8>|
            #![trigger snapshot_packet(sequence, schema, cur)]
            snapshot_of(state, cur) && e.policy.initial_choice(snapshot_packet(sequence, schema, cur)) == Some((p, d)),
        Some(prev_state) => exists|cur: Seq<u8>, prev: Seq<u8>, change: Seq<u8>|
            #![trigger delta_packet(sequence, schema, prev, change), snapshot_packet(sequence, schema, cur)]
            snapshot_of(state, cur) && snapshot_of(prev_state, prev) && delta_of(prev_state, state, change)
                && e.policy.choice(
                snapshot_packet(sequence, schema, cur),
                delta_packet(sequence, schema, prev, change),
            ) == Some((p, d)),
    }
}

/// What a generic publisher sends for a new state `state`: a raw delta carries
/// exactly the bytes the state type's `encode_delta` returns for the change
/// from the previous state to `state`, on top of the snapshot encoding of the
/// previous state, at the next sequence; a compressed delta is the compressed
/// form of that delta; a raw snapshot carries the snapshot encoding of `state`
/// itself, hashed; and a first state is always sent as a snapshot.
pub proof fn lemma_generic_published<T: DeltaState>(
    e: GenericEncoderView<T>,
    state: T,
    sequence: u64,
    p: PacketView,
    d: EncodeDecision,
)
    requires
        generic_publishes(e, state, sequence, p, d),
    ensures
        e.last_state is None ==> (d.mode == EncodeMode::Snapshot || d.mode == EncodeMode::SnapshotZstd),
        d.mode == EncodeMode::Snapshot ==> p.kind == PacketKind::Snapshot && p.sequence == sequence
            && snapshot_of(state, p.payload) && p.base_hash == spec_fnv1a64(p.payload),
        d.mode == EncodeMode::Delta ==> (e.last_state matches Some(prev_state) && p.kind == PacketKind::Delta
            && p.sequence == sequence && p.base_sequence == (sequence - 1) as u64 && delta_of(prev_state, state, p.payload)
            && exists|prev: Seq<u8>| snapshot_of(prev_state, prev) && p.base_hash == spec_fnv1a64(prev)),
        d.mode == EncodeMode::DeltaZstd ==> (e.last_state matches Some(prev_state) && exists|prev: Seq<u8>, change: Seq<u8>|
            snapshot_of(prev_state, prev) && delta_of(prev_state, state, change) && Some(p) == e.policy.candidate(
                #[trigger] delta_packet(sequence, spec_schema_hash::<T>(), prev, change),
            )),
{
    let schema = spec_schema_hash::<T>();
    match e.last_state {
        None => {
            let cur = choose|cur: Seq<u8>|
                #![trigger snapshot_packet(sequence, schema, cur)]
                snapshot_of(state, cur) && e.policy.initial_choice(snapshot_packet(sequence, schema, cur)) == Some((p, d));
            lemma_initial_choice_no_worse(e.policy, snapshot_packet(sequence, schema, cur));
        },
        Some(prev_state) => {
            let (cur, prev, change) = choose|cur: Seq<u8>, prev: Seq<u8>, change: Seq<u8>|
                #![trigger delta_packet(sequence, schema, prev, change), snapshot_packet(sequence, schema, cur)]
                snapshot_of(state, cur) && snapshot_of(prev_state, prev) && delta_of(prev_state, state, change)
                    && e.policy.choice(
                    snapshot_packet(sequence, schema, cur),
                    delta_packet(sequence, schema, prev, change),
                ) == Some((p, d));
            lemma_choice_no_worse(e.policy, snapshot_packet(sequence, schema, cur), delta_packet(sequence, schema, prev, change));
        },
    }
}

impl<T: DeltaState> GenericEncoder<T> {
    /// An encoder at sequence zero with the given policy.
    pub fn with_policy(policy: AdaptivePolicy) -> (e: Self)
        ensures
            e@ == (GenericEncoderView::<T> { sequence: 0, last_state: None, policy, last_decision: None }),
    {
        GenericEncoder { sequence: 0, last_state: None, policy, last_decision: None }
    }

    /// Encodes the next state. The sequence advances even when encoding fails.
    pub fn encode(&mut self, state: &T) -> (res: Result<Packet, DeltaError>)
        ensures
            final(self)@.sequence == sat_inc(old(self)@.sequence),
            final(self)@.policy == old(self)@.policy,
            res is Err ==> final(self)@.last_state == old(self)@.last_state
                && final(self)@.last_decision == old(self)@.last_decision,
            res matches Ok(p) ==> {
                &&& final(self)@.last_state matches Some(s) && cloned(*state, s)
                &&& final(self)@.last_decision matches Some(d) && publishes(
                    old(self)@.policy,
                    final(self)@.sequence,
                    spec_schema_hash::<T>(),
                    old(self)@.last_state is Some,
                    p@,
                    d,
                )
                &&& final(self)@.last_decision matches Some(d) && generic_publishes(
                    old(self)@,
                    *state,
                    final(self)@.sequence,
                    p@,
                    d,
                )
            },
    {
        self.sequence = self.sequence.saturating_add(1);
        let sequence = self.sequence;
        let schema = schema_hash::<T>();
        let bytes = state.encode_snapshot()?;
        let ghost current = bytes@;
        let snapshot = Packet::snapshot(sequence, fnv1a64(bytes.as_slice()), schema, bytes);
        let (packet, decision) = match &self.last_state {
            None => {
                let (packet, decision) = self.policy.select_initial(snapshot)?;
                assert(self.policy.initial_choice(snapshot_packet(sequence, schema, current)) == Some(
                    (packet@, decision),
                ));
                assert(snapshot_of(*state, current));
                (packet, decision)
            },
            Some(previous) => {
                let old_bytes = previous.encode_snapshot()?;
                let delta_bytes = T::encode_delta(previous, state)?;
                let ghost prev = old_bytes@;
                let ghost change = delta_bytes@;
                let delta = Packet::delta(
                    sequence,
                    sequence - 1,
                    fnv1a64(old_bytes.as_slice()),
                    schema,
                    delta_bytes,
                );
                let (packet, decision) = self.policy.select(snapshot, delta)?;
                assert(self.policy.choice(
                    snapshot_packet(sequence, schema, current),
                    delta_packet(sequence, schema, prev, change),
                ) == Some((packet@, decision)));
                assert(snapshot_of(*state, current));
                assert(snapshot_of(*previous, prev));
                assert(delta_of(*previous, *state, change));
                (packet, decision)
            },
        };
        self.last_decision = Some(decision);
        self.last_state = Some(state.clone());
        Ok(packet)
    }

    /// Encodes `state` as a new snapshot, advancing the sequence.
    pub fn force_snapshot(&mut self, state: &T) -> (res: Result<Packet, DeltaError>)
        ensures
            final(self)@.sequence == sat_inc(old(self)@.sequence),
            final(self)@.policy == old(self)@.policy,
            res is Err ==> final(self)@.last_decision == old(self)@.last_decision,
            res matches Ok(p) ==> {
                &&& final(self)@.last_state matches Some(s) && cloned(*state, s)
                &&& final(self)@.last_decision matches Some(d) && publishes(
                    old(self)@.policy,
                    final(self)@.sequence,
                    spec_schema_hash::<T>(),
                    false,
                    p@,
                    d,
                )
            },
    {
        self.sequence = self.sequence.saturating_add(1);
        let bytes = state.encode_snapshot()?;
        self.last_state = Some(state.clone());
        let ghost current = bytes@;
        let schema = schema_hash::<T>();
        let snapshot = Packet::snapshot(self.sequence, fnv1a64(bytes.as_slice()), schema, bytes);
        let (packet, decision) = self.policy.select_initial(snapshot)?;
        assert(self.policy.initial_choice(snapshot_packet(self.sequence, schema, current)) == Some(
            (packet@, decision),
        ));
        self.last_decision = Some(decision);
        Ok(packet)
    }

    /// A snapshot of `state` at the current sequence, for recovering one
    /// subscriber; the sequence does not advance, so other subscribers see no gap.
    pub fn recovery_snapshot(&self, state: &T) -> (res: Result<Packet, DeltaError>)
        ensures
            res matches Ok(p) ==> exists|d: EncodeDecision|
                publishes(self@.policy, self@.sequence, spec_schema_hash::<T>(), false, p@, d),
    {
        let bytes = state.encode_snapshot()?;
        let ghost current = bytes@;
        let schema = schema_hash::<T>();
        let snapshot = Packet::snapshot(self.sequence, fnv1a64(bytes.as_slice()), schema, bytes);
        let (packet, decision) = self.policy.select_initial(snapshot)?;
        assert(self.policy.initial_choice(snapshot_packet(self.sequence, schema, current)) == Some(
            (packet@, decision),
        ));
        assert(publishes(self@.policy, self@.sequence, schema, false, packet@, decision));
        Ok(packet)
    }

    /// The last adaptive encoding decision, if any.
    pub fn last_decision(&self) -> (d: Option<EncodeDecision>)
        ensures
            d == self@.last_decision,
    {
        self.last_decision
    }

    /// The current stream sequence.
    pub fn sequence(&self) -> (s: u64)
        ensures
            s == self@.sequence,
    {
        self.sequence
    }
}

impl<T: DeltaState> Default for GenericEncoder<T> {
    fn default() -> (e: Self)
        ensures
            e@ == (GenericEncoderView::<T> {
                sequence: 0,
                last_state: None,
                policy: AdaptivePolicy::spec_default(),
                last_decision: None,
            }),
    {
        GenericEncoder::with_policy(AdaptivePolicy::default())
    }
}

/// Result of applying a packet to a subscriber.
///
/// `Applied` holds the committed state after a snapshot or delta. `Duplicate`
/// means the packet was already seen or is stale. `NeedSnapshot` means a delta
/// could not be applied safely because its base sequence or base hash is missing.
#[derive(Debug, Clone, PartialEq)]
pub enum GenericApplyResult<T> {
    Applied { sequence: u64, state: T },
    NeedSnapshot { local_sequence: Option<u64>, required_sequence: u64 },
    Duplicate { sequence: u64 },
}

/// Receives packets for one stream of states of type `T`.
pub struct GenericDecoder<T: DeltaState> {
    sequence: Option<u64>,
    state: Option<T>,
    replay: ReplayWindow,
    decode_config: DecodeConfig,
}

/// The state of a [`GenericDecoder`].
pub struct GenericDecoderView<T> {
    pub sequence: Option<u64>,
    pub state: Option<T>,
    pub replay: ReplayView,
    pub decode_config: DecodeConfig,
}

impl<T: DeltaState> View for GenericDecoder<T> {
    type V = GenericDecoderView<T>;

    closed spec fn view(&self) -> GenericDecoderView<T> {
        GenericDecoderView {
            sequence: self.sequence,
            state: self.state,
            replay: self.replay@,
            decode_config: self.decode_config,
        }
    }
}

impl<T> GenericDecoderView<T> {
    /// The replay window is well formed and holds the current sequence, and a
    /// sequence is held exactly when a state is.
    pub open spec fn wf(self) -> bool {
        &&& window_wf(self.replay)
        &&& self.sequence matches Some(s) ==> self.replay.seen.contains(s)
        &&& (self.sequence is Some <==> self.state is Some)
    }

    /// The decoder after committing `state` at `sequence`.
    pub open spec fn committed(self, sequence: u64, state: T) -> GenericDecoderView<T> {
        GenericDecoderView {
            sequence: Some(sequence),
            state: Some(state),
            replay: recorded(self.replay, sequence),
            decode_config: self.decode_config,
        }
    }
}

/// What a decoder decides about a packet before it reads any state.
pub enum ReceiveStep {
    SchemaMismatch { expected: u64, received: u64 },
    Duplicate { sequence: u64 },
    NeedSnapshot { local_sequence: Option<u64>, required_sequence: u64 },
    NoBaseState,
    ReadSnapshot,
    ReadDelta,
}

/// The checks a decoder makes first, in order: the schema must match; a packet
/// already seen, or older than the current sequence, is a duplicate; a delta
/// must build on the current sequence.
pub open spec fn receive_step(
    sequence: Option<u64>,
    has_state: bool,
    seen: Seq<u64>,
    schema: u64,
    p: PacketView,
) -> ReceiveStep {
    if p.schema_hash != schema {
        ReceiveStep::SchemaMismatch { expected: schema, received: p.schema_hash }
    } else if seen.contains(p.sequence) || (sequence matches Some(l) && p.sequence < l) {
        ReceiveStep::Duplicate { sequence: p.sequence }
    } else {
        match p.kind {
            PacketKind::Snapshot => ReceiveStep::ReadSnapshot,
            PacketKind::Delta => if sequence != Some(p.base_sequence) {
                ReceiveStep::NeedSnapshot { local_sequence: sequence, required_sequence: p.base_sequence }
            } else if !has_state {
                ReceiveStep::NoBaseState
            } else {
                ReceiveStep::ReadDelta
            },
        }
    }
}

/// `new` commits `state` at `sequence` on top of `old`, keeping a clone of it.
pub open spec fn commits<T: Clone>(
    old: GenericDecoderView<T>,
    new: GenericDecoderView<T>,
    sequence: u64,
    state: T,
) -> bool {
    &&& new.state matches Some(s) && cloned(state, s)
    &&& new == old.committed(sequence, new.state->0)
}

/// What `GenericDecoder::apply_packet` does with packet `p`. The state type's
/// own decoding, encoding and delta application decide the rest where noted;
/// whatever they return, the decoder either commits the packet's sequence with
/// the state they produced, or reports a result and stays as it was.
pub open spec fn generic_apply_post<T: Clone>(
    old: GenericDecoderView<T>,
    schema: u64,
    p: PacketView,
    new: GenericDecoderView<T>,
    res: Result<GenericApplyResult<T>, DeltaError>,
) -> bool {
    match receive_step(old.sequence, old.state is Some, old.replay.seen, schema, p) {
        ReceiveStep::SchemaMismatch { expected, received } => {
            &&& res == Err::<GenericApplyResult<T>, DeltaError>(
                DeltaError::SchemaMismatch { expected, received },
            )
            &&& new == old
        },
        ReceiveStep::Duplicate { sequence } => {
            &&& res == Ok::<GenericApplyResult<T>, DeltaError>(GenericApplyResult::Duplicate { sequence })
            &&& new == old
        },
        ReceiveStep::NeedSnapshot { local_sequence, required_sequence } => {
            &&& res == Ok::<GenericApplyResult<T>, DeltaError>(
                GenericApplyResult::NeedSnapshot { local_sequence, required_sequence },
            )
            &&& new == old
        },
        ReceiveStep::NoBaseState => {
            &&& res matches Err(e) && e is InvalidState
            &&& new == old
        },
        ReceiveStep::ReadSnapshot => match logical_of(p, old.decode_config) {
            None => {
                &&& res matches Err(e) && logical_payload_matches(
                    Err::<Vec<u8>, DeltaError>(e),
                    p,
                    old.decode_config,
                )
                &&& new == old
            },
            Some(x) => if spec_fnv1a64(x) != p.base_hash {
                &&& res matches Err(e) && e is InvalidState
                &&& new == old
            } else {
                ||| res is Err && new == old
                ||| res matches Ok(GenericApplyResult::Applied { sequence, state }) && sequence
                    == p.sequence && commits(old, new, sequence, state)
            },
        },
        ReceiveStep::ReadDelta => {
            ||| res is Err && new == old
            ||| res == Ok::<GenericApplyResult<T>, DeltaError>(
                GenericApplyResult::NeedSnapshot {
                    local_sequence: old.sequence,
                    required_sequence: p.base_sequence,
                },
            ) && new == old
            ||| res matches Ok(GenericApplyResult::Applied { sequence, state }) && sequence == p.sequence
                && logical_of(p, old.decode_config) is Some && commits(old, new, sequence, state)
        },
    }
}

/// A subscriber never applies an unsafe packet: whatever it is offered, it either
/// leaves its state as it was, or commits a sequence newer than any it holds; a
/// delta only on top of the sequence the delta names; and a packet it has
/// already seen is reported as a duplicate.
pub proof fn lemma_generic_apply_safety<T: Clone>(
    old: GenericDecoderView<T>,
    schema: u64,
    p: PacketView,
    new: GenericDecoderView<T>,
    res: Result<GenericApplyResult<T>, DeltaError>,
)
    requires
        old.wf(),
        generic_apply_post(old, schema, p, new, res),
    ensures
        !(res matches Ok(GenericApplyResult::Applied { .. })) ==> new == old,
        res matches Ok(GenericApplyResult::Applied { sequence, .. }) ==> {
            &&& sequence == p.sequence
            &&& p.schema_hash == schema
            &&& !old.replay.seen.contains(p.sequence)
            &&& old.sequence matches Some(l) ==> l < p.sequence
            &&& p.kind == PacketKind::Delta ==> old.sequence == Some(p.base_sequence)
            &&& new.sequence == Some(p.sequence)
            &&& new.replay.seen.contains(p.sequence)
        },
        p.schema_hash == schema && old.replay.seen.contains(p.sequence) ==> new == old && res
            == Ok::<GenericApplyResult<T>, DeltaError>(
            GenericApplyResult::Duplicate { sequence: p.sequence },
        ),
{
    if res matches Ok(GenericApplyResult::Applied { sequence, .. }) {
        if let Some(l) = old.sequence {
            assert(old.replay.seen.contains(l));
        }
        assert(new.replay.seen.contains(p.sequence)) by {
            let w = old.replay;
            if !w.seen.contains(p.sequence) {
                let pushed = w.seen.push(p.sequence);
                assert(pushed[pushed.len() - 1] == p.sequence);
                let k = keep_last(pushed, w.capacity as int);
                assert(k[k.len() - 1] == p.sequence);
            }
        }
    }
}

/// What `GenericDecoder::apply_packet_with_migrations` does: a packet of the
/// decoder's own schema is applied as usual; otherwise only a new snapshot is
/// taken, once its hash checks out, through the registered migration.
pub open spec fn migration_apply_post<T: Clone>(
    old: GenericDecoderView<T>,
    schema: u64,
    p: PacketView,
    new: GenericDecoderView<T>,
    res: Result<GenericApplyResult<T>, DeltaError>,
) -> bool {
    if p.schema_hash == schema {
        generic_apply_post(old, schema, p, new, res)
    } else if p.kind != PacketKind::Snapshot {
        &&& res == Ok::<GenericApplyResult<T>, DeltaError>(
            GenericApplyResult::NeedSnapshot { local_sequence: old.sequence, required_sequence: p.base_sequence },
        )
        &&& new == old
    } else if old.replay.seen.contains(p.sequence) || (old.sequence matches Some(l) && p.sequence < l) {
        &&& res == Ok::<GenericApplyResult<T>, DeltaError>(GenericApplyResult::Duplicate { sequence: p.sequence })
        &&& new == old
    } else {
        match logical_of(p, old.decode_config) {
            None => {
                &&& res matches Err(e) && logical_payload_matches(
                    Err::<Vec<u8>, DeltaError>(e),
                    p,
                    old.decode_config,
                )
                &&& new == old
            },
            Some(x) => if spec_fnv1a64(x) != p.base_hash {
                &&& res matches Err(e) && e is InvalidState
                &&& new == old
            } else {
                ||| res is Err && new == old
                ||| res matches Ok(GenericApplyResult::Applied { sequence, state }) && sequence
                    == p.sequence && commits(old, new, sequence, state)
            },
        }
    }
}

/// `s` is a state that `migrate_snapshot` of `m` returns for the snapshot bytes
/// `b` written under schema `from`, read under schema `to`.
pub open spec fn migrated<T, M: SnapshotMigration<T>>(m: M, from: u64, to: u64, b: Seq<u8>, s: T) -> bool {
    exists|v: &[u8]|
        v@ == b && #[trigger] call_ensures(M::migrate_snapshot, (&m, from, to, v), Ok::<T, DeltaError>(s))
}

/// How the generic decoder answers a packet when it may migrate snapshots: one of
/// its own schema as without migrations; a snapshot of another schema that it
/// applies becomes what the migration returns for its logical payload, written
/// under the packet's schema and read under the decoder's.
pub open spec fn migration_answer<T: DeltaState, M: SnapshotMigration<T>>(
    old: GenericDecoderView<T>,
    p: PacketView,
    m: M,
    res: Result<GenericApplyResult<T>, DeltaError>,
) -> bool {
    if p.schema_hash == spec_schema_hash::<T>() {
        delta_answer(old, p, res) && snapshot_answer(old, p, res)
    } else {
        res matches Ok(GenericApplyResult::Applied { state, .. }) ==> exists|x: Seq<u8>|
            logical_of(p, old.decode_config) == Some(x) && spec_fnv1a64(x) == p.base_hash && migrated(
                m,
                p.schema_hash,
                spec_schema_hash::<T>(),
                x,
                state,
            )
    }
}

/// A subscriber that applies a snapshot of another schema commits, at the
/// snapshot's sequence, exactly what the migration returns for the snapshot's
/// logical payload, and only when that payload hashes to the base hash.
pub proof fn lemma_generic_migration_commit<T: DeltaState, M: SnapshotMigration<T>>(
    old: GenericDecoderView<T>,
    p: PacketView,
    m: M,
    new: GenericDecoderView<T>,
    res: Result<GenericApplyResult<T>, DeltaError>,
)
    requires
        migration_apply_post(old, spec_schema_hash::<T>(), p, new, res),
        migration_answer(old, p, m, res),
        p.schema_hash != spec_schema_hash::<T>(),
        res matches Ok(GenericApplyResult::Applied { .. }),
    ensures
        res matches Ok(GenericApplyResult::Applied { sequence, state }) && {
            &&& p.kind == PacketKind::Snapshot
            &&& sequence == p.sequence
            &&& exists|x: Seq<u8>|
                logical_of(p, old.decode_config) == Some(x) && spec_fnv1a64(x) == p.base_hash && migrated(
                    m,
                    p.schema_hash,
                    spec_schema_hash::<T>(),
                    x,
                    state,
                )
            &&& new.sequence == Some(p.sequence)
            &&& new.state matches Some(s) && cloned(state, s)
        },
{
}

/// How the generic decoder answers a delta it reads (one that names its current
/// sequence as base, with a state held): it applies the delta only when the
/// snapshot encoding of its state hashes to the delta's base hash, and then
/// commits what the state type's `apply_delta` returns for that state and the
/// delta's logical payload; it asks for a snapshot only when that hash differs.
pub open spec fn delta_answer<T: DeltaState>(
    old: GenericDecoderView<T>,
    p: PacketView,
    res: Result<GenericApplyResult<T>, DeltaError>,
) -> bool {
    receive_step(old.sequence, old.state is Some, old.replay.seen, spec_schema_hash::<T>(), p) is ReadDelta ==> match res {
        Ok(GenericApplyResult::Applied { state, .. }) => old.state matches Some(base) && (exists|b: Seq<u8>|
            snapshot_of(base, b) && spec_fnv1a64(b) == p.base_hash) && (exists|x: Seq<u8>|
            logical_of(p, old.decode_config) == Some(x) && delta_applied(base, x, state)),
        Ok(GenericApplyResult::NeedSnapshot { .. }) => old.state matches Some(base) && exists|b: Seq<u8>|
            snapshot_of(base, b) && spec_fnv1a64(b) != p.base_hash,
        _ => true,
    }
}

/// How the generic decoder answers a snapshot it reads (one of its schema, not
/// seen before and not older than its sequence): what it commits and reports is
/// what the state type's `decode_snapshot` returns for the snapshot's logical
/// payload, which hashes to the snapshot's base hash.
pub open spec fn snapshot_answer<T: DeltaState>(
    old: GenericDecoderView<T>,
    p: PacketView,
    res: Result<GenericApplyResult<T>, DeltaError>,
) -> bool {
    receive_step(old.sequence, old.state is Some, old.replay.seen, spec_schema_hash::<T>(), p) is ReadSnapshot ==> (
    res matches Ok(GenericApplyResult::Applied { state, .. }) ==> exists|x: Seq<u8>|
        logical_of(p, old.decode_config) == Some(x) && spec_fnv1a64(x) == p.base_hash && snapshot_decoded(x, state))
}

/// A subscriber that applies a snapshot commits, at the snapshot's sequence,
/// exactly what the state type's `decode_snapshot` returns for the snapshot's
/// logical payload, and only when that payload hashes to the snapshot's base hash.
pub proof fn lemma_generic_snapshot_commit<T: DeltaState>(
    old: GenericDecoderView<T>,
    p: PacketView,
    new: GenericDecoderView<T>,
    res: Result<GenericApplyResult<T>, DeltaError>,
)
    requires
        generic_apply_post(old, spec_schema_hash::<T>(), p, new, res),
        snapshot_answer(old, p, res),
        p.kind == PacketKind::Snapshot,
        res matches Ok(GenericApplyResult::Applied { .. }),
    ensures
        res matches Ok(GenericApplyResult::Applied { sequence, state }) && {
            &&& sequence == p.sequence
            &&& p.schema_hash == spec_schema_hash::<T>()
            &&& exists|x: Seq<u8>|
                logical_of(p, old.decode_config) == Some(x) && spec_fnv1a64(x) == p.base_hash
                    && snapshot_decoded(x, state)
            &&& new.sequence == Some(p.sequence)
            &&& new.state matches Some(s) && cloned(state, s)
        },
{
}

/// A subscriber applies a delta only on top of the sequence the delta names and
/// only when the snapshot encoding of its state hashes to the delta's base hash;
/// what it commits and reports is then what the state type's `apply_delta`
/// returns for its state and the delta's logical payload.
pub proof fn lemma_generic_delta_commit<T: DeltaState>(
    old: GenericDecoderView<T>,
    p: PacketView,
    new: GenericDecoderView<T>,
    res: Result<GenericApplyResult<T>, DeltaError>,
)
    requires
        generic_apply_post(old, spec_schema_hash::<T>(), p, new, res),
        delta_answer(old, p, res),
        p.kind == PacketKind::Delta,
        res matches Ok(GenericApplyResult::Applied { .. }),
    ensures
        res matches Ok(GenericApplyResult::Applied { sequence, state }) && {
            &&& sequence == p.sequence
            &&& old.sequence == Some(p.base_sequence)
            &&& old.state matches Some(base) && (exists|b: Seq<u8>| snapshot_of(base, b) && spec_fnv1a64(b)
                == p.base_hash) && (exists|x: Seq<u8>|
                logical_of(p, old.decode_config) == Some(x) && delta_applied(base, x, state))
            &&& new.sequence == Some(p.sequence)
            &&& new.state matches Some(s) && cloned(state, s)
        },
{
}

/// Checks a delta against the receiver's base, whose snapshot encoding is
/// `base_bytes`. When the hash of those bytes differs from the delta's base
/// hash the delta does not fit, and the answer is `None`: recovery is needed.
/// Otherwise the answer is the delta's logical payload within `config`, or the
/// error met while reading it.
pub fn delta_gate(base_bytes: &[u8], packet: &Packet, config: &DecodeConfig) -> (r: Result<
    Option<Vec<u8>>,
    DeltaError,
>)
    ensures
        spec_fnv1a64(base_bytes@) != packet@.base_hash ==> r == Ok::<Option<Vec<u8>>, DeltaError>(None),
        spec_fnv1a64(base_bytes@) == packet@.base_hash ==> match r {
            Ok(Some(v)) => logical_payload_matches(Ok::<Vec<u8>, DeltaError>(v), packet@, *config),
            Ok(None) => false,
            Err(e) => logical_payload_matches(Err::<Vec<u8>, DeltaError>(e), packet@, *config),
        },
{
    if fnv1a64(base_bytes) != packet.base_hash {
        return Ok(None);
    }
    match packet.logical_payload_with_config(config) {
        Ok(v) => Ok(Some(v)),
        Err(e) => Err(e),
    }
}

impl<T: DeltaState> GenericDecoder<T> {
    /// Applies a packet, taking a snapshot of another schema through `migrations`.
    pub fn apply_packet_with_migrations<M: SnapshotMigration<T>>(
        &mut self,
        packet: Packet,
        migrations: &M,
    ) -> (res: Result<GenericApplyResult<T>, DeltaError>)
        requires
            old(self)@.wf(),
        ensures
            final(self)@.wf(),
            migration_apply_post(old(self)@, spec_schema_hash::<T>(), packet@, final(self)@, res),
            migration_answer(old(self)@, packet@, *migrations, res),
    {
        let expected = schema_hash::<T>();
        if packet.schema_hash == expected {
            return self.apply_packet(packet);
        }
        if packet.kind != PacketKind::Snapshot {
            return Ok(GenericApplyResult::NeedSnapshot {
                local_sequence: self.sequence,
                required_sequence: packet.base_sequence,
            });
        }
        if self.replay.contains(packet.sequence) {
            return Ok(GenericApplyResult::Duplicate { sequence: packet.sequence });
        }
        if let Some(local) = self.sequence {
            if packet.sequence < local {
                return Ok(GenericApplyResult::Duplicate { sequence: packet.sequence });
            }
        }
        let payload = packet.logical_payload_with_config(&self.decode_config)?;
        if fnv1a64(payload.as_slice()) != packet.base_hash {
            return Err(DeltaError::InvalidState("snapshot hash mismatch"));
        }
        let state = migrations.migrate_snapshot(packet.schema_hash, expected, payload.as_slice())?;
        assert(migrated(*migrations, packet@.schema_hash, expected, payload@, state));
        assert(logical_of(packet@, old(self)@.decode_config) == Some(payload@));
        Ok(self.commit(packet.sequence, state))
    }

    /// An empty decoder that reads payloads within `decode_config`.
    pub fn with_decode_config(decode_config: DecodeConfig) -> (d: Self)
        ensures
            d@.wf(),
            d@.sequence is None,
            d@.state is None,
            d@.replay == (ReplayView { capacity: 256, seen: Seq::empty() }),
            d@.decode_config == decode_config,
    {
        GenericDecoder { sequence: None, state: None, replay: ReplayWindow::default(), decode_config }
    }

    fn commit(&mut self, sequence: u64, state: T) -> (res: GenericApplyResult<T>)
        requires
            old(self)@.wf(),
        ensures
            final(self)@.wf(),
            res == (GenericApplyResult::Applied { sequence, state }),
            commits(old(self)@, final(self)@, sequence, state),
    {
        let kept = state.clone();
        self.sequence = Some(sequence);
        self.state = Some(kept);
        self.replay.record(sequence);
        GenericApplyResult::Applied { sequence, state }
    }

    /// Applies a snapshot or delta packet.
    pub fn apply_packet(&mut self, packet: Packet) -> (res: Result<GenericApplyResult<T>, DeltaError>)
        requires
            old(self)@.wf(),
        ensures
            final(self)@.wf(),
            generic_apply_post(old(self)@, spec_schema_hash::<T>(), packet@, final(self)@, res),
            delta_answer(old(self)@, packet@, res),
            snapshot_answer(old(self)@, packet@, res),
    {
        let expected = schema_hash::<T>();
        if packet.schema_hash != expected {
            return Err(DeltaError::SchemaMismatch { expected, received: packet.schema_hash });
        }
        if self.replay.contains(packet.sequence) {
            return Ok(GenericApplyResult::Duplicate { sequence: packet.sequence });
        }
        if let Some(local) = self.sequence {
            if packet.sequence < local {
                return Ok(GenericApplyResult::Duplicate { sequence: packet.sequence });
            }
        }
        match packet.kind {
            PacketKind::Snapshot => {
                let payload = packet.logical_payload_with_config(&self.decode_config)?;
                if fnv1a64(payload.as_slice()) != packet.base_hash {
                    return Err(DeltaError::InvalidState("snapshot hash mismatch"));
                }
                let state = T::decode_snapshot(payload.as_slice())?;
                assert(snapshot_decoded(payload@, state));
                assert(logical_of(packet@, old(self)@.decode_config) == Some(payload@));
                Ok(self.commit(packet.sequence, state))
            },
            PacketKind::Delta => {
                let in_step = match self.sequence {
                    Some(local) => local == packet.base_sequence,
                    None => false,
                };
                if !in_step {
                    return Ok(GenericApplyResult::NeedSnapshot {
                        local_sequence: self.sequence,
                        required_sequence: packet.base_sequence,
                    });
                }
                let next = match &self.state {
                    None => {
                        return Err(DeltaError::InvalidState("decoder has no base state"));
                    },
                    Some(current) => {
                        let current_bytes = current.encode_snapshot()?;
                        assert(snapshot_of(*current, current_bytes@));
                        match delta_gate(current_bytes.as_slice(), &packet, &self.decode_config)? {
                            None => {
                                return Ok(GenericApplyResult::NeedSnapshot {
                                    local_sequence: self.sequence,
                                    required_sequence: packet.base_sequence,
                                });
                            },
                            Some(payload) => {
                                let d = payload.as_slice();
                                let n = current.apply_delta(d)?;
                                assert(delta_applied(*current, payload@, n));
                                n
                            },
                        }
                    },
                };
                Ok(self.commit(packet.sequence, next))
            },
        }
    }

    /// The last synchronized state.
    pub fn state(&self) -> (s: Option<&T>)
        ensures
            match s {
                Some(x) => self@.state == Some(*x),
                None => self@.state is None,
            },
    {
        match &self.state {
            Some(x) => Some(x),
            None => None,
        }
    }

    /// The last applied sequence.
    pub fn sequence(&self) -> (s: Option<u64>)
        ensures
            s == self@.sequence,
    {
        self.sequence
    }

    /// Forgets the state, the sequence and every sequence seen.
    pub fn reset(&mut self)
        requires
            old(self)@.wf(),
        ensures
            final(self)@.wf(),
            final(self)@ == (GenericDecoderView::<T> {
                sequence: None,
                state: None,
                replay: ReplayView { seen: Seq::empty(), ..old(self)@.replay },
                decode_config: old(self)@.decode_config,
            }),
    {
        self.sequence = None;
        self.state = None;
        self.replay.clear();
    }
}

impl<T: DeltaState> Default for GenericDecoder<T> {
    fn default() -> (d: Self)
        ensures
            d@.wf(),
            d@.sequence is None,
            d@.state is None,
            d@.replay == (ReplayView { capacity: 256, seen: Seq::empty() }),
            d@.decode_config == DecodeConfig::spec_default(),
    {
        GenericDecoder::with_decode_config(DecodeConfig::default())
    }
}

/// Result of applying a packet to an agent-state decoder.
#[derive(Debug, Clone)]
pub enum ApplyResult {
    Applied { sequence: u64, state: AgentState },
    NeedSnapshot { local_sequence: Option<u64>, required_sequence: u64 },
    Duplicate { sequence: u64 },
}

/// Receives agent-state packets and keeps the synchronized state.
#[derive(Debug)]
pub struct Decoder {
    sequence: Option<u64>,
    state: Option<AgentState>,
    replay: ReplayWindow,
}

/// The state of a [`Decoder`].
pub struct DecoderView {
    pub sequence: Option<u64>,
    pub state: Option<AgentStateView>,
    pub replay: ReplayView,
}

impl View for Decoder {
    type V = DecoderView;

    closed spec fn view(&self) -> DecoderView {
        DecoderView { sequence: self.sequence, state: opt_agent(self.state), replay: self.replay@ }
    }
}

impl DecoderView {
    /// The replay window is well formed; a sequence is held exactly when a
    /// state is; the current sequence is the newest in the window, and the
    /// window is empty before any state.
    pub open spec fn wf(self) -> bool {
        &&& window_wf(self.replay)
        &&& (self.sequence is Some <==> self.state is Some)
        &&& match self.sequence {
            Some(l) => self.replay.seen.contains(l) && forall|i: int|
                0 <= i < self.replay.seen.len() ==> #[trigger] self.replay.seen[i] <= l,
            None => self.replay.seen.len() == 0,
        }
    }
}

/// What an agent decoder makes of a packet.
pub enum AgentOutcome {
    Applied { sequence: u64, state: AgentStateView },
    NeedSnapshot { local_sequence: Option<u64>, required_sequence: u64 },
    Duplicate { sequence: u64 },
    SchemaMismatch { expected: u64, received: u64 },
    PayloadUnreadable,
    Malformed,
    SnapshotHashMismatch,
    NoBaseState,
    DeltaRejected,
}

/// The rules an agent decoder follows: after the common checks, a snapshot must
/// decode to a state whose hash it carries; a delta must name the hash of the
/// current state (otherwise a snapshot is needed), decode, and apply.
pub open spec fn agent_step(d: DecoderView, p: PacketView) -> AgentOutcome {
    match receive_step(d.sequence, d.state is Some, d.replay.seen, spec_agent_schema_hash(), p) {
        ReceiveStep::SchemaMismatch { expected, received } => AgentOutcome::SchemaMismatch { expected, received },
        ReceiveStep::Duplicate { sequence } => AgentOutcome::Duplicate { sequence },
        ReceiveStep::NeedSnapshot { local_sequence, required_sequence } => AgentOutcome::NeedSnapshot {
            local_sequence,
            required_sequence,
        },
        ReceiveStep::NoBaseState => AgentOutcome::NoBaseState,
        ReceiveStep::ReadSnapshot => match logical_of(p, DecodeConfig::spec_default()) {
            None => AgentOutcome::PayloadUnreadable,
            Some(x) => match parse_agent_state(x) {
                None => AgentOutcome::Malformed,
                Some(s) => if spec_fnv1a64(agent_state_bytes(s)) != p.base_hash {
                    AgentOutcome::SnapshotHashMismatch
                } else {
                    AgentOutcome::Applied { sequence: p.sequence, state: s }
                },
            },
        },
        ReceiveStep::ReadDelta => {
            let base = d.state->0;
            if spec_fnv1a64(agent_state_bytes(base)) != p.base_hash {
                AgentOutcome::NeedSnapshot { local_sequence: d.sequence, required_sequence: p.base_sequence }
            } else {
                match logical_of(p, DecodeConfig::spec_default()) {
                    None => AgentOutcome::PayloadUnreadable,
                    Some(x) => match parse_agent_delta(x) {
                        None => AgentOutcome::Malformed,
                        Some(delta) => match delta_apply(delta, base) {
                            None => AgentOutcome::DeltaRejected,
                            Some(n) => AgentOutcome::Applied { sequence: p.sequence, state: n },
                        },
                    },
                }
            }
        },
    }
}

/// The result and new decoder state for each outcome; every outcome but
/// `Applied` leaves the decoder as it was.
pub open spec fn agent_apply_post(
    old: DecoderView,
    p: PacketView,
    new: DecoderView,
    res: Result<ApplyResult, DeltaError>,
) -> bool {
    match agent_step(old, p) {
        AgentOutcome::Applied { sequence, state } => {
            &&& res matches Ok(ApplyResult::Applied { sequence: s, state: v }) && s == sequence && v@ == state
            &&& new == DecoderView {
                sequence: Some(sequence),
                state: Some(state),
                replay: recorded(old.replay, sequence),
            }
        },
        AgentOutcome::NeedSnapshot { local_sequence, required_sequence } => {
            &&& res matches Ok(ApplyResult::NeedSnapshot { local_sequence: l, required_sequence: r })
                && l == local_sequence && r == required_sequence
            &&& new == old
        },
        AgentOutcome::Duplicate { sequence } => {
            &&& res matches Ok(ApplyResult::Duplicate { sequence: s }) && s == sequence
            &&& new == old
        },
        AgentOutcome::SchemaMismatch { expected, received } => {
            &&& res matches Err(DeltaError::SchemaMismatch { expected: e, received: r }) && e == expected
                && r == received
            &&& new == old
        },
        AgentOutcome::PayloadUnreadable => {
            &&& res matches Err(e) && logical_payload_matches(
                Err::<Vec<u8>, DeltaError>(e),
                p,
                DecodeConfig::spec_default(),
            )
            &&& new == old
        },
        AgentOutcome::Malformed => {
            &&& res matches Err(e) && e is InvalidPacket
            &&& new == old
        },
        AgentOutcome::DeltaRejected => {
            &&& res matches Err(e) && e is InvalidPacket
            &&& new == old
        },
        AgentOutcome::SnapshotHashMismatch => {
            &&& res matches Err(e) && e is InvalidState
            &&& new == old
        },
        AgentOutcome::NoBaseState => {
            &&& res matches Err(e) && e is InvalidState
            &&& new == old
        },
    }
}

pub(crate) proof fn lemma_commit_keeps_wf(old: DecoderView, sequence: u64, state: AgentStateView)
    requires
        old.wf(),
        !old.replay.seen.contains(sequence),
        old.sequence matches Some(l) ==> l < sequence,
    ensures
        (DecoderView {
            sequence: Some(sequence),
            state: Some(state),
            replay: recorded(old.replay, sequence),
        }).wf(),
{
    let w = old.replay;
    let pushed = w.seen.push(sequence);
    let k = keep_last(pushed, w.capacity as int);
    assert(pushed.no_duplicates()) by {
        assert forall|i: int, j: int| 0 <= i < pushed.len() && 0 <= j < pushed.len() && i != j implies pushed[i]
            != pushed[j] by {
            if i == pushed.len() - 1 {
                assert(w.seen.contains(pushed[j]));
            } else if j == pushed.len() - 1 {
                assert(w.seen.contains(pushed[i]));
            }
        }
    }
    assert forall|i: int| 0 <= i < pushed.len() implies #[trigger] pushed[i] <= sequence by {
        if i < w.seen.len() {
            assert(pushed[i] == w.seen[i]);
        }
    }
    let off = pushed.len() - k.len();
    assert forall|i: int| 0 <= i < k.len() implies #[trigger] k[i] <= sequence by {
        assert(k[i] == pushed[i + off]);
    }
    assert forall|i: int, j: int| 0 <= i < k.len() && 0 <= j < k.len() && i != j implies k[i] != k[j] by {
        assert(k[i] == pushed[i + off]);
        assert(k[j] == pushed[j + off]);
    }
    assert(k[k.len() - 1] == sequence);
}

impl Decoder {
    /// Applies a snapshot or delta packet.
    #[verifier::rlimit(30)]
    pub fn apply_packet(&mut self, packet: Packet) -> (res: Result<ApplyResult, DeltaError>)
        requires
            old(self)@.wf(),
        ensures
            final(self)@.wf(),
            agent_apply_post(old(self)@, packet@, final(self)@, res),
    {
        let expected = agent_schema_hash();
        if packet.schema_hash != expected {
            return Err(DeltaError::SchemaMismatch { expected, received: packet.schema_hash });
        }
        if self.replay.contains(packet.sequence) {
            return Ok(ApplyResult::Duplicate { sequence: packet.sequence });
        }
        if let Some(local) = self.sequence {
            if packet.sequence < local {
                return Ok(ApplyResult::Duplicate { sequence: packet.sequence });
            }
        }
        let next = match packet.kind {
            PacketKind::Snapshot => {
                let payload = packet.logical_payload()?;
                let state = decode_agent_state(payload.as_slice())?;
                if state_hash(&state)? != packet.base_hash {
                    return Err(DeltaError::InvalidState("snapshot hash mismatch"));
                }
                state
            },
            PacketKind::Delta => {
                let in_step = match self.sequence {
                    Some(local) => local == packet.base_sequence,
                    None => false,
                };
                if !in_step {
                    return Ok(ApplyResult::NeedSnapshot {
                        local_sequence: self.sequence,
                        required_sequence: packet.base_sequence,
                    });
                }
                match &self.state {
                    None => {
                        return Err(DeltaError::InvalidState("decoder has no base state"));
                    },
                    Some(current) => {
                        if state_hash(current)? != packet.base_hash {
                            return Ok(ApplyResult::NeedSnapshot {
                                local_sequence: self.sequence,
                                required_sequence: packet.base_sequence,
                            });
                        }
                        let payload = packet.logical_payload()?;
                        let delta = decode_agent_delta(payload.as_slice())?;
                        delta.apply(current)?
                    },
                }
            },
        };
        proof {
            if let Some(l) = old(self)@.sequence {
                assert(old(self)@.replay.seen.contains(l));
            }
            lemma_commit_keeps_wf(old(self)@, packet.sequence, next@);
        }
        self.sequence = Some(packet.sequence);
        self.state = Some(next.clone());
        self.replay.record(packet.sequence);
        Ok(ApplyResult::Applied { sequence: packet.sequence, state: next })
    }

    /// The synchronized state, if any.
    pub fn state(&self) -> (s: Option<&AgentState>)
        ensures
            match s {
                Some(x) => self@.state == Some(x@),
                None => self@.state is None,
            },
    {
        match &self.state {
            Some(x) => Some(x),
            None => None,
        }
    }

    /// The last applied sequence.
    pub fn sequence(&self) -> (s: Option<u64>)
        ensures
            s == self@.sequence,
    {
        self.sequence
    }

    /// Forgets the state, the sequence and every sequence seen.
    pub fn reset(&mut self)
        requires
            old(self)@.wf(),
        ensures
            final(self)@.wf(),
            final(self)@ == (DecoderView {
                sequence: None,
                state: None,
                replay: ReplayView { seen: Seq::empty(), ..old(self)@.replay },
            }),
    {
        self.sequence = None;
        self.state = None;
        self.replay.clear();
    }
}

impl Default for Decoder {
    fn default() -> (d: Self)
        ensures
            d@.wf(),
            d@ == (DecoderView {
                sequence: None,
                state: None,
                replay: ReplayView { capacity: 256, seen: Seq::empty() },
            }),
    {
        Decoder { sequence: None, state: None, replay: ReplayWindow::default() }
    }
}

/// A decoder and an encoder agree: the decoder holds the state the encoder last
/// encoded, at the encoder's sequence, or both are fresh.
pub open spec fn agent_in_step(d: DecoderView, e: EncoderView) -> bool {
    &&& d.state == e.last_state
    &&& d.sequence == if e.last_state is Some {
        Some(e.sequence)
    } else {
        None::<u64>
    }
}

pub(crate) proof fn lemma_snapshot_step(d: DecoderView, p: PacketView, current: AgentStateView)
    requires
        receive_step(d.sequence, d.state is Some, d.replay.seen, spec_agent_schema_hash(), p)
            == ReceiveStep::ReadSnapshot,
        logical_of(p, DecodeConfig::spec_default()) == Some(agent_state_bytes(current)),
        p.base_hash == spec_fnv1a64(agent_state_bytes(current)),
        agent_state_bytes(current).len() <= usize::MAX,
    ensures
        agent_step(d, p) == (AgentOutcome::Applied { sequence: p.sequence, state: current }),
{
    lemma_agent_state_roundtrip(current);
}

pub(crate) proof fn lemma_delta_step(d: DecoderView, p: PacketView, prev: AgentStateView, current: AgentStateView)
    requires
        receive_step(d.sequence, d.state is Some, d.replay.seen, spec_agent_schema_hash(), p)
            == ReceiveStep::ReadDelta,
        d.state == Some(prev),
        p.base_hash == spec_fnv1a64(agent_state_bytes(prev)),
        logical_of(p, DecodeConfig::spec_default()) == Some(
            agent_delta_bytes(delta_between(prev, current))->0,
        ),
        agent_delta_bytes(delta_between(prev, current))->0.len() <= usize::MAX,
        f32_bits_eq(prev.cpu_percent_bits, current.cpu_percent_bits) ==> prev.cpu_percent_bits
            == current.cpu_percent_bits,
    ensures
        agent_step(d, p) == (AgentOutcome::Applied { sequence: p.sequence, state: current }),
{
    lemma_between_consistent(prev, current);
    lemma_agent_delta_roundtrip(delta_between(prev, current));
    lemma_apply_between(prev, current);
}

/// A decoder in step with an encoder applies the encoder's next packet, whatever
/// representation the policy picked, and ends holding the state the encoder
/// encoded; the two stay in step. Excluded: a CPU load that changes between the
/// two zeros (equal as `f32`, so the delta keeps the old pattern), payloads
/// beyond the decoder's limit, and an encoder whose sequence is exhausted.
#[verifier::rlimit(30)]
pub proof fn lemma_agent_decoder_follows_encoder(
    d: DecoderView,
    e: EncoderView,
    current: AgentStateView,
    p: PacketView,
    decision: EncodeDecision,
)
    requires
        d.wf(),
        agent_in_step(d, e),
        e.sequence < u64::MAX,
        agent_choice(e, (e.sequence + 1) as u64, current) == Some((p, decision)),
        carries(p, chosen_payload(decision.mode, e.last_state, current)),
        chosen_payload(decision.mode, e.last_state, current).len() <= MAX_LOGICAL_PAYLOAD,
        agent_state_bytes(current).len() <= usize::MAX,
        e.last_state matches Some(prev) ==> (f32_bits_eq(prev.cpu_percent_bits, current.cpu_percent_bits)
            ==> prev.cpu_percent_bits == current.cpu_percent_bits),
    ensures
        agent_step(d, p) == (AgentOutcome::Applied { sequence: (e.sequence + 1) as u64, state: current }),
        agent_in_step(
            DecoderView {
                sequence: Some((e.sequence + 1) as u64),
                state: Some(current),
                replay: recorded(d.replay, (e.sequence + 1) as u64),
            },
            EncoderView { sequence: (e.sequence + 1) as u64, last_state: Some(current), ..e },
        ),
{
    let seq = (e.sequence + 1) as u64;
    let x = chosen_payload(decision.mode, e.last_state, current);
    let snap = agent_snapshot(seq, current);
    assert(!d.replay.seen.contains(seq)) by {
        if d.replay.seen.contains(seq) {
            let i = choose|i: int| 0 <= i < d.replay.seen.len() && d.replay.seen[i] == seq;
            assert(d.replay.seen[i] <= e.sequence);
        }
    }
    assert(logical_of(p, DecodeConfig::spec_default()) == Some(x)) by {
        if p.is_compressed() {
            assert(crate::ext::zstd_decompressed(p.payload, MAX_LOGICAL_PAYLOAD) == Some(x));
        }
    }
    match e.last_state {
        None => {
            assert(p.kind == PacketKind::Snapshot && p.sequence == seq && p.schema_hash
                == spec_agent_schema_hash());
            lemma_snapshot_step(d, p, current);
        },
        Some(prev) => {
            let delta = agent_delta(seq, prev, current);
            lemma_choice_no_worse(e.policy, snap, delta);
            lemma_between_consistent(prev, current);
            if decision.mode == EncodeMode::Delta || decision.mode == EncodeMode::DeltaZstd {
                assert(p.kind == PacketKind::Delta && p.sequence == seq && p.base_sequence == e.sequence
                    && p.schema_hash == spec_agent_schema_hash() && p.base_hash == spec_fnv1a64(
                    agent_state_bytes(prev),
                ));
                lemma_delta_step(d, p, prev, current);
            } else {
                assert(p.kind == PacketKind::Snapshot && p.sequence == seq && p.schema_hash
                    == spec_agent_schema_hash());
                lemma_snapshot_step(d, p, current);
            }
        },
    }
}

/// The decoder has committed nothing, or only sequences below `s`.
pub open spec fn behind(d: DecoderView, s: u64) -> bool {
    match d.sequence {
        None => true,
        Some(l) => l < s,
    }
}

/// The decoder is in step with the encoder, or behind the encoder's sequence:
/// a snapshot at that sequence brings it back in step.
pub open spec fn recoverable(d: DecoderView, e: EncoderView) -> bool {
    agent_in_step(d, e) || behind(d, e.sequence)
}

/// From one state to the next, the CPU load does not change between the two
/// zeros (equal as `f32`, different bit patterns), which a delta cannot carry.
pub open spec fn cpu_step_exact(prev: AgentStateView, cur: AgentStateView) -> bool {
    f32_bits_eq(prev.cpu_percent_bits, cur.cpu_percent_bits) ==> prev.cpu_percent_bits == cur.cpu_percent_bits
}

/// The states a simulation run publishes: the given ones, or the demo state
/// alone when there are none.
pub open spec fn published_states(states: Seq<AgentState>) -> Seq<AgentStateView> {
    if states.len() == 0 {
        seq![demo_view()]
    } else {
        states.map_values(|s: AgentState| s@)
    }
}

/// The compressor lets the default policy encode the snapshot of `s` at `seq`.
#[verifier::opaque]
pub open spec fn snapshot_choice(seq: u64, s: AgentStateView) -> bool {
    AdaptivePolicy::spec_default().initial_choice(agent_snapshot(seq, s)) is Some
}

/// The compressor lets the default policy choose between the snapshot of `cur`
/// at `seq` and the delta to it from `prev`.
#[verifier::opaque]
pub open spec fn delta_choice(seq: u64, prev: AgentStateView, cur: AgentStateView) -> bool {
    AdaptivePolicy::spec_default().choice(agent_snapshot(seq, cur), agent_delta(seq, prev, cur)) is Some
}

/// The compressor lets the default policy choose an encoding for the `i`-th of
/// the published states at sequence `i + 1`: its snapshot, and the choice
/// between that snapshot and the delta from the state before it.
pub open spec fn choice_at(ps: Seq<AgentStateView>, i: int) -> bool {
    &&& snapshot_choice((i + 1) as u64, ps[i])
    &&& i > 0 ==> delta_choice((i + 1) as u64, ps[i - 1], ps[i])
}

/// The compressor lets the default policy choose an encoding at every step of
/// publishing `ps` from sequence one on.
#[verifier::opaque]
pub open spec fn choices_exist(ps: Seq<AgentStateView>) -> bool {
    forall|i: int| 0 <= i < ps.len() ==> #[trigger] choice_at(ps, i)
}

/// Every snapshot and delta of the published states fits the decoder's payload
/// limit, and no CPU load steps between the two zeros.
pub open spec fn payloads_fit(ps: Seq<AgentStateView>) -> bool {
    &&& forall|i: int| 0 <= i < ps.len() ==> agent_state_bytes(#[trigger] ps[i]).len() <= MAX_LOGICAL_PAYLOAD
    &&& forall|i: int|
        0 < i < ps.len() ==> agent_delta_bytes(delta_between(ps[i - 1], #[trigger] ps[i]))->0.len()
            <= MAX_LOGICAL_PAYLOAD && cpu_step_exact(ps[i - 1], ps[i])
}

/// A decoder that has committed nothing at or after `seq` applies a snapshot
/// of `cur` at `seq`.
pub proof fn lemma_snapshot_applies(d: DecoderView, p: PacketView, seq: u64, cur: AgentStateView)
    requires
        d.wf(),
        behind(d, seq),
        p.kind == PacketKind::Snapshot,
        p.sequence == seq,
        p.schema_hash == spec_agent_schema_hash(),
        p.base_hash == spec_fnv1a64(agent_state_bytes(cur)),
        carries(p, agent_state_bytes(cur)),
        agent_state_bytes(cur).len() <= MAX_LOGICAL_PAYLOAD,
    ensures
        agent_step(d, p) == (AgentOutcome::Applied { sequence: seq, state: cur }),
{
    assert(!d.replay.seen.contains(seq)) by {
        if d.replay.seen.contains(seq) {
            let i = choose|i: int| 0 <= i < d.replay.seen.len() && d.replay.seen[i] == seq;
            assert(d.replay.seen[i] == seq);
        }
    }
    assert(logical_of(p, DecodeConfig::spec_default()) == Some(agent_state_bytes(cur))) by {
        if p.is_compressed() {
            assert(crate::ext::zstd_decompressed(p.payload, MAX_LOGICAL_PAYLOAD) == Some(agent_state_bytes(cur)));
        }
    }
    lemma_snapshot_step(d, p, cur);
}


/// `p` is what a publisher with `policy` sends for the `s`-th published state
/// at sequence `s` (its first state as a snapshot, a later one as the policy
/// chooses against the state before), or a snapshot of that state at `s`.
#[verifier::opaque]
pub open spec fn genuine(policy: AdaptivePolicy, states: Seq<AgentStateView>, p: PacketView) -> bool {
    let s = p.sequence as int;
    &&& 1 <= s <= states.len()
    &&& {
        ||| (policy.initial_choice(agent_snapshot(p.sequence, states[s - 1])) matches Some((q, _)) && q == p
            && carries(p, agent_state_bytes(states[s - 1])))
        ||| (s > 1 && (policy.choice(
            agent_snapshot(p.sequence, states[s - 1]),
            agent_delta(p.sequence, states[s - 2], states[s - 1]),
        ) matches Some((q, d)) && q == p && carries(p, chosen_payload(d.mode, Some(states[s - 2]), states[s - 1]))))
    }
}

/// The decoder holds the published state of the sequence it has committed.
pub open spec fn consistent(d: DecoderView, states: Seq<AgentStateView>) -> bool {
    &&& d.wf()
    &&& d.sequence matches Some(l) ==> 1 <= l <= states.len() && d.state == Some(states[l - 1])
}

/// A decoder that holds published states applies a genuine packet only to the
/// published state of its sequence.
pub proof fn lemma_genuine_step(d: DecoderView, policy: AdaptivePolicy, states: Seq<AgentStateView>, p: PacketView)
    requires
        consistent(d, states),
        genuine(policy, states, p),
        payloads_fit(states),
    ensures
        agent_step(d, p) matches AgentOutcome::Applied { sequence, state } ==> sequence == p.sequence && state
            == states[p.sequence - 1],
        agent_step(d, p) is Applied ==> (d.sequence matches Some(l) ==> l < p.sequence),
        agent_step(d, p) is Applied ==> !d.replay.seen.contains(p.sequence),
        agent_step(d, p) is Duplicate ==> d.replay.seen.contains(p.sequence) || (d.sequence matches Some(l)
            && p.sequence < l),
        p.kind == PacketKind::Snapshot ==> !(agent_step(d, p) is NeedSnapshot),
        agent_step(d, p) is Applied || agent_step(d, p) is Duplicate || agent_step(d, p) is NeedSnapshot,
        p.sequence >= 1,
        p.sequence <= states.len(),
{
    reveal(genuine);
    let s = p.sequence as int;
    let cur = states[s - 1];
    let snap = agent_snapshot(p.sequence, cur);
    assert(agent_state_bytes(cur).len() <= MAX_LOGICAL_PAYLOAD);
    let step = receive_step(d.sequence, d.state is Some, d.replay.seen, spec_agent_schema_hash(), p);
    if policy.initial_choice(snap) matches Some((q, _)) && q == p && carries(p, agent_state_bytes(cur)) {
        lemma_initial_choice_no_worse(policy, snap);
        if step == ReceiveStep::ReadSnapshot {
            assert(logical_of(p, DecodeConfig::spec_default()) == Some(agent_state_bytes(cur))) by {
                if p.is_compressed() {
                    assert(crate::ext::zstd_decompressed(p.payload, MAX_LOGICAL_PAYLOAD) == Some(
                        agent_state_bytes(cur),
                    ));
                }
            }
            lemma_snapshot_step(d, p, cur);
        }
    } else {
        let prev = states[s - 2];
        let delta = agent_delta(p.sequence, prev, cur);
        lemma_choice_no_worse(policy, snap, delta);
        let chosen = policy.choice(snap, delta)->0;
        let d0 = chosen.1;
        let x = chosen_payload(d0.mode, Some(prev), cur);
        assert(0 < s - 1 < states.len());
        assert(agent_delta_bytes(delta_between(states[s - 2], states[s - 1]))->0.len() <= MAX_LOGICAL_PAYLOAD
            && cpu_step_exact(states[s - 2], states[s - 1]));
        assert(x.len() <= MAX_LOGICAL_PAYLOAD);
        assert(logical_of(p, DecodeConfig::spec_default()) == Some(x)) by {
            if p.is_compressed() {
                assert(crate::ext::zstd_decompressed(p.payload, MAX_LOGICAL_PAYLOAD) == Some(x));
            }
        }
        if d0.mode == EncodeMode::Delta || d0.mode == EncodeMode::DeltaZstd {
            if step == ReceiveStep::ReadDelta {
                lemma_delta_step(d, p, prev, cur);
            }
        } else {
            if step == ReceiveStep::ReadSnapshot {
                lemma_snapshot_step(d, p, cur);
            }
        }
    }
}

/// A decoder that holds published states still does after applying a genuine
/// packet.
pub proof fn lemma_genuine_commit(d: DecoderView, policy: AdaptivePolicy, states: Seq<AgentStateView>, p: PacketView)
    requires
        consistent(d, states),
        genuine(policy, states, p),
        payloads_fit(states),
        agent_step(d, p) is Applied,
    ensures
        consistent(
            DecoderView {
                sequence: Some(p.sequence),
                state: Some(states[p.sequence - 1]),
                replay: recorded(d.replay, p.sequence),
            },
            states,
        ),
{
    lemma_genuine_step(d, policy, states, p);
    lemma_commit_keeps_wf(d, p.sequence, states[p.sequence - 1]);
}

/// An agent receiver never rolls back or applies an unsafe packet: whatever it
/// is offered, it either stays as it was, or commits a sequence newer than any
/// it holds; a delta only on top of the sequence the delta names; and a packet
/// it has already seen is reported as a duplicate.
pub proof fn lemma_agent_apply_safety(
    old: DecoderView,
    p: PacketView,
    new: DecoderView,
    res: Result<ApplyResult, DeltaError>,
)
    requires
        old.wf(),
        agent_apply_post(old, p, new, res),
    ensures
        !(res matches Ok(ApplyResult::Applied { .. })) ==> new == old,
        res matches Ok(ApplyResult::Applied { sequence, .. }) ==> {
            &&& sequence == p.sequence
            &&& p.schema_hash == spec_agent_schema_hash()
            &&& !old.replay.seen.contains(p.sequence)
            &&& old.sequence matches Some(l) ==> l < p.sequence
            &&& p.kind == PacketKind::Delta ==> old.sequence == Some(p.base_sequence)
            &&& new.sequence == Some(p.sequence)
            &&& new.replay.seen.contains(p.sequence)
        },
        p.schema_hash == spec_agent_schema_hash() && old.replay.seen.contains(p.sequence) ==> new == old && res
            == Ok::<ApplyResult, DeltaError>(ApplyResult::Duplicate { sequence: p.sequence }),
{
    if res matches Ok(ApplyResult::Applied { sequence, .. }) {
        if let Some(l) = old.sequence {
            assert(old.replay.seen.contains(l));
        }
        if !old.replay.seen.contains(p.sequence) {
            lemma_commit_keeps_wf(old, p.sequence, new.state->0);
        }
    }
}

/// What an agent receiver commits is read from the packet: a snapshot's state
/// is the state its logical payload encodes, whose encoding hashes to the base
/// hash; a delta's state is its logical payload, read as a delta, applied to
/// the state held, whose encoding hashes to the base hash. A delta that builds
/// on the current sequence of a receiver with a state whose encoding hashes
/// otherwise is answered with a request for a snapshot.
pub proof fn lemma_agent_commit(old: DecoderView, p: PacketView, new: DecoderView, res: Result<ApplyResult, DeltaError>)
    requires
        agent_apply_post(old, p, new, res),
    ensures
        res matches Ok(ApplyResult::Applied { state, .. }) ==> {
            &&& new.state == Some(state@)
            &&& p.kind == PacketKind::Snapshot ==> exists|x: Seq<u8>|
                logical_of(p, DecodeConfig::spec_default()) == Some(x) && parse_agent_state(x) == Some(state@)
                    && spec_fnv1a64(agent_state_bytes(state@)) == p.base_hash
            &&& p.kind == PacketKind::Delta ==> (old.state matches Some(base) && spec_fnv1a64(
                agent_state_bytes(base),
            ) == p.base_hash && exists|x: Seq<u8>|
                logical_of(p, DecodeConfig::spec_default()) == Some(x) && (parse_agent_delta(x) matches Some(delta)
                    && delta_apply(delta, base) == Some(state@)))
        },
        ({
            &&& p.kind == PacketKind::Delta
            &&& p.schema_hash == spec_agent_schema_hash()
            &&& !old.replay.seen.contains(p.sequence)
            &&& old.sequence == Some(p.base_sequence)
            &&& p.base_sequence <= p.sequence
            &&& old.state matches Some(base) && spec_fnv1a64(agent_state_bytes(base)) != p.base_hash
        }) ==> res == Ok::<ApplyResult, DeltaError>(
            ApplyResult::NeedSnapshot { local_sequence: old.sequence, required_sequence: p.base_sequence },
        ) && new == old,
{
}

} // verus!
