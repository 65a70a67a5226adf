//! Byte-state synchronization: an encoder that picks, for each new state, the
//! smallest of a snapshot and every smart-delta strategy (optionally compressed),
//! and a decoder that applies packets only on top of the state they were computed from.
use crate::buf::copy_bytes;
use crate::error::DeltaError;
use crate::packet::{carries, delta_packet, logical_of, logical_payload_matches, sat_add, snapshot_packet, wire_len, DecodeConfig, Packet, PacketKind, PacketView, FLAG_COMPRESSED_ZSTD, MAX_LOGICAL_PAYLOAD};
use crate::smart_delta::{
    self, candidate_kinds, candidate_payload, is_candidate, lemma_candidate_payload_len, smart_apply, tuner_after,
    AdaptiveTuner, SmartDeltaCandidate, SmartDeltaKind, SmartDeltaPolicy, MIN_TUNED_PAYLOAD, lemma_any_payload_len,
};
use crate::sync::{fnv1a64, spec_fnv1a64};
use vstd::prelude::*;
use vstd::string::*;

verus! {

/// How the encoder represented a state.
#[derive(Debug, Clone, Copy, PartialEq, Eq, Structural)]
pub enum ByteEncodeMode {
    Snapshot,
    SnapshotZstd,
    Delta(SmartDeltaKind),
    DeltaZstd(SmartDeltaKind),
}

/// What the encoder chose for its last state, and what it weighed.
#[derive(Debug, Clone, Copy, PartialEq, Eq, Structural)]
pub struct ByteEncodeDecision {
    pub mode: ByteEncodeMode,
    pub selected_bytes: usize,
    pub snapshot_bytes: usize,
    pub candidates_considered: usize,
}

/// Encoder settings.
#[derive(Debug, Clone, Copy, PartialEq, Eq)]
pub struct V25Policy {
    pub smart_delta: SmartDeltaPolicy,
    pub enable_zstd: bool,
    pub zstd_level: i32,
    pub min_compression_savings: usize,
    pub compression_cpu_penalty_bytes: usize,
}

impl V25Policy {
    /// The default settings: default smart-delta policy, zstd at level 1 when it
    /// saves at least 8 bytes, no CPU penalty.
    pub open spec fn spec_default() -> V25Policy {
        V25Policy {
            smart_delta: SmartDeltaPolicy { chunk_size: 1024, max_range_gap: 0 },
            enable_zstd: true,
            zstd_level: 1,
            min_compression_savings: 8,
            compression_cpu_penalty_bytes: 0,
        }
    }
}

impl Default for V25Policy {
    fn default() -> (p: Self)
        ensures
            p == V25Policy::spec_default(),
    {
        V25Policy {
            smart_delta: SmartDeltaPolicy::default(),
            enable_zstd: true,
            zstd_level: 1,
            min_compression_savings: 8,
            compression_cpu_penalty_bytes: 0,
        }
    }
}

/// Encoder of successive byte states into snapshot or delta packets.
#[derive(Debug)]
pub struct ByteStateEncoder {
    sequence: u64,
    previous: Option<Vec<u8>>,
    schema_hash: u64,
    policy: V25Policy,
    tuner: AdaptiveTuner,
    last_decision: Option<ByteEncodeDecision>,
}

/// The state of a [`ByteStateEncoder`].
pub struct ByteEncoderView {
    pub sequence: u64,
    pub previous: Option<Seq<u8>>,
    pub schema_hash: u64,
    pub policy: V25Policy,
    pub tuner: AdaptiveTuner,
    pub last_decision: Option<ByteEncodeDecision>,
}

/// The contents of an optional byte buffer.
pub open spec fn opt_bytes(o: Option<Vec<u8>>) -> Option<Seq<u8>> {
    match o {
        Some(v) => Some(v@),
        None => None,
    }
}

impl View for ByteStateEncoder {
    type V = ByteEncoderView;

    closed spec fn view(&self) -> ByteEncoderView {
        ByteEncoderView {
            sequence: self.sequence,
            previous: opt_bytes(self.previous),
            schema_hash: self.schema_hash,
            policy: self.policy,
            tuner: self.tuner,
            last_decision: self.last_decision,
        }
    }
}

/// The best packet found so far while encoding, with its mode and score, how many
/// packets were weighed, and the tuner after the compression attempts made.
pub struct Selection {
    pub best: PacketView,
    pub mode: ByteEncodeMode,
    pub score: int,
    pub considered: int,
    pub tuner: AdaptiveTuner,
}

/// Whether the tuner lets a payload of `len` bytes be compressed.
pub open spec fn tuner_tries(t: AdaptiveTuner, len: int) -> bool {
    len >= t.min_zstd_payload && len >= MIN_TUNED_PAYLOAD
}

/// Weighing the compressed form of `q`: when enabled and worth trying, the
/// compressor is run, the tuner learns the outcome, and a compressed packet whose
/// size plus CPU penalty beats the best score replaces it. `Err` carries the tuner
/// when the compressor fails.
#[verifier::opaque]
pub open spec fn weigh_zstd(
    sel: Selection,
    q: PacketView,
    zmode: ByteEncodeMode,
    policy: V25Policy,
) -> Result<Selection, AdaptiveTuner> {
    if policy.enable_zstd && tuner_tries(sel.tuner, q.payload.len() as int) {
        match q.zstd_candidate(policy.zstd_level, policy.min_compression_savings) {
            None => Err(sel.tuner),
            Some(c) => {
                let tuner = tuner_after(sel.tuner, wire_len(q) as usize, wire_len(c) as usize);
                let score = sat_add(
                    wire_len(c),
                    if c.is_compressed() {
                        policy.compression_cpu_penalty_bytes as int
                    } else {
                        0
                    },
                );
                if c.is_compressed() && score < sel.score {
                    Ok(Selection { best: c, mode: zmode, score, considered: sel.considered + 1, tuner })
                } else {
                    Ok(Selection { considered: sel.considered + 1, tuner, ..sel })
                }
            },
        }
    } else {
        Ok(sel)
    }
}

/// Weighing a delta packet `q` of strategy `kind`, then its compressed form.
#[verifier::opaque]
pub open spec fn weigh_delta(
    sel: Selection,
    q: PacketView,
    kind: SmartDeltaKind,
    policy: V25Policy,
) -> Result<Selection, AdaptiveTuner> {
    let next = if wire_len(q) < sel.score {
        Selection {
            best: q,
            mode: ByteEncodeMode::Delta(kind),
            score: wire_len(q),
            considered: sel.considered + 1,
            tuner: sel.tuner,
        }
    } else {
        Selection { considered: sel.considered + 1, ..sel }
    };
    weigh_zstd(next, q, ByteEncodeMode::DeltaZstd(kind), policy)
}

/// Weighing the first `n` delta strategies for `previous -> current`.
pub open spec fn weigh_deltas(
    start: Selection,
    sequence: u64,
    schema_hash: u64,
    previous: Seq<u8>,
    current: Seq<u8>,
    policy: V25Policy,
    n: int,
) -> Result<Selection, AdaptiveTuner>
    decreases n,
{
    if n <= 0 {
        Ok(start)
    } else {
        match weigh_deltas(start, sequence, schema_hash, previous, current, policy, n - 1) {
            Err(t) => Err(t),
            Ok(sel) => {
                let kind = candidate_kinds(previous.len() == current.len())[n - 1];
                let payload = candidate_payload(kind, previous, current, policy.smart_delta);
                weigh_delta(sel, delta_packet(sequence, schema_hash, previous, payload), kind, policy)
            },
        }
    }
}

/// Once weighing fails, weighing further strategies fails the same way.
proof fn lemma_weigh_deltas_err(
    start: Selection,
    sequence: u64,
    schema_hash: u64,
    previous: Seq<u8>,
    current: Seq<u8>,
    policy: V25Policy,
    m: int,
    n: int,
)
    requires
        0 <= m <= n,
        weigh_deltas(start, sequence, schema_hash, previous, current, policy, m) is Err,
    ensures
        weigh_deltas(start, sequence, schema_hash, previous, current, policy, n) == weigh_deltas(
            start,
            sequence,
            schema_hash,
            previous,
            current,
            policy,
            m,
        ),
    decreases n - m,
{
    if m < n {
        lemma_weigh_deltas_err(start, sequence, schema_hash, previous, current, policy, m, n - 1);
    }
}

/// The choice the encoder in state `enc` makes for `current` at its next
/// sequence: the snapshot, then its compressed form, then every delta strategy
/// from the previous state with its compressed form, each replacing the best so
/// far only when strictly smaller. `Err` carries the tuner when the compressor fails.
pub open spec fn encode_selection(enc: ByteEncoderView, current: Seq<u8>) -> Result<
    Selection,
    AdaptiveTuner,
> {
    let sequence = (enc.sequence + 1) as u64;
    let snapshot = snapshot_packet(sequence, enc.schema_hash, current);
    let start = Selection {
        best: snapshot,
        mode: ByteEncodeMode::Snapshot,
        score: wire_len(snapshot),
        considered: 1,
        tuner: enc.tuner,
    };
    match weigh_zstd(start, snapshot, ByteEncodeMode::SnapshotZstd, enc.policy) {
        Err(t) => Err(t),
        Ok(sel) => match enc.previous {
            None => Ok(sel),
            Some(previous) => weigh_deltas(
                sel,
                sequence,
                enc.schema_hash,
                previous,
                current,
                enc.policy,
                candidate_kinds(previous.len() == current.len()).len() as int,
            ),
        },
    }
}

/// The bytes a packet of the given mode stands for: the state itself for
/// snapshots, the strategy's payload for deltas.
pub open spec fn mode_payload(
    mode: ByteEncodeMode,
    previous: Seq<u8>,
    current: Seq<u8>,
    policy: SmartDeltaPolicy,
) -> Seq<u8> {
    match mode {
        ByteEncodeMode::Snapshot => current,
        ByteEncodeMode::SnapshotZstd => current,
        ByteEncodeMode::Delta(k) => candidate_payload(k, previous, current, policy),
        ByteEncodeMode::DeltaZstd(k) => candidate_payload(k, previous, current, policy),
    }
}

/// `p`, produced in `mode` at `sequence`, stands for `current`: a snapshot of it,
/// or a delta from `previous` whose payload applies to `previous` to give `current`.
#[verifier::opaque]
pub open spec fn represents(
    p: PacketView,
    mode: ByteEncodeMode,
    previous: Option<Seq<u8>>,
    current: Seq<u8>,
    sequence: u64,
    schema_hash: u64,
    policy: SmartDeltaPolicy,
) -> bool {
    let prev = match previous {
        Some(s) => s,
        None => Seq::empty(),
    };
    let x = mode_payload(mode, prev, current, policy);
    &&& p.sequence == sequence
    &&& p.schema_hash == schema_hash
    &&& (mode is SnapshotZstd || mode is DeltaZstd) == p.is_compressed()
    &&& carries(p, x)
    &&& match mode {
        ByteEncodeMode::Snapshot | ByteEncodeMode::SnapshotZstd => {
            &&& p.kind is Snapshot
            &&& p.base_hash == spec_fnv1a64(current)
        },
        ByteEncodeMode::Delta(k) | ByteEncodeMode::DeltaZstd(k) => {
            &&& p.kind is Delta
            &&& previous is Some
            &&& p.base_sequence == sequence - 1
            &&& p.base_hash == spec_fnv1a64(prev)
            &&& smart_apply(prev, x) == Some(current)
        },
    }
}

/// The decision recorded for a selection.
pub open spec fn decision_of(sel: Selection, snapshot_bytes: int) -> ByteEncodeDecision {
    ByteEncodeDecision {
        mode: sel.mode,
        selected_bytes: wire_len(sel.best) as usize,
        snapshot_bytes: snapshot_bytes as usize,
        candidates_considered: sel.considered as usize,
    }
}

/// The encoder state and result after encoding `current` from state `old`.
pub open spec fn encode_post(
    old: ByteEncoderView,
    current: Seq<u8>,
    new: ByteEncoderView,
    res: Result<Packet, DeltaError>,
) -> bool {
    if old.sequence == u64::MAX {
        new == old && (res matches Err(e) && e is InvalidState)
    } else {
        let sequence = (old.sequence + 1) as u64;
        match encode_selection(old, current) {
            Ok(sel) => {
                &&& res matches Ok(p) && p@ == sel.best
                &&& new == ByteEncoderView {
                    sequence,
                    previous: Some(current),
                    tuner: sel.tuner,
                    last_decision: Some(
                        decision_of(sel, wire_len(snapshot_packet(sequence, old.schema_hash, current))),
                    ),
                    ..old
                }
            },
            Err(tuner) => {
                &&& res matches Err(e) && e is Compression
                &&& new == ByteEncoderView { sequence, tuner, ..old }
            },
        }
    }
}

/// What `recovery_snapshot` returns for the current state.
pub open spec fn recovery_post(enc: ByteEncoderView, current: Seq<u8>, res: Result<Packet, DeltaError>) -> bool {
    let snapshot = snapshot_packet(enc.sequence, enc.schema_hash, current);
    if enc.policy.enable_zstd && tuner_tries(enc.tuner, current.len() as int) {
        match snapshot.zstd_candidate(enc.policy.zstd_level, enc.policy.min_compression_savings) {
            Some(c) => res matches Ok(p) && p@ == c && carries(p@, current),
            None => res matches Err(e) && e is Compression,
        }
    } else {
        res matches Ok(p) && p@ == snapshot
    }
}

impl ByteStateEncoder {
    /// An encoder for the schema `schema_name` with the default policy.
    pub fn new(schema_name: &str) -> (e: Self)
        ensures
            e@ == (ByteEncoderView {
                sequence: 0,
                previous: None,
                schema_hash: spec_fnv1a64(schema_name.spec_bytes()),
                policy: V25Policy::spec_default(),
                tuner: AdaptiveTuner {
                    samples: 0,
                    compression_attempts: 0,
                    compression_wins: 0,
                    min_zstd_payload: 256,
                },
                last_decision: None,
            }),
    {
        Self::with_policy(schema_name, V25Policy::default())
    }

    /// An encoder for the schema `schema_name` with the given policy.
    pub fn with_policy(schema_name: &str, policy: V25Policy) -> (e: Self)
        ensures
            e@ == (ByteEncoderView {
                sequence: 0,
                previous: None,
                schema_hash: spec_fnv1a64(schema_name.spec_bytes()),
                policy,
                tuner: AdaptiveTuner {
                    samples: 0,
                    compression_attempts: 0,
                    compression_wins: 0,
                    min_zstd_payload: 256,
                },
                last_decision: None,
            }),
    {
        ByteStateEncoder {
            sequence: 0,
            previous: None,
            schema_hash: fnv1a64(schema_name.as_bytes()),
            policy,
            tuner: AdaptiveTuner::new(),
            last_decision: None,
        }
    }

    /// Weighs the compressed form of `q` against the best packet so far; `true`
    /// when it replaced the best.
    fn weigh_compressed(
        &mut self,
        q: &Packet,
        zmode: ByteEncodeMode,
        best: &mut Packet,
        mode: &mut ByteEncodeMode,
        best_score: &mut usize,
        considered: &mut usize,
        Ghost(sel): Ghost<Selection>,
    ) -> (res: Result<bool, DeltaError>)
        requires
            !q@.is_compressed(),
            sel.best == old(best)@,
            sel.mode == *old(mode),
            sel.score == *old(best_score),
            sel.considered == *old(considered),
            sel.tuner == old(self).tuner,
            *old(considered) < 100,
        ensures
            match weigh_zstd(sel, q@, zmode, old(self).policy) {
                Ok(s) => {
                    &&& res is Ok
                    &&& s.best == final(best)@
                    &&& s.mode == *final(mode)
                    &&& s.score == *final(best_score)
                    &&& s.considered == *final(considered)
                    &&& s.tuner == final(self).tuner
                    &&& *final(considered) <= *old(considered) + 1
                },
                Err(t) => {
                    &&& res matches Err(e) && e is Compression
                    &&& t == final(self).tuner
                },
            },
            res matches Ok(true) ==> {
                &&& *final(mode) == zmode
                &&& final(best)@.is_compressed()
                &&& carries(final(best)@, q@.payload)
                &&& final(best)@ == PacketView {
                    payload: final(best)@.payload,
                    flags: q@.flags | FLAG_COMPRESSED_ZSTD,
                    ..q@
                }
            },
            res matches Ok(false) ==> final(best)@ == old(best)@ && *final(mode) == *old(mode),
            final(self).sequence == old(self).sequence,
            final(self).previous == old(self).previous,
            final(self).schema_hash == old(self).schema_hash,
            final(self).policy == old(self).policy,
            final(self).last_decision == old(self).last_decision,
    {
        if self.policy.enable_zstd && self.tuner.should_try_zstd(q.payload.len()) {
            proof {
                reveal(weigh_zstd);
            }
            let compressed = q.zstd_candidate(self.policy.zstd_level, self.policy.min_compression_savings)?;
            *considered = *considered + 1;
            self.tuner.observe_compression(q.encoded_len(), compressed.encoded_len());
            let penalty = if compressed.is_compressed() {
                self.policy.compression_cpu_penalty_bytes
            } else {
                0
            };
            let score = compressed.encoded_len().saturating_add(penalty);
            if compressed.is_compressed() && score < *best_score {
                *best_score = score;
                *best = compressed;
                *mode = zmode;
                return Ok(true);
            }
        }
        proof {
            reveal(weigh_zstd);
        }
        Ok(false)
    }

    /// Weighs the delta packet of one candidate strategy, then its compressed form.
    fn weigh_candidate(
        &mut self,
        candidate: &SmartDeltaCandidate,
        prev: &Vec<u8>,
        current: &[u8],
        base_hash: u64,
        best: &mut Packet,
        mode: &mut ByteEncodeMode,
        best_score: &mut usize,
        considered: &mut usize,
        Ghost(sel): Ghost<Selection>,
        Ghost(previous): Ghost<Option<Seq<u8>>>,
    ) -> (res: Result<(), DeltaError>)
        requires
            is_candidate(*candidate, candidate.kind, prev@, current@, old(self).policy.smart_delta),
            base_hash == spec_fnv1a64(prev@),
            previous == Some(prev@),
            old(self).sequence >= 1,
            sel.best == old(best)@,
            sel.mode == *old(mode),
            sel.score == *old(best_score),
            sel.considered == *old(considered),
            sel.tuner == old(self).tuner,
            *old(considered) < 90,
            represents(
                old(best)@,
                *old(mode),
                previous,
                current@,
                old(self).sequence,
                old(self).schema_hash,
                old(self).policy.smart_delta,
            ),
        ensures
            match weigh_delta(
                sel,
                delta_packet(old(self).sequence, old(self).schema_hash, prev@, candidate.payload@),
                candidate.kind,
                old(self).policy,
            ) {
                Ok(s) => {
                    &&& res is Ok
                    &&& s.best == final(best)@
                    &&& s.mode == *final(mode)
                    &&& s.score == *final(best_score)
                    &&& s.considered == *final(considered)
                    &&& s.tuner == final(self).tuner
                    &&& *final(considered) <= *old(considered) + 2
                },
                Err(t) => {
                    &&& res matches Err(e) && e is Compression
                    &&& t == final(self).tuner
                },
            },
            res is Ok ==> represents(
                final(best)@,
                *final(mode),
                previous,
                current@,
                old(self).sequence,
                old(self).schema_hash,
                old(self).policy.smart_delta,
            ),
            final(self).sequence == old(self).sequence,
            final(self).previous == old(self).previous,
            final(self).schema_hash == old(self).schema_hash,
            final(self).policy == old(self).policy,
            final(self).last_decision == old(self).last_decision,
    {
        proof {
            reveal(is_candidate);
            reveal(weigh_delta);
            reveal(represents);
        }
        let sequence = self.sequence;
        let delta = Packet::delta(
            sequence,
            sequence - 1,
            base_hash,
            self.schema_hash,
            copy_bytes(candidate.payload.as_slice()),
        );
        *considered = *considered + 1;
        let delta_len = delta.encoded_len();
        if delta_len < *best_score {
            *best_score = delta_len;
            *best = delta.duplicate();
            *mode = ByteEncodeMode::Delta(candidate.kind);
        }
        let ghost mid = Selection {
            best: best@,
            mode: *mode,
            score: *best_score as int,
            considered: *considered as int,
            tuner: self.tuner,
        };
        self.weigh_compressed(
            &delta,
            ByteEncodeMode::DeltaZstd(candidate.kind),
            best,
            mode,
            best_score,
            considered,
            Ghost(mid),
        )?;
        Ok(())
    }

    /// Weighs every candidate strategy in turn.
    fn weigh_all(
        &mut self,
        candidates: &Vec<SmartDeltaCandidate>,
        prev: &Vec<u8>,
        current: &[u8],
        best: &mut Packet,
        mode: &mut ByteEncodeMode,
        best_score: &mut usize,
        considered: &mut usize,
        Ghost(old_view): Ghost<ByteEncoderView>,
    ) -> (res: Result<(), DeltaError>)
        requires
            candidates@.len() == candidate_kinds(prev@.len() == current@.len()).len(),
            forall|i: int|
                0 <= i < candidates@.len() ==> is_candidate(
                    #[trigger] candidates@[i],
                    candidate_kinds(prev@.len() == current@.len())[i],
                    prev@,
                    current@,
                    old_view.policy.smart_delta,
                ),
            old_view.previous == Some(prev@),
            old(self).sequence == old_view.sequence + 1,
            old(self).schema_hash == old_view.schema_hash,
            old(self).policy == old_view.policy,
            *old(considered) <= 2,
            start_sel_after_snapshot(old_view, current@) == (Selection {
                best: old(best)@,
                mode: *old(mode),
                score: *old(best_score) as int,
                considered: *old(considered) as int,
                tuner: old(self).tuner,
            }),
            represents(
                old(best)@,
                *old(mode),
                old_view.previous,
                current@,
                old(self).sequence,
                old_view.schema_hash,
                old_view.policy.smart_delta,
            ),
        ensures
            match weigh_deltas(
                start_sel_after_snapshot(old_view, current@),
                old(self).sequence,
                old_view.schema_hash,
                prev@,
                current@,
                old_view.policy,
                candidates@.len() as int,
            ) {
                Ok(s) => {
                    &&& res is Ok
                    &&& s.best == final(best)@
                    &&& s.mode == *final(mode)
                    &&& s.score == *final(best_score)
                    &&& s.considered == *final(considered)
                    &&& s.tuner == final(self).tuner
                    &&& represents(
                        final(best)@,
                        *final(mode),
                        old_view.previous,
                        current@,
                        old(self).sequence,
                        old_view.schema_hash,
                        old_view.policy.smart_delta,
                    )
                },
                Err(t) => {
                    &&& res matches Err(e) && e is Compression
                    &&& t == final(self).tuner
                },
            },
            final(self).sequence == old(self).sequence,
            final(self).previous == old(self).previous,
            final(self).schema_hash == old(self).schema_hash,
            final(self).policy == old(self).policy,
            final(self).last_decision == old(self).last_decision,
    {
        let ghost kinds = candidate_kinds(prev@.len() == current@.len());
        let ghost start = start_sel_after_snapshot(old_view, current@);
        let ghost sequence = self.sequence;
        let base_hash = fnv1a64(prev.as_slice());
        let mut k: usize = 0;
        while k < candidates.len()
            invariant
                k <= candidates@.len() == kinds.len(),
                kinds == candidate_kinds(prev@.len() == current@.len()),
                kinds.len() <= 5,
                forall|i: int|
                    0 <= i < candidates@.len() ==> is_candidate(
                        #[trigger] candidates@[i],
                        kinds[i],
                        prev@,
                        current@,
                        old_view.policy.smart_delta,
                    ),
                base_hash == spec_fnv1a64(prev@),
                sequence == old_view.sequence + 1,
                sequence == old(self).sequence,
                start == start_sel_after_snapshot(old_view, current@),
                *considered <= 2 + 2 * k,
                old_view.previous == Some(prev@),
                self.sequence == sequence,
                self.schema_hash == old_view.schema_hash,
                self.policy == old_view.policy,
                self.previous == old(self).previous,
                self.schema_hash == old(self).schema_hash,
                self.policy == old(self).policy,
                self.last_decision == old(self).last_decision,
                weigh_deltas(
                    start,
                    sequence,
                    old_view.schema_hash,
                    prev@,
                    current@,
                    old_view.policy,
                    k as int,
                ) == Ok::<Selection, AdaptiveTuner>(
                    Selection {
                        best: best@,
                        mode: *mode,
                        score: *best_score as int,
                        considered: *considered as int,
                        tuner: self.tuner,
                    },
                ),
                represents(
                    best@,
                    *mode,
                    old_view.previous,
                    current@,
                    sequence,
                    old_view.schema_hash,
                    old_view.policy.smart_delta,
                ),
            decreases candidates@.len() - k,
        {
            let candidate = &candidates[k];
            proof {
                reveal(is_candidate);
                assert(candidate.kind == kinds[k as int]);
            }
            let ghost sel = Selection {
                best: best@,
                mode: *mode,
                score: *best_score as int,
                considered: *considered as int,
                tuner: self.tuner,
            };
            let r = self.weigh_candidate(
                candidate,
                prev,
                current,
                base_hash,
                best,
                mode,
                best_score,
                considered,
                Ghost(sel),
                Ghost(old_view.previous),
            );
            proof {
                let q = delta_packet(sequence, old_view.schema_hash, prev@, candidate.payload@);
                assert(weigh_deltas(
                    start,
                    sequence,
                    old_view.schema_hash,
                    prev@,
                    current@,
                    old_view.policy,
                    k + 1,
                ) == weigh_delta(sel, q, kinds[k as int], old_view.policy));
            }
            if let Err(e) = r {
                proof {
                    lemma_weigh_deltas_err(
                        start,
                        sequence,
                        old_view.schema_hash,
                        prev@,
                        current@,
                        old_view.policy,
                        k + 1,
                        kinds.len() as int,
                    );
                }
                return Err(e);
            }
            k = k + 1;
        }
        Ok(())
    }

    /// Encodes `current` as the next sequence: the smallest of its snapshot, every
    /// delta strategy from the previous state and, when enabled, their zstd
    /// forms. The packet stands for `current` on top of the previous state.
    pub fn encode(&mut self, current: &[u8]) -> (res: Result<Packet, DeltaError>)
        ensures
            encode_post(old(self)@, current@, final(self)@, res),
            res matches Ok(p) ==> (final(self)@.last_decision matches Some(d) && represents(
                p@,
                d.mode,
                old(self)@.previous,
                current@,
                final(self)@.sequence,
                old(self)@.schema_hash,
                old(self)@.policy.smart_delta,
            )),
    {
        if self.sequence == u64::MAX {
            return Err(DeltaError::InvalidState("sequence exhausted"));
        }
        let ghost old_view = self@;
        self.sequence = self.sequence + 1;
        let sequence = self.sequence;
        let snapshot = Packet::snapshot(sequence, fnv1a64(current), self.schema_hash, copy_bytes(current));
        let snapshot_bytes = snapshot.encoded_len();
        let mut best = snapshot.duplicate();
        let mut mode = ByteEncodeMode::Snapshot;
        let mut best_score = snapshot_bytes;
        let mut considered: usize = 1;
        let ghost start = Selection {
            best: snapshot@,
            mode: ByteEncodeMode::Snapshot,
            score: wire_len(snapshot@),
            considered: 1,
            tuner: old_view.tuner,
        };
        let r = self.weigh_compressed(
            &snapshot,
            ByteEncodeMode::SnapshotZstd,
            &mut best,
            &mut mode,
            &mut best_score,
            &mut considered,
            Ghost(start),
        );
        if let Err(e) = r {
            return Err(e);
        }
        assert(represents(
            best@,
            mode,
            old_view.previous,
            current@,
            sequence,
            old_view.schema_hash,
            old_view.policy.smart_delta,
        )) by {
            reveal(represents);
        }
        assert(represents(
            best@,
            mode,
            old_view.previous,
            current@,
            sequence,
            old_view.schema_hash,
            old_view.policy.smart_delta,
        ));
        proof {
            reveal(start_sel_after_snapshot);
        }
        let previous = self.previous.take();
        match previous {
            None => {},
            Some(prev) => {
                let candidates = smart_delta::encode_candidates(
                    prev.as_slice(),
                    current,
                    self.policy.smart_delta,
                );
                let candidates = match candidates {
                    Ok(c) => c,
                    Err(e) => {
                        self.previous = Some(prev);
                        return Err(e);
                    },
                };
                let r = self.weigh_all(
                    &candidates,
                    &prev,
                    current,
                    &mut best,
                    &mut mode,
                    &mut best_score,
                    &mut considered,
                    Ghost(old_view),
                );
                self.previous = Some(prev);
                if let Err(e) = r {
                    return Err(e);
                }
            },
        }
        self.previous = Some(copy_bytes(current));
        let decision = ByteEncodeDecision {
            mode,
            selected_bytes: best.encoded_len(),
            snapshot_bytes,
            candidates_considered: considered,
        };
        self.last_decision = Some(decision);
        Ok(best)
    }

    /// A snapshot of `current` at the current sequence, compressed under the same
    /// rules as regular snapshots.
    pub fn recovery_snapshot(&self, current: &[u8]) -> (res: Result<Packet, DeltaError>)
        ensures
            recovery_post(self@, current@, res),
    {
        let snapshot = Packet::snapshot(self.sequence, fnv1a64(current), self.schema_hash, copy_bytes(current));
        if self.policy.enable_zstd && self.tuner.should_try_zstd(snapshot.payload.len()) {
            snapshot.zstd_candidate(self.policy.zstd_level, self.policy.min_compression_savings)
        } else {
            Ok(snapshot)
        }
    }

    /// The sequence of the last encoded state (zero before the first).
    pub fn sequence(&self) -> (s: u64)
        ensures
            s == self@.sequence,
    {
        self.sequence
    }

    /// The decision made for the last encoded state.
    pub fn last_decision(&self) -> (d: Option<&ByteEncodeDecision>)
        ensures
            match d {
                Some(x) => self@.last_decision == Some(*x),
                None => self@.last_decision is None,
            },
    {
        self.last_decision.as_ref()
    }

    /// The compression tuner.
    pub fn tuner(&self) -> (t: AdaptiveTuner)
        ensures
            t == self@.tuner,
    {
        self.tuner
    }
}

/// The selection after the snapshot and its compressed form were weighed.
#[verifier::opaque]
pub open spec fn start_sel_after_snapshot(enc: ByteEncoderView, current: Seq<u8>) -> Selection {
    let sequence = (enc.sequence + 1) as u64;
    let snapshot = snapshot_packet(sequence, enc.schema_hash, current);
    let start = Selection {
        best: snapshot,
        mode: ByteEncodeMode::Snapshot,
        score: wire_len(snapshot),
        considered: 1,
        tuner: enc.tuner,
    };
    match weigh_zstd(start, snapshot, ByteEncodeMode::SnapshotZstd, enc.policy) {
        Ok(s) => s,
        Err(t) => start,
    }
}


/// What applying a packet did.
#[derive(Debug, Clone, PartialEq, Eq)]
pub enum ByteApplyResult {
    Applied { sequence: u64, state: Vec<u8> },
    NeedRecovery { local_sequence: Option<u64>, required_sequence: u64 },
    Duplicate { sequence: u64 },
}

/// Receiver of byte-state packets.
#[derive(Debug)]
pub struct ByteStateDecoder {
    sequence: Option<u64>,
    state: Option<Vec<u8>>,
    schema_hash: u64,
}

/// The state of a [`ByteStateDecoder`].
pub struct ByteDecoderView {
    pub sequence: Option<u64>,
    pub state: Option<Seq<u8>>,
    pub schema_hash: u64,
}

impl View for ByteStateDecoder {
    type V = ByteDecoderView;

    closed spec fn view(&self) -> ByteDecoderView {
        ByteDecoderView {
            sequence: self.sequence,
            state: opt_bytes(self.state),
            schema_hash: self.schema_hash,
        }
    }
}

/// The outcome of offering a packet to a decoder.
pub enum ApplyOutcome {
    Applied { sequence: u64, state: Seq<u8> },
    NeedRecovery { local_sequence: Option<u64>, required_sequence: u64 },
    Duplicate { sequence: u64 },
    SchemaMismatch { expected: u64, received: u64 },
    PayloadUnreadable,
    SnapshotHashMismatch,
    NoBaseState,
    DeltaRejected,
}

/// The rules a decoder in state `d` follows for packet `p`, checked in order:
/// the schema must match; packets not newer than the current sequence are
/// duplicates; the payload must be readable; a snapshot must hash to the hash it
/// carries; a delta must build on the current sequence and a state with the hash
/// it names (otherwise recovery is needed), and must apply.
pub open spec fn decode_step(d: ByteDecoderView, p: PacketView) -> ApplyOutcome {
    if p.schema_hash != d.schema_hash {
        ApplyOutcome::SchemaMismatch { expected: d.schema_hash, received: p.schema_hash }
    } else if d.sequence matches Some(s) && p.sequence <= s {
        ApplyOutcome::Duplicate { sequence: p.sequence }
    } else {
        match logical_of(p, DecodeConfig::spec_default()) {
            None => ApplyOutcome::PayloadUnreadable,
            Some(x) => match p.kind {
                PacketKind::Snapshot => if spec_fnv1a64(x) != p.base_hash {
                    ApplyOutcome::SnapshotHashMismatch
                } else {
                    ApplyOutcome::Applied { sequence: p.sequence, state: x }
                },
                PacketKind::Delta => if d.sequence != Some(p.base_sequence) {
                    ApplyOutcome::NeedRecovery {
                        local_sequence: d.sequence,
                        required_sequence: p.base_sequence,
                    }
                } else {
                    match d.state {
                        None => ApplyOutcome::NoBaseState,
                        Some(base) => if spec_fnv1a64(base) != p.base_hash {
                            ApplyOutcome::NeedRecovery {
                                local_sequence: d.sequence,
                                required_sequence: p.base_sequence,
                            }
                        } else {
                            match smart_apply(base, x) {
                                None => ApplyOutcome::DeltaRejected,
                                Some(n) => ApplyOutcome::Applied { sequence: p.sequence, state: n },
                            }
                        },
                    }
                },
            },
        }
    }
}

/// The result and new decoder state for an outcome; every outcome but
/// `Applied` leaves the decoder as it was.
pub open spec fn apply_post(
    old: ByteDecoderView,
    p: PacketView,
    new: ByteDecoderView,
    res: Result<ByteApplyResult, DeltaError>,
) -> bool {
    match decode_step(old, p) {
        ApplyOutcome::Applied { sequence, state } => {
            &&& res matches Ok(ByteApplyResult::Applied { sequence: s, state: v }) && s == sequence
                && v@ == state
            &&& new == ByteDecoderView { sequence: Some(sequence), state: Some(state), ..old }
        },
        ApplyOutcome::NeedRecovery { local_sequence, required_sequence } => {
            &&& res == Ok::<ByteApplyResult, DeltaError>(
                ByteApplyResult::NeedRecovery { local_sequence, required_sequence },
            )
            &&& new == old
        },
        ApplyOutcome::Duplicate { sequence } => {
            &&& res == Ok::<ByteApplyResult, DeltaError>(ByteApplyResult::Duplicate { sequence })
            &&& new == old
        },
        ApplyOutcome::SchemaMismatch { expected, received } => {
            &&& res == Err::<ByteApplyResult, DeltaError>(
                DeltaError::SchemaMismatch { expected, received },
            )
            &&& new == old
        },
        ApplyOutcome::PayloadUnreadable => {
            &&& res matches Err(e) && logical_payload_matches(
                Err::<Vec<u8>, DeltaError>(e),
                p,
                DecodeConfig::spec_default(),
            )
            &&& new == old
        },
        ApplyOutcome::DeltaRejected => {
            &&& res matches Err(e) && e is InvalidPacket
            &&& new == old
        },
        _ => {
            &&& res matches Err(e) && e is InvalidState
            &&& new == old
        },
    }
}

impl ByteStateDecoder {
    /// A decoder for the schema `schema_name`, with no state yet.
    pub fn new(schema_name: &str) -> (d: Self)
        ensures
            d@ == (ByteDecoderView {
                sequence: None,
                state: None,
                schema_hash: spec_fnv1a64(schema_name.spec_bytes()),
            }),
    {
        ByteStateDecoder { sequence: None, state: None, schema_hash: fnv1a64(schema_name.as_bytes()) }
    }

    /// Applies a packet when it is new and builds on the current state.
    pub fn apply(&mut self, packet: Packet) -> (res: Result<ByteApplyResult, DeltaError>)
        ensures
            apply_post(old(self)@, packet@, final(self)@, res),
    {
        if packet.schema_hash != self.schema_hash {
            return Err(DeltaError::SchemaMismatch {
                expected: self.schema_hash,
                received: packet.schema_hash,
            });
        }
        if let Some(seq) = self.sequence {
            if packet.sequence <= seq {
                return Ok(ByteApplyResult::Duplicate { sequence: packet.sequence });
            }
        }
        let payload = packet.logical_payload()?;
        let next = match packet.kind {
            PacketKind::Snapshot => {
                if fnv1a64(payload.as_slice()) != packet.base_hash {
                    return Err(DeltaError::InvalidState("byte snapshot hash mismatch"));
                }
                payload
            },
            PacketKind::Delta => {
                let in_step = match self.sequence {
                    Some(s) => s == packet.base_sequence,
                    None => false,
                };
                if !in_step {
                    return Ok(ByteApplyResult::NeedRecovery {
                        local_sequence: self.sequence,
                        required_sequence: packet.base_sequence,
                    });
                }
                let base = match &self.state {
                    Some(b) => b,
                    None => {
                        return Err(DeltaError::InvalidState("byte decoder has no base state"));
                    },
                };
                if fnv1a64(base.as_slice()) != packet.base_hash {
                    return Ok(ByteApplyResult::NeedRecovery {
                        local_sequence: self.sequence,
                        required_sequence: packet.base_sequence,
                    });
                }
                smart_delta::apply(base.as_slice(), payload.as_slice())?
            },
        };
        self.sequence = Some(packet.sequence);
        self.state = Some(copy_bytes(next.as_slice()));
        Ok(ByteApplyResult::Applied { sequence: packet.sequence, state: next })
    }

    /// The current state, if any.
    pub fn state(&self) -> (s: Option<&[u8]>)
        ensures
            match s {
                Some(x) => self@.state == Some(x@),
                None => self@.state is None,
            },
    {
        match &self.state {
            Some(v) => Some(v.as_slice()),
            None => None,
        }
    }

    /// The sequence of the current state, if any.
    pub fn sequence(&self) -> (s: Option<u64>)
        ensures
            s == self@.sequence,
    {
        self.sequence
    }

    /// Forgets the current state; the next packet must be a snapshot.
    pub fn reset(&mut self)
        ensures
            final(self)@ == (ByteDecoderView { sequence: None, state: None, ..old(self)@ }),
    {
        self.sequence = None;
        self.state = None;
    }
}

/// A decoder and an encoder agree: same schema, and the decoder holds the state
/// the encoder last encoded, at the same sequence.
pub open spec fn in_step(d: ByteDecoderView, e: ByteEncoderView) -> bool {
    &&& d.schema_hash == e.schema_hash
    &&& d.state == e.previous
    &&& d.sequence == if e.previous is Some {
        Some(e.sequence)
    } else {
        None::<u64>
    }
}

/// A decoder in step with an encoder applies the encoder's next packet, ending in
/// the state the encoder encoded, and the two stay in step. The bytes the packet
/// carries must fit within the decoder's payload limit.
pub proof fn lemma_decoder_follows_encoder(
    dec: ByteDecoderView,
    enc: ByteEncoderView,
    current: Seq<u8>,
    p: PacketView,
    mode: ByteEncodeMode,
)
    requires
        in_step(dec, enc),
        enc.sequence < u64::MAX,
        represents(
            p,
            mode,
            enc.previous,
            current,
            (enc.sequence + 1) as u64,
            enc.schema_hash,
            enc.policy.smart_delta,
        ),
        mode_payload(
            mode,
            match enc.previous {
                Some(s) => s,
                None => Seq::empty(),
            },
            current,
            enc.policy.smart_delta,
        ).len() <= MAX_LOGICAL_PAYLOAD,
    ensures
        decode_step(dec, p) == (ApplyOutcome::Applied { sequence: (enc.sequence + 1) as u64, state: current }),
        in_step(
            ByteDecoderView { sequence: Some((enc.sequence + 1) as u64), state: Some(current), ..dec },
            ByteEncoderView { sequence: (enc.sequence + 1) as u64, previous: Some(current), ..enc },
        ),
{
    reveal(represents);
    let prev = match enc.previous {
        Some(s) => s,
        None => Seq::empty(),
    };
    let x = mode_payload(mode, prev, current, enc.policy.smart_delta);
    if p.is_compressed() {
        assert(crate::ext::zstd_decompressed(p.payload, MAX_LOGICAL_PAYLOAD) == Some(x));
    }
    assert(logical_of(p, DecodeConfig::spec_default()) == Some(x));
}


/// A byte-state receiver never rolls back: whatever it is offered, it either
/// stays as it was, or commits a sequence newer than the one it holds; a delta
/// only on top of the sequence and state hash the delta names.
pub proof fn lemma_byte_apply_safety(
    old: ByteDecoderView,
    p: PacketView,
    new: ByteDecoderView,
    res: Result<ByteApplyResult, DeltaError>,
)
    requires
        apply_post(old, p, new, res),
    ensures
        !(res matches Ok(ByteApplyResult::Applied { .. })) ==> new == old,
        res matches Ok(ByteApplyResult::Applied { sequence, .. }) ==> {
            &&& sequence == p.sequence
            &&& p.schema_hash == old.schema_hash
            &&& old.sequence matches Some(l) ==> l < p.sequence
            &&& p.kind == PacketKind::Delta ==> old.sequence == Some(p.base_sequence) && (old.state matches Some(
                b,
            ) && spec_fnv1a64(b) == p.base_hash)
            &&& new.sequence == Some(p.sequence)
        },
        p.schema_hash == old.schema_hash && (old.sequence matches Some(l) && p.sequence <= l) ==> new == old
            && res == Ok::<ByteApplyResult, DeltaError>(ByteApplyResult::Duplicate { sequence: p.sequence }),
{
}

/// The states of a byte stream all have length `n`, at most a million bytes.
pub open spec fn uniform_states(states: Seq<Seq<u8>>, n: int) -> bool {
    &&& 0 <= n <= 1_000_000
    &&& forall|i: int| 0 <= i < states.len() ==> (#[trigger] states[i]).len() == n
}

/// `p` is a packet an encoder of `schema` sends for the `s`-th of `states` at
/// sequence `s`, with the state before it as the delta base, or a plain
/// snapshot of that state at `s`.
pub open spec fn byte_genuine(p: PacketView, states: Seq<Seq<u8>>, schema: u64, policy: SmartDeltaPolicy) -> bool {
    let s = p.sequence as int;
    &&& 1 <= s <= states.len()
    &&& {
        ||| p == snapshot_packet(p.sequence, schema, states[s - 1])
        ||| exists|m: ByteEncodeMode|
            #[trigger] represents(p, m, base_state(states, s), states[s - 1], p.sequence, schema, policy)
    }
}

/// The state before the `s`-th of `states`, if any.
pub open spec fn base_state(states: Seq<Seq<u8>>, s: int) -> Option<Seq<u8>> {
    if s <= 1 {
        None
    } else {
        Some(states[s - 2])
    }
}

/// The decoder is of `schema` and holds the published state of the sequence it
/// has committed.
pub open spec fn byte_consistent(d: ByteDecoderView, states: Seq<Seq<u8>>, schema: u64) -> bool {
    &&& d.schema_hash == schema
    &&& d.sequence matches Some(l) ==> 1 <= l <= states.len() && d.state == Some(states[l - 1])
}

/// A decoder that holds published states applies a genuine packet only to the
/// published state of its sequence.
pub proof fn lemma_byte_genuine_step(
    d: ByteDecoderView,
    p: PacketView,
    states: Seq<Seq<u8>>,
    n: int,
    schema: u64,
    policy: SmartDeltaPolicy,
)
    requires
        byte_consistent(d, states, schema),
        byte_genuine(p, states, schema, policy),
        uniform_states(states, n),
    ensures
        decode_step(d, p) matches ApplyOutcome::Applied { sequence, state } ==> sequence == p.sequence && state
            == states[p.sequence - 1],
        decode_step(d, p) is Applied || decode_step(d, p) is NeedRecovery || decode_step(d, p) is Duplicate,
{
    reveal(represents);
    let s = p.sequence as int;
    let cur = states[s - 1];
    assert(cur.len() == n);
    if p == snapshot_packet(p.sequence, schema, cur) {
        assert(0u16 & 1u16 == 0) by (bit_vector);
        assert(!p.is_compressed());
        assert(logical_of(p, DecodeConfig::spec_default()) == Some(cur));
    } else {
        let prev_opt = base_state(states, s);
        let m = choose|m: ByteEncodeMode| #[trigger] represents(p, m, prev_opt, cur, p.sequence, schema, policy);
        let prev = match prev_opt {
            Some(x) => x,
            None => Seq::<u8>::empty(),
        };
        let x = mode_payload(m, prev, cur, policy);
        match m {
            ByteEncodeMode::Delta(k) => {
                assert(states[s - 2].len() == n);
                lemma_candidate_payload_len(k, prev, cur, policy);
            },
            ByteEncodeMode::DeltaZstd(k) => {
                assert(states[s - 2].len() == n);
                lemma_candidate_payload_len(k, prev, cur, policy);
            },
            _ => {},
        }
        assert(x.len() <= MAX_LOGICAL_PAYLOAD);
        assert(logical_of(p, DecodeConfig::spec_default()) == Some(x)) by {
            if p.is_compressed() {
                assert(crate::ext::zstd_decompressed(p.payload, MAX_LOGICAL_PAYLOAD) == Some(x));
            }
        }
    }
}

/// A decoder that holds published states still does after being offered a
/// genuine packet, and the offer succeeds: a snapshot is applied or ignored as
/// a duplicate, and a delta may ask for recovery.
pub proof fn lemma_byte_apply_consistent(
    old: ByteDecoderView,
    p: PacketView,
    new: ByteDecoderView,
    res: Result<ByteApplyResult, DeltaError>,
    states: Seq<Seq<u8>>,
    n: int,
    schema: u64,
    policy: SmartDeltaPolicy,
)
    requires
        byte_consistent(old, states, schema),
        byte_genuine(p, states, schema, policy),
        uniform_states(states, n),
        apply_post(old, p, new, res),
    ensures
        byte_consistent(new, states, schema),
        res is Ok,
        p.kind is Snapshot ==> !(res matches Ok(ByteApplyResult::NeedRecovery { .. })),
{
    lemma_byte_genuine_step(old, p, states, n, schema, policy);
}

/// `v1` is `v0` after a successful encode of `c` into packet `p`, as `encode`
/// promises.
pub open spec fn byte_step(v0: ByteEncoderView, c: Seq<u8>, v1: ByteEncoderView, p: PacketView) -> bool {
    &&& exists|q: Packet| q@ == p && #[trigger] encode_post(v0, c, v1, Ok::<Packet, DeltaError>(q))
    &&& v1.last_decision matches Some(d) && represents(
        p,
        d.mode,
        v0.previous,
        c,
        v1.sequence,
        v0.schema_hash,
        v0.policy.smart_delta,
    )
}

/// Encoder views `vs` joined by successful encodes of `cs`, packet `ps[i]` for
/// `cs[i]`.
pub open spec fn byte_run(vs: Seq<ByteEncoderView>, cs: Seq<Seq<u8>>, ps: Seq<PacketView>) -> bool {
    &&& vs.len() == cs.len() + 1
    &&& ps.len() == cs.len()
    &&& forall|i: int| 0 <= i < cs.len() ==> #[trigger] byte_step(vs[i], cs[i], vs[i + 1], ps[i])
}

/// Over successive encodes, packets are numbered one after another from the
/// encoder's sequence, the encoder holds the last state it encoded, and its last
/// decision describes the last packet.
pub proof fn lemma_byte_run(vs: Seq<ByteEncoderView>, cs: Seq<Seq<u8>>, ps: Seq<PacketView>)
    requires
        byte_run(vs, cs, ps),
    ensures
        forall|i: int| 0 <= i < cs.len() ==> #[trigger] ps[i].sequence == vs[0].sequence + i + 1,
        vs[cs.len() as int].sequence == vs[0].sequence + cs.len(),
        cs.len() > 0 ==> vs[cs.len() as int].previous == Some(cs[cs.len() - 1]),
        cs.len() > 0 ==> (vs[cs.len() as int].last_decision matches Some(d) && d.selected_bytes == wire_len(
            ps[cs.len() - 1],
        ) as usize),
    decreases cs.len(),
{
    reveal(represents);
    let n = cs.len() as int;
    if n > 0 {
        let vs2 = vs.drop_last();
        let cs2 = cs.drop_last();
        let ps2 = ps.drop_last();
        assert forall|i: int| 0 <= i < cs2.len() implies #[trigger] byte_step(vs2[i], cs2[i], vs2[i + 1], ps2[i]) by {
            assert(vs2[i] == vs[i] && vs2[i + 1] == vs[i + 1] && cs2[i] == cs[i] && ps2[i] == ps[i]);
            assert(byte_step(vs[i], cs[i], vs[i + 1], ps[i]));
        }
        lemma_byte_run(vs2, cs2, ps2);
        assert(vs2[n - 1] == vs[n - 1]);
        assert(byte_step(vs[n - 1], cs[n - 1], vs[n], ps[n - 1]));
        let q = choose|q: Packet| q@ == ps[n - 1] && #[trigger] encode_post(vs[n - 1], cs[n - 1], vs[n], Ok::<Packet, DeltaError>(q));
        assert forall|i: int| 0 <= i < cs.len() implies #[trigger] ps[i].sequence == vs[0].sequence + i + 1 by {
            if i < n - 1 {
                assert(ps2[i] == ps[i]);
            }
        }
    }
}


/// The delta packet of strategy `j` for `previous -> current` at `sequence`.
pub open spec fn delta_candidate(
    j: int,
    sequence: u64,
    schema_hash: u64,
    previous: Seq<u8>,
    current: Seq<u8>,
    policy: V25Policy,
) -> PacketView {
    let kind = candidate_kinds(previous.len() == current.len())[j];
    delta_packet(sequence, schema_hash, previous, candidate_payload(kind, previous, current, policy.smart_delta))
}

proof fn lemma_weigh_deltas_min(
    start: Selection,
    sequence: u64,
    schema_hash: u64,
    previous: Seq<u8>,
    current: Seq<u8>,
    policy: V25Policy,
    n: int,
)
    ensures
        weigh_deltas(start, sequence, schema_hash, previous, current, policy, n) matches Ok(sel) ==> {
            &&& sel.score <= start.score
            &&& forall|j: int|
                0 <= j < n ==> sel.score <= wire_len(
                    #[trigger] delta_candidate(j, sequence, schema_hash, previous, current, policy),
                )
        },
    decreases n,
{
    reveal(weigh_delta);
    reveal(weigh_zstd);
    if n > 0 {
        lemma_weigh_deltas_min(start, sequence, schema_hash, previous, current, policy, n - 1);
    }
}

/// The encoder keeps the cheapest packet it weighs: the selected score is no
/// more than the snapshot's wire size, nor than the wire size of any delta
/// strategy it tried.
pub proof fn lemma_selection_is_cheapest(enc: ByteEncoderView, current: Seq<u8>)
    ensures
        encode_selection(enc, current) matches Ok(sel) ==> {
            &&& sel.score <= wire_len(snapshot_packet((enc.sequence + 1) as u64, enc.schema_hash, current))
            &&& enc.previous matches Some(previous) ==> forall|j: int|
                0 <= j < candidate_kinds(previous.len() == current.len()).len() ==> sel.score <= wire_len(
                    #[trigger] delta_candidate(j, (enc.sequence + 1) as u64, enc.schema_hash, previous, current, enc.policy),
                )
        },
{
    reveal(weigh_zstd);
    let sequence = (enc.sequence + 1) as u64;
    let snapshot = snapshot_packet(sequence, enc.schema_hash, current);
    let start = Selection {
        best: snapshot,
        mode: ByteEncodeMode::Snapshot,
        score: wire_len(snapshot),
        considered: 1,
        tuner: enc.tuner,
    };
    if let Ok(sel) = weigh_zstd(start, snapshot, ByteEncodeMode::SnapshotZstd, enc.policy) {
        if let Some(previous) = enc.previous {
            lemma_weigh_deltas_min(
                sel,
                sequence,
                enc.schema_hash,
                previous,
                current,
                enc.policy,
                candidate_kinds(previous.len() == current.len()).len() as int,
            );
        }
    }
}


/// The score of the compressed form of `p` under `policy`, when the compressor
/// succeeds and its frame is kept: the compressed wire size plus the CPU penalty.
pub open spec fn compressed_score(p: PacketView, policy: V25Policy) -> Option<int> {
    match p.zstd_candidate(policy.zstd_level, policy.min_compression_savings) {
        Some(c) => if c.is_compressed() {
            Some(sat_add(wire_len(c), policy.compression_cpu_penalty_bytes as int))
        } else {
            None
        },
        None => None,
    }
}

/// One compression attempt with a tuner whose window is not full leaves its
/// threshold alone and counts the attempt.
proof fn lemma_tuner_steady(t: AdaptiveTuner, before: usize, after: usize)
    requires
        t.compression_attempts + 1 < smart_delta::TUNING_WINDOW,
    ensures
        tuner_after(t, before, after).min_zstd_payload == t.min_zstd_payload,
        tuner_after(t, before, after).compression_attempts == t.compression_attempts + 1,
{
}

/// Weighing a compressed form never raises the score, and with a tuner whose
/// window is not full, keeps its threshold and counts at most one attempt.
proof fn lemma_weigh_zstd_step(sel: Selection, q: PacketView, zmode: ByteEncodeMode, policy: V25Policy)
    ensures
        weigh_zstd(sel, q, zmode, policy) matches Ok(s) ==> {
            &&& s.score <= sel.score
            &&& policy.enable_zstd && tuner_tries(sel.tuner, q.payload.len() as int) ==> (compressed_score(
                q,
                policy,
            ) matches Some(z) ==> s.score <= z)
            &&& sel.tuner.compression_attempts + 1 < smart_delta::TUNING_WINDOW ==> {
                &&& s.tuner.min_zstd_payload == sel.tuner.min_zstd_payload
                &&& s.tuner.compression_attempts <= sel.tuner.compression_attempts + 1
            }
        },
{
    reveal(weigh_zstd);
    if policy.enable_zstd && tuner_tries(sel.tuner, q.payload.len() as int) {
        if let Some(c) = q.zstd_candidate(policy.zstd_level, policy.min_compression_savings) {
            if sel.tuner.compression_attempts + 1 < smart_delta::TUNING_WINDOW {
                lemma_tuner_steady(sel.tuner, wire_len(q) as usize, wire_len(c) as usize);
            }
        }
    }
}

/// Weighing a delta packet leaves a score no more than the one before, than the
/// packet's wire size, and, when the tuner lets it be compressed, than the score
/// of its compressed form.
pub proof fn lemma_weigh_delta_cheapest(sel: Selection, q: PacketView, kind: SmartDeltaKind, policy: V25Policy)
    ensures
        weigh_delta(sel, q, kind, policy) matches Ok(s) ==> {
            &&& s.score <= sel.score
            &&& s.score <= wire_len(q)
            &&& policy.enable_zstd && tuner_tries(sel.tuner, q.payload.len() as int) ==> (compressed_score(
                q,
                policy,
            ) matches Some(z) ==> s.score <= z)
            &&& sel.tuner.compression_attempts + 1 < smart_delta::TUNING_WINDOW ==> {
                &&& s.tuner.min_zstd_payload == sel.tuner.min_zstd_payload
                &&& s.tuner.compression_attempts <= sel.tuner.compression_attempts + 1
            }
        },
{
    reveal(weigh_delta);
    let next = if wire_len(q) < sel.score {
        Selection {
            best: q,
            mode: ByteEncodeMode::Delta(kind),
            score: wire_len(q),
            considered: sel.considered + 1,
            tuner: sel.tuner,
        }
    } else {
        Selection { considered: sel.considered + 1, ..sel }
    };
    lemma_weigh_zstd_step(next, q, ByteEncodeMode::DeltaZstd(kind), policy);
}

/// Weighing more strategies never raises the score.
proof fn lemma_weigh_deltas_mono(
    start: Selection,
    sequence: u64,
    schema_hash: u64,
    previous: Seq<u8>,
    current: Seq<u8>,
    policy: V25Policy,
    m: int,
    n: int,
)
    requires
        0 <= m <= n,
    ensures
        weigh_deltas(start, sequence, schema_hash, previous, current, policy, n) matches Ok(sn) ==> (weigh_deltas(
            start,
            sequence,
            schema_hash,
            previous,
            current,
            policy,
            m,
        ) matches Ok(sm) && sn.score <= sm.score),
    decreases n - m,
{
    if m < n {
        lemma_weigh_deltas_mono(start, sequence, schema_hash, previous, current, policy, m, n - 1);
        if let Ok(s1) = weigh_deltas(start, sequence, schema_hash, previous, current, policy, n - 1) {
            let kind = candidate_kinds(previous.len() == current.len())[n - 1];
            let payload = candidate_payload(kind, previous, current, policy.smart_delta);
            lemma_weigh_delta_cheapest(s1, delta_packet(sequence, schema_hash, previous, payload), kind, policy);
        } else {
            lemma_weigh_deltas_err(start, sequence, schema_hash, previous, current, policy, n - 1, n);
        }
    }
}

/// What the encoder in state `enc` has weighed for `current` when it comes to
/// delta strategy `j` from `previous`: the snapshot, its compressed form, and
/// the strategies before `j`, each with its compressed form.
pub open spec fn selection_before(enc: ByteEncoderView, current: Seq<u8>, previous: Seq<u8>, j: int) -> Result<
    Selection,
    AdaptiveTuner,
> {
    let sequence = (enc.sequence + 1) as u64;
    let snapshot = snapshot_packet(sequence, enc.schema_hash, current);
    let start = Selection {
        best: snapshot,
        mode: ByteEncodeMode::Snapshot,
        score: wire_len(snapshot),
        considered: 1,
        tuner: enc.tuner,
    };
    match weigh_zstd(start, snapshot, ByteEncodeMode::SnapshotZstd, enc.policy) {
        Err(t) => Err(t),
        Ok(sel) => weigh_deltas(sel, sequence, enc.schema_hash, previous, current, enc.policy, j),
    }
}

/// Whether the encoder, coming to delta strategy `j` from `previous`, lets the
/// compressor try that strategy's packet.
pub open spec fn tries_delta(enc: ByteEncoderView, current: Seq<u8>, previous: Seq<u8>, j: int) -> bool {
    &&& enc.policy.enable_zstd
    &&& selection_before(enc, current, previous, j) matches Ok(s) && tuner_tries(
        s.tuner,
        delta_candidate(j, (enc.sequence + 1) as u64, enc.schema_hash, previous, current, enc.policy).payload.len() as int,
    )
}

/// The encoder sends nothing that scores more than a compressed form it was let
/// try: the compressed snapshot, when compression is on and the tuner takes a
/// state of that size, and the compressed packet of every delta strategy the
/// tuner lets it compress.
pub proof fn lemma_selection_beats_compressed(enc: ByteEncoderView, current: Seq<u8>)
    ensures
        encode_selection(enc, current) matches Ok(sel) ==> {
            &&& enc.policy.enable_zstd && tuner_tries(enc.tuner, current.len() as int) ==> (compressed_score(
                snapshot_packet((enc.sequence + 1) as u64, enc.schema_hash, current),
                enc.policy,
            ) matches Some(z) ==> sel.score <= z)
            &&& enc.previous matches Some(previous) ==> forall|j: int|
                0 <= j < kinds_for(previous, current).len() && #[trigger] tries_delta(enc, current, previous, j)
                    ==> (compressed_score(
                    delta_candidate(j, (enc.sequence + 1) as u64, enc.schema_hash, previous, current, enc.policy),
                    enc.policy,
                ) matches Some(z) ==> sel.score <= z)
        },
{
    let sequence = (enc.sequence + 1) as u64;
    let snapshot = snapshot_packet(sequence, enc.schema_hash, current);
    let start = Selection {
        best: snapshot,
        mode: ByteEncodeMode::Snapshot,
        score: wire_len(snapshot),
        considered: 1,
        tuner: enc.tuner,
    };
    lemma_weigh_zstd_step(start, snapshot, ByteEncodeMode::SnapshotZstd, enc.policy);
    if let Ok(sel0) = weigh_zstd(start, snapshot, ByteEncodeMode::SnapshotZstd, enc.policy) {
        if let Some(previous) = enc.previous {
            let n = kinds_for(previous, current).len() as int;
            lemma_weigh_deltas_mono(sel0, sequence, enc.schema_hash, previous, current, enc.policy, 0, n);
            assert forall|j: int|
                0 <= j < n && #[trigger] tries_delta(enc, current, previous, j) implies (encode_selection(
                enc,
                current,
            ) matches Ok(sel) ==> (compressed_score(
                delta_candidate(j, sequence, enc.schema_hash, previous, current, enc.policy),
                enc.policy,
            ) matches Some(z) ==> sel.score <= z)) by {
                lemma_weigh_deltas_mono(sel0, sequence, enc.schema_hash, previous, current, enc.policy, j + 1, n);
                let sj = weigh_deltas(sel0, sequence, enc.schema_hash, previous, current, enc.policy, j)->Ok_0;
                lemma_weigh_delta_cheapest(
                    sj,
                    delta_candidate(j, sequence, enc.schema_hash, previous, current, enc.policy),
                    candidate_kinds(previous.len() == current.len())[j],
                    enc.policy,
                );
            }
        }
    }
}

/// Coming to strategy `j`, a tuner with room left in its window still has the
/// threshold it started with.
proof fn lemma_selection_before_tuner(enc: ByteEncoderView, current: Seq<u8>, previous: Seq<u8>, j: int)
    requires
        0 <= j,
        enc.tuner.compression_attempts + j + 2 < smart_delta::TUNING_WINDOW,
    ensures
        selection_before(enc, current, previous, j) matches Ok(s) ==> {
            &&& s.tuner.min_zstd_payload == enc.tuner.min_zstd_payload
            &&& s.tuner.compression_attempts <= enc.tuner.compression_attempts + j + 1
        },
    decreases j,
{
    let sequence = (enc.sequence + 1) as u64;
    let snapshot = snapshot_packet(sequence, enc.schema_hash, current);
    let start = Selection {
        best: snapshot,
        mode: ByteEncodeMode::Snapshot,
        score: wire_len(snapshot),
        considered: 1,
        tuner: enc.tuner,
    };
    lemma_weigh_zstd_step(start, snapshot, ByteEncodeMode::SnapshotZstd, enc.policy);
    if j > 0 {
        lemma_selection_before_tuner(enc, current, previous, j - 1);
        if let Ok(sel0) = weigh_zstd(start, snapshot, ByteEncodeMode::SnapshotZstd, enc.policy) {
            if let Ok(s1) = weigh_deltas(sel0, sequence, enc.schema_hash, previous, current, enc.policy, j - 1) {
                lemma_weigh_delta_cheapest(
                    s1,
                    delta_candidate(j - 1, sequence, enc.schema_hash, previous, current, enc.policy),
                    candidate_kinds(previous.len() == current.len())[j - 1],
                    enc.policy,
                );
            }
        }
    }
}

/// With compression on and a tuner that will not fill its window during this
/// state, the encoder sends nothing that scores more than the compressed packet
/// of any delta strategy whose payload reaches the tuner's threshold.
pub proof fn lemma_selection_beats_compressed_deltas(enc: ByteEncoderView, current: Seq<u8>)
    ensures
        encode_selection(enc, current) matches Ok(sel) ==> (enc.previous matches Some(previous) ==> (
        enc.policy.enable_zstd && enc.tuner.compression_attempts + kinds_for(previous, current).len() + 2
            < smart_delta::TUNING_WINDOW ==> forall|j: int|
            0 <= j < kinds_for(previous, current).len() && #[trigger] delta_candidate(
                j,
                (enc.sequence + 1) as u64,
                enc.schema_hash,
                previous,
                current,
                enc.policy,
            ).payload.len() >= enc.tuner.min_zstd_payload && delta_candidate(
                j,
                (enc.sequence + 1) as u64,
                enc.schema_hash,
                previous,
                current,
                enc.policy,
            ).payload.len() >= MIN_TUNED_PAYLOAD ==> (compressed_score(
                delta_candidate(j, (enc.sequence + 1) as u64, enc.schema_hash, previous, current, enc.policy),
                enc.policy,
            ) matches Some(z) ==> sel.score <= z))),
{
    lemma_selection_beats_compressed(enc, current);
    let sequence = (enc.sequence + 1) as u64;
    let snapshot = snapshot_packet(sequence, enc.schema_hash, current);
    let start = Selection {
        best: snapshot,
        mode: ByteEncodeMode::Snapshot,
        score: wire_len(snapshot),
        considered: 1,
        tuner: enc.tuner,
    };
    if let Ok(sel) = encode_selection(enc, current) {
        if let Some(previous) = enc.previous {
            let n = kinds_for(previous, current).len() as int;
            if enc.policy.enable_zstd && enc.tuner.compression_attempts + n + 2 < smart_delta::TUNING_WINDOW {
                let sel0 = weigh_zstd(start, snapshot, ByteEncodeMode::SnapshotZstd, enc.policy)->Ok_0;
                assert forall|j: int|
                    0 <= j < n && #[trigger] delta_candidate(
                        j,
                        sequence,
                        enc.schema_hash,
                        previous,
                        current,
                        enc.policy,
                    ).payload.len() >= enc.tuner.min_zstd_payload && delta_candidate(
                        j,
                        sequence,
                        enc.schema_hash,
                        previous,
                        current,
                        enc.policy,
                    ).payload.len() >= MIN_TUNED_PAYLOAD implies (compressed_score(
                    delta_candidate(j, sequence, enc.schema_hash, previous, current, enc.policy),
                    enc.policy,
                ) matches Some(z) ==> sel.score <= z) by {
                    if weigh_deltas(sel0, sequence, enc.schema_hash, previous, current, enc.policy, j) is Err {
                        lemma_weigh_deltas_err(sel0, sequence, enc.schema_hash, previous, current, enc.policy, j, n);
                    }
                    lemma_selection_before_tuner(enc, current, previous, j);
                    assert(tries_delta(enc, current, previous, j));
                }
            }
        }
    }
}

/// The strategies weighed between `previous` and `current`.
pub open spec fn kinds_for(previous: Seq<u8>, current: Seq<u8>) -> Seq<SmartDeltaKind> {
    candidate_kinds(previous.len() == current.len())
}

proof fn lemma_weigh_deltas_mode(
    start: Selection,
    sequence: u64,
    schema_hash: u64,
    previous: Seq<u8>,
    current: Seq<u8>,
    policy: V25Policy,
    n: int,
)
    requires
        n <= kinds_for(previous, current).len(),
    ensures
        weigh_deltas(start, sequence, schema_hash, previous, current, policy, n) matches Ok(sel) ==> (sel.mode
            == start.mode || exists|j: int|
            0 <= j < n && (sel.mode == ByteEncodeMode::Delta(
                #[trigger] kinds_for(previous, current)[j],
            ) || sel.mode == ByteEncodeMode::DeltaZstd(kinds_for(previous, current)[j]))),
    decreases n,
{
    reveal(weigh_delta);
    reveal(weigh_zstd);
    if n > 0 {
        lemma_weigh_deltas_mode(start, sequence, schema_hash, previous, current, policy, n - 1);
    }
}

/// The encoder's mode is a snapshot mode, or a delta mode of one of the
/// strategies it weighs.
pub proof fn lemma_selection_mode(enc: ByteEncoderView, current: Seq<u8>)
    ensures
        encode_selection(enc, current) matches Ok(sel) ==> (sel.mode is Snapshot || sel.mode is SnapshotZstd || (
        enc.previous matches Some(previous) && exists|j: int|
            0 <= j < kinds_for(previous, current).len() && (sel.mode == ByteEncodeMode::Delta(
                #[trigger] kinds_for(previous, current)[j],
            ) || sel.mode == ByteEncodeMode::DeltaZstd(kinds_for(previous, current)[j])))),
{
    reveal(weigh_zstd);
    let sequence = (enc.sequence + 1) as u64;
    let snapshot = snapshot_packet(sequence, enc.schema_hash, current);
    let start = Selection {
        best: snapshot,
        mode: ByteEncodeMode::Snapshot,
        score: wire_len(snapshot),
        considered: 1,
        tuner: enc.tuner,
    };
    if let Ok(sel) = weigh_zstd(start, snapshot, ByteEncodeMode::SnapshotZstd, enc.policy) {
        if let Some(previous) = enc.previous {
            lemma_weigh_deltas_mode(
                sel,
                sequence,
                enc.schema_hash,
                previous,
                current,
                enc.policy,
                kinds_for(previous, current).len() as int,
            );
        }
    }
}

/// A decoder in step with an encoder takes the packet the encoder just made
/// for a small state, ends in that state, and stays in step.
pub proof fn lemma_follow_small(
    dec: ByteDecoderView,
    enc0: ByteEncoderView,
    current: Seq<u8>,
    enc1: ByteEncoderView,
    q: Packet,
)
    requires
        in_step(dec, enc0),
        encode_post(enc0, current, enc1, Ok::<Packet, DeltaError>(q)),
        enc1.last_decision matches Some(d) && represents(
            q@,
            d.mode,
            enc0.previous,
            current,
            enc1.sequence,
            enc0.schema_hash,
            enc0.policy.smart_delta,
        ),
        current.len() <= 100_000,
        enc0.previous matches Some(p) ==> p.len() <= 100_000,
    ensures
        decode_step(dec, q@) == (ApplyOutcome::Applied { sequence: enc1.sequence, state: current }),
        in_step(ByteDecoderView { sequence: Some(enc1.sequence), state: Some(current), ..dec }, enc1),
{
    lemma_selection_mode(enc0, current);
    let sel = encode_selection(enc0, current)->Ok_0;
    let d = enc1.last_decision->0;
    assert(d.mode == sel.mode);
    let prev = match enc0.previous {
        Some(s) => s,
        None => Seq::empty(),
    };
    match d.mode {
        ByteEncodeMode::Delta(k) | ByteEncodeMode::DeltaZstd(k) => {
            if enc0.previous is None {
                reveal(represents);
            } else {
                let previous = enc0.previous->0;
                let j = choose|j: int|
                    0 <= j < kinds_for(previous, current).len() && (sel.mode
                        == ByteEncodeMode::Delta(#[trigger] kinds_for(previous, current)[j])
                        || sel.mode == ByteEncodeMode::DeltaZstd(kinds_for(previous, current)[j]));
                assert(k == kinds_for(previous, current)[j]);
                lemma_any_payload_len(k, prev, current, enc0.policy.smart_delta);
            }
        },
        _ => {},
    }
    lemma_decoder_follows_encoder(dec, enc0, current, q@, d.mode);
}

} // verus!
