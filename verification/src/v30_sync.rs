//! The fast byte-state encoder: it profiles each change, asks the strategy
//! advisor for a shortlist, and weighs only those strategies.
use crate::buf::copy_bytes;
use crate::byte_sync::{represents, ByteEncodeMode, opt_bytes};
use crate::error::DeltaError;
use crate::fast_selector::{
    after_compression, after_no_delta, after_winner, compress_advice, lemma_shortlist_applicable,
    profile_of, shortlist_of, AdvisorView, ChangeProfile, SelectorPolicy, StrategyAdvisor,
};
use crate::packet::{carries, delta_packet, snapshot_packet, wire_len, Packet, PacketView};
use crate::runtime::RuntimeMetrics;
use crate::smart_delta::{
    self, candidate_payload, is_candidate, needs_equal_len, SmartDeltaKind, SmartDeltaPolicy,
};
use crate::sync::{fnv1a64, spec_fnv1a64};
use vstd::prelude::*;
use vstd::string::*;

verus! {

/// Settings of the fast encoder.
#[derive(Debug, Clone, Copy, PartialEq, Eq)]
pub struct V30Policy {
    pub smart_delta: SmartDeltaPolicy,
    pub selector: SelectorPolicy,
    pub enable_zstd: bool,
    pub zstd_level: i32,
    pub min_zstd_payload: usize,
    pub min_compression_savings: usize,
}

impl V30Policy {
    /// The default settings.
    pub open spec fn spec_default() -> V30Policy {
        V30Policy {
            smart_delta: SmartDeltaPolicy { chunk_size: 1024, max_range_gap: 0 },
            selector: SelectorPolicy::spec_default(),
            enable_zstd: true,
            zstd_level: 1,
            min_zstd_payload: 256,
            min_compression_savings: 8,
        }
    }
}

impl Default for V30Policy {
    fn default() -> (p: Self)
        ensures
            p == V30Policy::spec_default(),
    {
        V30Policy {
            smart_delta: SmartDeltaPolicy::default(),
            selector: SelectorPolicy::default(),
            enable_zstd: true,
            zstd_level: 1,
            min_zstd_payload: 256,
            min_compression_savings: 8,
        }
    }
}

/// How the fast encoder represented a state.
#[derive(Debug, Clone, Copy, PartialEq, Eq, Structural)]
pub enum V30EncodeMode {
    Snapshot,
    SnapshotZstd,
    Delta(SmartDeltaKind),
    DeltaZstd(SmartDeltaKind),
}

/// What the fast encoder chose for its last state.
#[derive(Debug, Clone, Copy, PartialEq, Eq, Structural)]
pub struct V30Decision {
    pub mode: V30EncodeMode,
    pub profile: Option<ChangeProfile>,
    pub candidates_considered: usize,
    pub selected_bytes: usize,
    pub snapshot_bytes: usize,
}

/// Encoder that weighs only the strategies its advisor shortlists.
#[derive(Debug)]
pub struct FastByteStateEncoder {
    sequence: u64,
    previous: Option<Vec<u8>>,
    schema_hash: u64,
    policy: V30Policy,
    advisor: StrategyAdvisor,
    metrics: RuntimeMetrics,
    last_decision: Option<V30Decision>,
}

/// The state of a [`FastByteStateEncoder`].
pub struct FastEncoderView {
    pub sequence: u64,
    pub previous: Option<Seq<u8>>,
    pub schema_hash: u64,
    pub policy: V30Policy,
    pub advisor: AdvisorView,
    pub metrics: RuntimeMetrics,
    pub last_decision: Option<V30Decision>,
}

impl View for FastByteStateEncoder {
    type V = FastEncoderView;

    closed spec fn view(&self) -> FastEncoderView {
        FastEncoderView {
            sequence: self.sequence,
            previous: opt_bytes(self.previous),
            schema_hash: self.schema_hash,
            policy: self.policy,
            advisor: self.advisor@,
            metrics: self.metrics,
            last_decision: self.last_decision,
        }
    }
}

/// The byte-encoder mode with the same meaning.
pub open spec fn as_byte_mode(m: V30EncodeMode) -> ByteEncodeMode {
    match m {
        V30EncodeMode::Snapshot => ByteEncodeMode::Snapshot,
        V30EncodeMode::SnapshotZstd => ByteEncodeMode::SnapshotZstd,
        V30EncodeMode::Delta(k) => ByteEncodeMode::Delta(k),
        V30EncodeMode::DeltaZstd(k) => ByteEncodeMode::DeltaZstd(k),
    }
}

/// The best packet so far, its mode, how many packets were weighed, and the advisor.
pub struct FastSelection {
    pub best: PacketView,
    pub mode: V30EncodeMode,
    pub considered: int,
    pub advisor: AdvisorView,
}

/// Weighing the delta packet `q` of strategy `kind`: it replaces the best when
/// strictly smaller; then, when enabled and advised, its compressed form is tried,
/// the advisor learns whether compression beat the plain delta, and a compressed
/// packet strictly smaller than the best replaces it. `Err` carries the advisor
/// when the compressor fails.
#[verifier::opaque]
pub open spec fn fast_weigh(
    sel: FastSelection,
    q: PacketView,
    kind: SmartDeltaKind,
    policy: V30Policy,
) -> Result<FastSelection, AdvisorView> {
    let s1 = if wire_len(q) < wire_len(sel.best) {
        FastSelection {
            best: q,
            mode: V30EncodeMode::Delta(kind),
            considered: sel.considered + 1,
            advisor: sel.advisor,
        }
    } else {
        FastSelection { considered: sel.considered + 1, ..sel }
    };
    if policy.enable_zstd && compress_advice(
        s1.advisor,
        q.payload.len() as int,
        policy.min_zstd_payload as int,
    ) {
        match q.zstd_candidate(policy.zstd_level, policy.min_compression_savings) {
            None => Err(s1.advisor),
            Some(c) => {
                let won = c.is_compressed() && wire_len(c) < wire_len(q);
                let s2 = FastSelection {
                    considered: s1.considered + 1,
                    advisor: after_compression(s1.advisor, won),
                    ..s1
                };
                if c.is_compressed() && wire_len(c) < wire_len(s2.best) {
                    Ok(FastSelection { best: c, mode: V30EncodeMode::DeltaZstd(kind), ..s2 })
                } else {
                    Ok(s2)
                }
            },
        }
    } else {
        Ok(s1)
    }
}

/// Weighing the first `n` shortlisted strategies.
pub open spec fn fast_weigh_all(
    start: FastSelection,
    sequence: u64,
    schema_hash: u64,
    previous: Seq<u8>,
    current: Seq<u8>,
    policy: V30Policy,
    kinds: Seq<SmartDeltaKind>,
    n: int,
) -> Result<FastSelection, AdvisorView>
    decreases n,
{
    if n <= 0 {
        Ok(start)
    } else {
        match fast_weigh_all(start, sequence, schema_hash, previous, current, policy, kinds, n - 1) {
            Err(a) => Err(a),
            Ok(sel) => fast_weigh(
                sel,
                delta_packet(
                    sequence,
                    schema_hash,
                    previous,
                    candidate_payload(kinds[n - 1], previous, current, policy.smart_delta),
                ),
                kinds[n - 1],
                policy,
            ),
        }
    }
}

/// The choice the fast encoder in state `enc` makes for `current`. With a
/// previous state it weighs the advisor's shortlist for the change and then tells
/// the advisor which strategy won (or that none did); without one it weighs the
/// snapshot and, for large enough states, its compressed form.
pub open spec fn fast_selection(enc: FastEncoderView, current: Seq<u8>) -> Result<
    FastSelection,
    AdvisorView,
> {
    let sequence = (enc.sequence + 1) as u64;
    let snapshot = snapshot_packet(sequence, enc.schema_hash, current);
    let start = FastSelection {
        best: snapshot,
        mode: V30EncodeMode::Snapshot,
        considered: 1,
        advisor: enc.advisor,
    };
    match enc.previous {
        Some(previous) => {
            let kinds = shortlist_of(enc.advisor, profile_of(previous, current));
            match fast_weigh_all(
                start,
                sequence,
                enc.schema_hash,
                previous,
                current,
                enc.policy,
                kinds,
                kinds.len() as int,
            ) {
                Err(a) => Err(a),
                Ok(sel) => Ok(
                    FastSelection {
                        advisor: match sel.mode {
                            V30EncodeMode::Delta(k) => after_winner(sel.advisor, k),
                            V30EncodeMode::DeltaZstd(k) => after_winner(sel.advisor, k),
                            _ => after_no_delta(sel.advisor),
                        },
                        ..sel
                    },
                ),
            }
        },
        None => if enc.policy.enable_zstd && current.len() >= enc.policy.min_zstd_payload {
            match snapshot.zstd_candidate(enc.policy.zstd_level, enc.policy.min_compression_savings) {
                None => Err(enc.advisor),
                Some(c) => if c.is_compressed() && wire_len(c) < wire_len(snapshot) {
                    Ok(
                        FastSelection {
                            best: c,
                            mode: V30EncodeMode::SnapshotZstd,
                            considered: 2,
                            advisor: enc.advisor,
                        },
                    )
                } else {
                    Ok(FastSelection { considered: 2, ..start })
                },
            }
        } else {
            Ok(start)
        },
    }
}

/// `a + b` saturating at `u64::MAX`.
pub open spec fn add_sat(a: u64, b: int) -> u64 {
    if a + b > u64::MAX {
        u64::MAX
    } else {
        (a + b) as u64
    }
}

/// The counters after emitting a packet of `out` bytes in `mode` for an input of
/// `input` bytes, after weighing `considered` packets.
pub open spec fn metrics_after(
    m: RuntimeMetrics,
    input: int,
    out: int,
    considered: int,
    mode: V30EncodeMode,
) -> RuntimeMetrics {
    let is_snapshot = mode is Snapshot || mode is SnapshotZstd;
    let is_zstd = mode is SnapshotZstd || mode is DeltaZstd;
    RuntimeMetrics {
        encoded_packets: add_sat(m.encoded_packets, 1),
        input_bytes: add_sat(m.input_bytes, input),
        output_bytes: add_sat(m.output_bytes, out),
        selector_candidates: add_sat(m.selector_candidates, considered),
        snapshots: if is_snapshot {
            (m.snapshots + 1) as u64
        } else {
            m.snapshots
        },
        deltas: if is_snapshot {
            m.deltas
        } else {
            (m.deltas + 1) as u64
        },
        compressed_packets: if is_zstd {
            (m.compressed_packets + 1) as u64
        } else {
            m.compressed_packets
        },
        ..m
    }
}

/// The counters stay consistent with the sequence: every encoded packet is a
/// snapshot or a delta, and the compressed ones are among them.
pub open spec fn fast_wf(e: FastEncoderView) -> bool {
    &&& e.metrics.snapshots + e.metrics.deltas <= e.sequence
    &&& e.metrics.compressed_packets <= e.metrics.snapshots + e.metrics.deltas
}

/// The encoder state and result after encoding `current` from state `old`.
pub open spec fn fast_encode_post(
    old: FastEncoderView,
    current: Seq<u8>,
    new: FastEncoderView,
    res: Result<Packet, DeltaError>,
) -> bool {
    if old.sequence == u64::MAX {
        new == old && (res matches Err(e) && e is InvalidState)
    } else {
        let sequence = (old.sequence + 1) as u64;
        let snapshot = snapshot_packet(sequence, old.schema_hash, current);
        match fast_selection(old, current) {
            Ok(sel) => {
                &&& res matches Ok(p) && p@ == sel.best
                &&& new == FastEncoderView {
                    sequence,
                    previous: Some(current),
                    advisor: sel.advisor,
                    metrics: metrics_after(
                        old.metrics,
                        current.len() as int,
                        wire_len(sel.best),
                        sel.considered,
                        sel.mode,
                    ),
                    last_decision: Some(
                        V30Decision {
                            mode: sel.mode,
                            profile: match old.previous {
                                Some(prev) => Some(profile_of(prev, current)),
                                None => None,
                            },
                            candidates_considered: sel.considered as usize,
                            selected_bytes: wire_len(sel.best) as usize,
                            snapshot_bytes: wire_len(snapshot) as usize,
                        },
                    ),
                    ..old
                }
            },
            Err(advisor) => {
                &&& res matches Err(e) && e is Compression
                &&& new == FastEncoderView { sequence, advisor, ..old }
            },
        }
    }
}

/// Weighs one shortlisted strategy.
fn fast_weigh_kind(
    advisor: &mut StrategyAdvisor,
    policy: V30Policy,
    kind: SmartDeltaKind,
    previous: &[u8],
    current: &[u8],
    sequence: u64,
    previous_hash: u64,
    schema_hash: u64,
    best: &mut Packet,
    mode: &mut V30EncodeMode,
    considered: &mut usize,
    Ghost(sel): Ghost<FastSelection>,
) -> (res: Result<(), DeltaError>)
    requires
        !(needs_equal_len(kind) && previous@.len() != current@.len()),
        sequence >= 1,
        previous_hash == spec_fnv1a64(previous@),
        sel.best == old(best)@,
        sel.mode == *old(mode),
        sel.considered == *old(considered),
        sel.advisor == old(advisor)@,
        *old(considered) < 100,
        represents(
            old(best)@,
            as_byte_mode(*old(mode)),
            Some(previous@),
            current@,
            sequence,
            schema_hash,
            policy.smart_delta,
        ),
    ensures
        match fast_weigh(
            sel,
            delta_packet(
                sequence,
                schema_hash,
                previous@,
                candidate_payload(kind, previous@, current@, policy.smart_delta),
            ),
            kind,
            policy,
        ) {
            Ok(s) => {
                &&& res is Ok
                &&& s.best == final(best)@
                &&& s.mode == *final(mode)
                &&& s.considered == *final(considered)
                &&& s.advisor == final(advisor)@
                &&& *final(considered) <= *old(considered) + 2
                &&& represents(
                    final(best)@,
                    as_byte_mode(*final(mode)),
                    Some(previous@),
                    current@,
                    sequence,
                    schema_hash,
                    policy.smart_delta,
                )
            },
            Err(a) => {
                &&& res matches Err(e) && e is Compression
                &&& a == final(advisor)@
            },
        },
{
    proof {
        reveal(fast_weigh);
        reveal(represents);
        reveal(is_candidate);
    }
    let candidate = smart_delta::encode_candidate(kind, previous, current, policy.smart_delta)?;
    let delta = Packet::delta(sequence, sequence - 1, previous_hash, schema_hash, candidate.payload);
    *considered = *considered + 1;
    if delta.encoded_len() < best.encoded_len() {
        *best = delta.duplicate();
        *mode = V30EncodeMode::Delta(kind);
    }
    if policy.enable_zstd && advisor.should_compress(delta.payload.len(), policy.min_zstd_payload) {
        let compressed = delta.zstd_candidate(policy.zstd_level, policy.min_compression_savings)?;
        *considered = *considered + 1;
        let won = compressed.is_compressed() && compressed.encoded_len() < delta.encoded_len();
        advisor.observe_compression(won);
        if compressed.is_compressed() && compressed.encoded_len() < best.encoded_len() {
            *best = compressed;
            *mode = V30EncodeMode::DeltaZstd(kind);
        }
    }
    Ok(())
}

/// Once weighing fails, weighing further strategies fails the same way.
proof fn lemma_fast_weigh_all_err(
    start: FastSelection,
    sequence: u64,
    schema_hash: u64,
    previous: Seq<u8>,
    current: Seq<u8>,
    policy: V30Policy,
    kinds: Seq<SmartDeltaKind>,
    m: int,
    n: int,
)
    requires
        0 <= m <= n,
        fast_weigh_all(start, sequence, schema_hash, previous, current, policy, kinds, m) is Err,
    ensures
        fast_weigh_all(start, sequence, schema_hash, previous, current, policy, kinds, n)
            == fast_weigh_all(start, sequence, schema_hash, previous, current, policy, kinds, m),
    decreases n - m,
{
    if m < n {
        lemma_fast_weigh_all_err(start, sequence, schema_hash, previous, current, policy, kinds, m, n - 1);
    }
}

/// Weighs every shortlisted strategy in turn.
fn fast_weigh_shortlist(
    advisor: &mut StrategyAdvisor,
    policy: V30Policy,
    kinds: &Vec<SmartDeltaKind>,
    previous: &[u8],
    current: &[u8],
    sequence: u64,
    schema_hash: u64,
    best: &mut Packet,
    mode: &mut V30EncodeMode,
    considered: &mut usize,
) -> (res: Result<(), DeltaError>)
    requires
        kinds@ == shortlist_of(old(advisor)@, profile_of(previous@, current@)),
        sequence >= 1,
        *old(considered) == 1,
        *old(mode) == V30EncodeMode::Snapshot,
        old(best)@ == snapshot_packet(sequence, schema_hash, current@),
        !old(best)@.is_compressed(),
    ensures
        match fast_weigh_all(
            FastSelection {
                best: old(best)@,
                mode: *old(mode),
                considered: *old(considered) as int,
                advisor: old(advisor)@,
            },
            sequence,
            schema_hash,
            previous@,
            current@,
            policy,
            kinds@,
            kinds@.len() as int,
        ) {
            Ok(s) => {
                &&& res is Ok
                &&& s.best == final(best)@
                &&& s.mode == *final(mode)
                &&& s.considered == *final(considered)
                &&& s.advisor == final(advisor)@
                &&& represents(
                    final(best)@,
                    as_byte_mode(*final(mode)),
                    Some(previous@),
                    current@,
                    sequence,
                    schema_hash,
                    policy.smart_delta,
                )
            },
            Err(a) => {
                &&& res matches Err(e) && e is Compression
                &&& a == final(advisor)@
            },
        },
{
    let ghost start = FastSelection {
        best: best@,
        mode: *mode,
        considered: *considered as int,
        advisor: advisor@,
    };
    let ghost profile = profile_of(previous@, current@);
    let ghost shortlist_advisor = advisor@;
    proof {
        reveal(represents);
    }
    let previous_hash = fnv1a64(previous);
    assert(previous@.len() == previous.len() && current@.len() == current.len());
    let mut i: usize = 0;
    while i < kinds.len()
        invariant
            i <= kinds@.len(),
            previous@.len() <= usize::MAX,
            current@.len() <= usize::MAX,
            kinds@ == shortlist_of(shortlist_advisor, profile),
            profile == profile_of(previous@, current@),
            kinds@.len() <= 2,
            sequence >= 1,
            previous_hash == spec_fnv1a64(previous@),
            *considered <= 1 + 2 * i,
            start == (FastSelection {
                best: old(best)@,
                mode: *old(mode),
                considered: *old(considered) as int,
                advisor: old(advisor)@,
            }),
            fast_weigh_all(start, sequence, schema_hash, previous@, current@, policy, kinds@, i as int)
                == Ok::<FastSelection, AdvisorView>(
                FastSelection { best: best@, mode: *mode, considered: *considered as int, advisor: advisor@ },
            ),
            represents(
                best@,
                as_byte_mode(*mode),
                Some(previous@),
                current@,
                sequence,
                schema_hash,
                policy.smart_delta,
            ),
        decreases kinds@.len() - i,
    {
        let kind = kinds[i];
        proof {
            lemma_shortlist_applicable(shortlist_advisor, profile, i as int);
        }
        let ghost sel = FastSelection {
            best: best@,
            mode: *mode,
            considered: *considered as int,
            advisor: advisor@,
        };
        let r = fast_weigh_kind(
            advisor,
            policy,
            kind,
            previous,
            current,
            sequence,
            previous_hash,
            schema_hash,
            best,
            mode,
            considered,
            Ghost(sel),
        );
        if let Err(e) = r {
            proof {
                lemma_fast_weigh_all_err(
                    start,
                    sequence,
                    schema_hash,
                    previous@,
                    current@,
                    policy,
                    kinds@,
                    i + 1,
                    kinds@.len() as int,
                );
            }
            return Err(e);
        }
        i = i + 1;
    }
    Ok(())
}

impl FastByteStateEncoder {
    /// A fast encoder for the schema `schema_name` with the default policy.
    pub fn new(schema_name: &str) -> (e: Self)
        ensures
            e@ == (FastEncoderView {
                sequence: 0,
                previous: None,
                schema_hash: spec_fnv1a64(schema_name.spec_bytes()),
                policy: V30Policy::spec_default(),
                advisor: AdvisorView {
                    policy: SelectorPolicy::spec_default(),
                    recent_winners: Seq::empty(),
                    updates: 0,
                    compression_attempts: 0,
                    compression_wins: 0,
                },
                metrics: RuntimeMetrics::spec_zero(),
                last_decision: None,
            }),
            fast_wf(e@),
    {
        Self::with_policy(schema_name, V30Policy::default())
    }

    /// A fast encoder for the schema `schema_name` with the given policy.
    pub fn with_policy(schema_name: &str, policy: V30Policy) -> (e: Self)
        ensures
            e@ == (FastEncoderView {
                sequence: 0,
                previous: None,
                schema_hash: spec_fnv1a64(schema_name.spec_bytes()),
                policy,
                advisor: AdvisorView {
                    policy: policy.selector,
                    recent_winners: Seq::empty(),
                    updates: 0,
                    compression_attempts: 0,
                    compression_wins: 0,
                },
                metrics: RuntimeMetrics::spec_zero(),
                last_decision: None,
            }),
            fast_wf(e@),
    {
        FastByteStateEncoder {
            sequence: 0,
            previous: None,
            schema_hash: fnv1a64(schema_name.as_bytes()),
            advisor: StrategyAdvisor::new(policy.selector),
            policy,
            metrics: RuntimeMetrics::default(),
            last_decision: None,
        }
    }

    /// Encodes `current` as the next sequence, weighing only the shortlisted
    /// strategies, and updates the counters.
    pub fn encode(&mut self, current: &[u8]) -> (res: Result<Packet, DeltaError>)
        requires
            fast_wf(old(self)@),
        ensures
            fast_wf(final(self)@),
            fast_encode_post(old(self)@, current@, final(self)@, res),
            res matches Ok(p) ==> (final(self)@.last_decision matches Some(d) && represents(
                p@,
                as_byte_mode(d.mode),
                old(self)@.previous,
                current@,
                final(self)@.sequence,
                old(self)@.schema_hash,
                old(self)@.policy.smart_delta,
            )),
    {
        if self.sequence == u64::MAX {
            return Err(DeltaError::InvalidState("sequence exhausted"));
        }
        let ghost old_view = self@;
        self.sequence = self.sequence + 1;
        let sequence = self.sequence;
        let snapshot = Packet::snapshot(sequence, fnv1a64(current), self.schema_hash, copy_bytes(current));
        let snapshot_bytes = snapshot.encoded_len();
        let mut best = snapshot.duplicate();
        let mut mode = V30EncodeMode::Snapshot;
        let mut considered: usize = 1;
        let mut profile_out: Option<ChangeProfile> = None;
        proof {
            reveal(represents);
        }
        let previous = self.previous.take();
        match previous {
            Some(prev) => {
                let profile = ChangeProfile::analyze(prev.as_slice(), current);
                profile_out = Some(profile);
                let shortlist = self.advisor.shortlist(profile);
                let policy = self.policy;
                let schema_hash = self.schema_hash;
                let r = fast_weigh_shortlist(
                    &mut self.advisor,
                    policy,
                    &shortlist,
                    prev.as_slice(),
                    current,
                    sequence,
                    schema_hash,
                    &mut best,
                    &mut mode,
                    &mut considered,
                );
                self.previous = Some(prev);
                if let Err(e) = r {
                    return Err(e);
                }
                match mode {
                    V30EncodeMode::Delta(k) => self.advisor.observe_winner(k),
                    V30EncodeMode::DeltaZstd(k) => self.advisor.observe_winner(k),
                    _ => self.advisor.observe_no_delta(),
                }
            },
            None => {
                if self.policy.enable_zstd && current.len() >= self.policy.min_zstd_payload {
                    let compressed = best.zstd_candidate(
                        self.policy.zstd_level,
                        self.policy.min_compression_savings,
                    );
                    let compressed = match compressed {
                        Ok(c) => c,
                        Err(e) => return Err(e),
                    };
                    considered = considered + 1;
                    if compressed.is_compressed() && compressed.encoded_len() < best.encoded_len() {
                        best = compressed;
                        mode = V30EncodeMode::SnapshotZstd;
                    }
                }
            },
        }
        let out_len = best.encoded_len();
        self.metrics.encoded_packets = self.metrics.encoded_packets.saturating_add(1);
        self.metrics.input_bytes = self.metrics.input_bytes.saturating_add(current.len() as u64);
        self.metrics.output_bytes = self.metrics.output_bytes.saturating_add(out_len as u64);
        self.metrics.selector_candidates = self.metrics.selector_candidates.saturating_add(
            considered as u64,
        );
        match mode {
            V30EncodeMode::Snapshot | V30EncodeMode::SnapshotZstd => {
                self.metrics.snapshots = self.metrics.snapshots + 1;
            },
            V30EncodeMode::Delta(_) | V30EncodeMode::DeltaZstd(_) => {
                self.metrics.deltas = self.metrics.deltas + 1;
            },
        }
        if matches!(mode, V30EncodeMode::SnapshotZstd | V30EncodeMode::DeltaZstd(_)) {
            self.metrics.compressed_packets = self.metrics.compressed_packets + 1;
        }
        self.previous = Some(copy_bytes(current));
        self.last_decision = Some(V30Decision {
            mode,
            profile: profile_out,
            candidates_considered: considered,
            selected_bytes: out_len,
            snapshot_bytes,
        });
        Ok(best)
    }

    /// An uncompressed snapshot of `current` at the current sequence.
    pub fn recovery_snapshot(&self, current: &[u8]) -> (res: Result<Packet, DeltaError>)
        ensures
            res matches Ok(p) && p@ == snapshot_packet(self@.sequence, self@.schema_hash, current@),
    {
        Ok(Packet::snapshot(self.sequence, fnv1a64(current), self.schema_hash, copy_bytes(current)))
    }

    /// The sequence of the last encoded state (zero before the first).
    pub fn sequence(&self) -> (s: u64)
        ensures
            s == self@.sequence,
    {
        self.sequence
    }

    /// The counters.
    pub fn metrics(&self) -> (m: &RuntimeMetrics)
        ensures
            *m == self@.metrics,
    {
        &self.metrics
    }

    /// The decision made for the last encoded state.
    pub fn last_decision(&self) -> (d: Option<&V30Decision>)
        ensures
            match d {
                Some(x) => self@.last_decision == Some(*x),
                None => self@.last_decision is None,
            },
    {
        self.last_decision.as_ref()
    }
}


/// `v1` is `v0` after a successful encode of `c` into packet `p`, as `encode`
/// promises.
pub open spec fn fast_step(v0: FastEncoderView, c: Seq<u8>, v1: FastEncoderView, p: PacketView) -> bool {
    &&& exists|q: Packet| q@ == p && #[trigger] fast_encode_post(v0, c, v1, Ok::<Packet, DeltaError>(q))
    &&& v1.last_decision matches Some(d) && represents(
        p,
        as_byte_mode(d.mode),
        v0.previous,
        c,
        v1.sequence,
        v0.schema_hash,
        v0.policy.smart_delta,
    )
}

/// Encoder views `vs` joined by successful encodes of `cs`, packet `ps[i]` for
/// `cs[i]`.
pub open spec fn fast_run(vs: Seq<FastEncoderView>, cs: Seq<Seq<u8>>, ps: Seq<PacketView>) -> bool {
    &&& vs.len() == cs.len() + 1
    &&& ps.len() == cs.len()
    &&& forall|i: int| 0 <= i < cs.len() ==> #[trigger] fast_step(vs[i], cs[i], vs[i + 1], ps[i])
}

/// Over successive encodes, packets are numbered one after another from the
/// encoder's sequence, the encoder counts each packet, and its last decision
/// describes the last packet.
pub proof fn lemma_fast_run(vs: Seq<FastEncoderView>, cs: Seq<Seq<u8>>, ps: Seq<PacketView>)
    requires
        fast_run(vs, cs, ps),
        vs[0].metrics.encoded_packets + cs.len() <= u64::MAX,
    ensures
        forall|i: int| 0 <= i < cs.len() ==> #[trigger] ps[i].sequence == vs[0].sequence + i + 1,
        vs[cs.len() as int].sequence == vs[0].sequence + cs.len(),
        vs[cs.len() as int].metrics.encoded_packets == vs[0].metrics.encoded_packets + cs.len(),
        cs.len() > 0 ==> (vs[cs.len() as int].last_decision matches Some(d) && d.selected_bytes == wire_len(
            ps[cs.len() - 1],
        ) as usize),
    decreases cs.len(),
{
    reveal(represents);
    let n = cs.len() as int;
    if n > 0 {
        let vs2 = vs.drop_last();
        let cs2 = cs.drop_last();
        let ps2 = ps.drop_last();
        assert forall|i: int| 0 <= i < cs2.len() implies #[trigger] fast_step(vs2[i], cs2[i], vs2[i + 1], ps2[i]) by {
            assert(vs2[i] == vs[i] && vs2[i + 1] == vs[i + 1] && cs2[i] == cs[i] && ps2[i] == ps[i]);
            assert(fast_step(vs[i], cs[i], vs[i + 1], ps[i]));
        }
        lemma_fast_run(vs2, cs2, ps2);
        assert(vs2[n - 1] == vs[n - 1]);
        assert(fast_step(vs[n - 1], cs[n - 1], vs[n], ps[n - 1]));
        let q = choose|q: Packet| q@ == ps[n - 1] && #[trigger] fast_encode_post(vs[n - 1], cs[n - 1], vs[n], Ok::<Packet, DeltaError>(q));
        assert forall|i: int| 0 <= i < cs.len() implies #[trigger] ps[i].sequence == vs[0].sequence + i + 1 by {
            if i < n - 1 {
                assert(ps2[i] == ps[i]);
            }
        }
    }
}


/// Weighing a delta packet leaves a best packet no larger than the one before,
/// than the delta packet, and, when compression is on and the advisor lets the
/// packet be compressed, than its compressed form.
pub proof fn lemma_fast_weigh_cheapest(sel: FastSelection, q: PacketView, kind: SmartDeltaKind, policy: V30Policy)
    ensures
        fast_weigh(sel, q, kind, policy) matches Ok(s) ==> {
            &&& wire_len(s.best) <= wire_len(sel.best)
            &&& wire_len(s.best) <= wire_len(q)
            &&& policy.enable_zstd && compress_advice(
                sel.advisor,
                q.payload.len() as int,
                policy.min_zstd_payload as int,
            ) ==> (q.zstd_candidate(policy.zstd_level, policy.min_compression_savings) matches Some(c) ==> (
            c.is_compressed() ==> wire_len(s.best) <= wire_len(c)))
        },
{
    reveal(fast_weigh);
}

/// Weighing more shortlisted strategies never leaves a larger best packet.
proof fn lemma_fast_weigh_all_mono(
    start: FastSelection,
    sequence: u64,
    schema_hash: u64,
    previous: Seq<u8>,
    current: Seq<u8>,
    policy: V30Policy,
    kinds: Seq<SmartDeltaKind>,
    m: int,
    n: int,
)
    requires
        0 <= m <= n,
    ensures
        fast_weigh_all(start, sequence, schema_hash, previous, current, policy, kinds, n) matches Ok(sn) ==> (
        fast_weigh_all(start, sequence, schema_hash, previous, current, policy, kinds, m) matches Ok(sm)
            && wire_len(sn.best) <= wire_len(sm.best)),
    decreases n - m,
{
    if m < n {
        lemma_fast_weigh_all_mono(start, sequence, schema_hash, previous, current, policy, kinds, m, n - 1);
        if let Ok(s1) = fast_weigh_all(start, sequence, schema_hash, previous, current, policy, kinds, n - 1) {
            lemma_fast_weigh_cheapest(
                s1,
                delta_packet(
                    sequence,
                    schema_hash,
                    previous,
                    candidate_payload(kinds[n - 1], previous, current, policy.smart_delta),
                ),
                kinds[n - 1],
                policy,
            );
        } else {
            lemma_fast_weigh_all_err(start, sequence, schema_hash, previous, current, policy, kinds, n - 1, n);
        }
    }
}

/// The strategies the fast encoder in state `enc` shortlists for `previous -> current`.
pub open spec fn fast_kinds(enc: FastEncoderView, previous: Seq<u8>, current: Seq<u8>) -> Seq<SmartDeltaKind> {
    shortlist_of(enc.advisor, profile_of(previous, current))
}

/// The delta packet of the `j`-th shortlisted strategy.
pub open spec fn fast_delta(enc: FastEncoderView, previous: Seq<u8>, current: Seq<u8>, j: int) -> PacketView {
    delta_packet(
        (enc.sequence + 1) as u64,
        enc.schema_hash,
        previous,
        candidate_payload(fast_kinds(enc, previous, current)[j], previous, current, enc.policy.smart_delta),
    )
}

/// What the fast encoder has weighed when it comes to the `j`-th shortlisted
/// strategy: the snapshot and the strategies before it.
pub open spec fn fast_before(enc: FastEncoderView, previous: Seq<u8>, current: Seq<u8>, j: int) -> Result<
    FastSelection,
    AdvisorView,
> {
    let sequence = (enc.sequence + 1) as u64;
    let start = FastSelection {
        best: snapshot_packet(sequence, enc.schema_hash, current),
        mode: V30EncodeMode::Snapshot,
        considered: 1,
        advisor: enc.advisor,
    };
    fast_weigh_all(start, sequence, enc.schema_hash, previous, current, enc.policy, fast_kinds(enc, previous, current), j)
}

/// Whether the fast encoder, coming to the `j`-th shortlisted strategy, lets the
/// compressor try its packet.
pub open spec fn fast_tries(enc: FastEncoderView, previous: Seq<u8>, current: Seq<u8>, j: int) -> bool {
    &&& enc.policy.enable_zstd
    &&& fast_before(enc, previous, current, j) matches Ok(s) && compress_advice(
        s.advisor,
        fast_delta(enc, previous, current, j).payload.len() as int,
        enc.policy.min_zstd_payload as int,
    )
}

/// With a previous state, the fast encoder sends nothing larger than the
/// snapshot, than the delta packet of any shortlisted strategy, or than the
/// compressed form of such a packet when the advisor let it be compressed.
pub proof fn lemma_fast_delta_cheapest(enc: FastEncoderView, current: Seq<u8>)
    ensures
        fast_selection(enc, current) matches Ok(sel) ==> (enc.previous matches Some(previous) ==> {
            &&& wire_len(sel.best) <= wire_len(snapshot_packet((enc.sequence + 1) as u64, enc.schema_hash, current))
            &&& forall|j: int|
                0 <= j < fast_kinds(enc, previous, current).len() ==> wire_len(sel.best) <= wire_len(
                    #[trigger] fast_delta(enc, previous, current, j),
                )
            &&& forall|j: int|
                0 <= j < fast_kinds(enc, previous, current).len() && #[trigger] fast_tries(enc, previous, current, j)
                    ==> (fast_delta(enc, previous, current, j).zstd_candidate(
                    enc.policy.zstd_level,
                    enc.policy.min_compression_savings,
                ) matches Some(c) ==> (c.is_compressed() ==> wire_len(sel.best) <= wire_len(c)))
        }),
{
    if let Some(previous) = enc.previous {
        if let Ok(sel) = fast_selection(enc, current) {
            let sequence = (enc.sequence + 1) as u64;
            let start = FastSelection {
                best: snapshot_packet(sequence, enc.schema_hash, current),
                mode: V30EncodeMode::Snapshot,
                considered: 1,
                advisor: enc.advisor,
            };
            let kinds = fast_kinds(enc, previous, current);
            let n = kinds.len() as int;
            let fin = fast_before(enc, previous, current, n)->Ok_0;
            assert(sel.best == fin.best);
            lemma_fast_weigh_all_mono(start, sequence, enc.schema_hash, previous, current, enc.policy, kinds, 0, n);
            assert forall|j: int| 0 <= j < n implies {
                &&& wire_len(sel.best) <= wire_len(#[trigger] fast_delta(enc, previous, current, j))
                &&& fast_tries(enc, previous, current, j) ==> (fast_delta(enc, previous, current, j).zstd_candidate(
                    enc.policy.zstd_level,
                    enc.policy.min_compression_savings,
                ) matches Some(c) ==> (c.is_compressed() ==> wire_len(sel.best) <= wire_len(c)))
            } by {
                lemma_fast_weigh_all_mono(
                    start,
                    sequence,
                    enc.schema_hash,
                    previous,
                    current,
                    enc.policy,
                    kinds,
                    j + 1,
                    n,
                );
                let sj = fast_before(enc, previous, current, j)->Ok_0;
                lemma_fast_weigh_cheapest(sj, fast_delta(enc, previous, current, j), kinds[j], enc.policy);
            }
        }
    }
}

proof fn lemma_first_selection(enc: FastEncoderView, current: Seq<u8>)
    requires
        fast_selection(enc, current) is Ok,
        enc.previous is None,
    ensures
        ({
            let snapshot = snapshot_packet((enc.sequence + 1) as u64, enc.schema_hash, current);
            let best = fast_selection(enc, current)->Ok_0.best;
            &&& wire_len(best) <= wire_len(snapshot)
            &&& enc.policy.enable_zstd && current.len() >= enc.policy.min_zstd_payload ==> (snapshot.zstd_candidate(
                enc.policy.zstd_level,
                enc.policy.min_compression_savings,
            ) matches Some(c) && wire_len(best) <= wire_len(c))
        }),
{
    let snapshot = snapshot_packet((enc.sequence + 1) as u64, enc.schema_hash, current);
    assert(!snapshot.is_compressed()) by {
        assert((0u16 & 1u16) == 0u16) by (bit_vector);
    }
    assert(((0u16 | 1u16) & 1u16) != 0u16) by (bit_vector);
    let best = fast_selection(enc, current)->Ok_0.best;
    if enc.policy.enable_zstd && current.len() >= enc.policy.min_zstd_payload {
        let oc = snapshot.zstd_candidate(enc.policy.zstd_level, enc.policy.min_compression_savings);
        assert(oc is Some);
        let c = oc->Some_0;
        if c.is_compressed() && wire_len(c) < wire_len(snapshot) {
            assert(best == c);
        } else {
            assert(best == snapshot);
            if !c.is_compressed() {
                assert(c == snapshot);
            }
        }
    } else {
        assert(best == snapshot);
    }
}

/// The fast encoder never sends a first state larger than its snapshot; when
/// compression is on and the state holds at least `min_zstd_payload` bytes, it
/// offers the snapshot to the compressor and sends nothing larger than the
/// compressed form.
pub proof fn lemma_fast_first_cheapest(old: FastEncoderView, current: Seq<u8>, new: FastEncoderView, q: Packet)
    requires
        fast_encode_post(old, current, new, Ok::<Packet, DeltaError>(q)),
        old.previous is None,
    ensures
        wire_len(q@) <= wire_len(snapshot_packet(new.sequence, old.schema_hash, current)),
        old.policy.enable_zstd && current.len() >= old.policy.min_zstd_payload ==> (snapshot_packet(
            new.sequence,
            old.schema_hash,
            current,
        ).zstd_candidate(old.policy.zstd_level, old.policy.min_compression_savings) matches Some(c) && wire_len(q@)
            <= wire_len(c)),
{
    assert(old.sequence != u64::MAX);
    assert(fast_selection(old, current) is Ok);
    lemma_first_selection(old, current);
}

} // verus!
