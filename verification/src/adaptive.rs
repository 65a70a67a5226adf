//! Choosing between raw and compressed, snapshot and delta representations of a
//! state, and the record of that choice.
use crate::error::DeltaError;
use crate::packet::{carries, sat_add, wire_len, Packet, PacketView};
use vstd::prelude::*;

verus! {

/// Raw or compressed, snapshot or delta.
#[derive(Debug, Clone, Copy, PartialEq, Eq, Structural)]
pub enum EncodeMode {
    Snapshot,
    Delta,
    SnapshotZstd,
    DeltaZstd,
}

/// The sizes weighed for one state and the representation chosen.
#[derive(Debug, Clone, Copy, PartialEq, Eq, Structural)]
pub struct EncodeDecision {
    pub mode: EncodeMode,
    pub snapshot_bytes: usize,
    pub delta_bytes: Option<usize>,
    pub snapshot_zstd_bytes: Option<usize>,
    pub delta_zstd_bytes: Option<usize>,
    pub selected_bytes: usize,
}

impl EncodeDecision {
    /// The decision for a first state, where no delta exists.
    pub fn initial(
        snapshot_bytes: usize,
        snapshot_zstd_bytes: Option<usize>,
        mode: EncodeMode,
        selected_bytes: usize,
    ) -> (d: Self)
        ensures
            d == (EncodeDecision {
                mode,
                snapshot_bytes,
                delta_bytes: None,
                snapshot_zstd_bytes,
                delta_zstd_bytes: None,
                selected_bytes,
            }),
    {
        EncodeDecision {
            mode,
            snapshot_bytes,
            delta_bytes: None,
            snapshot_zstd_bytes,
            delta_zstd_bytes: None,
            selected_bytes,
        }
    }
}

/// Adaptive codec selection policy: weighs raw and compressed snapshot and delta
/// candidates and keeps the cheapest. A compressed candidate may carry a CPU
/// penalty in bytes.
#[derive(Debug, Clone, Copy, PartialEq, Eq, Structural)]
pub struct AdaptivePolicy {
    /// A delta must be at least this many bytes smaller than the snapshot.
    pub min_delta_savings_bytes: usize,
    /// The largest delta-to-snapshot size ratio accepted, in millionths.
    pub max_delta_ratio_ppm: u64,
    pub enable_zstd: bool,
    pub zstd_level: i32,
    pub min_compression_savings_bytes: usize,
    pub compression_cpu_penalty_bytes: usize,
}

/// Millionths in one.
pub const PPM: u64 = 1_000_000;

impl AdaptivePolicy {
    /// The default policy: deltas must save a byte and stay within 98% of the
    /// snapshot; zstd level 1 when it saves at least 8 bytes; no CPU penalty.
    pub open spec fn spec_default() -> AdaptivePolicy {
        AdaptivePolicy {
            min_delta_savings_bytes: 1,
            max_delta_ratio_ppm: 980_000,
            enable_zstd: true,
            zstd_level: 1,
            min_compression_savings_bytes: 8,
            compression_cpu_penalty_bytes: 0,
        }
    }

    /// The cost of sending `p`: its wire size plus the penalty when compressed.
    pub open spec fn spec_score(self, p: PacketView) -> int {
        sat_add(wire_len(p), if p.is_compressed() { self.compression_cpu_penalty_bytes as int } else { 0 })
    }

    /// Whether a delta of `delta_bytes` may stand in for a snapshot of `snapshot_bytes`.
    pub open spec fn delta_allowed(self, snapshot_bytes: int, delta_bytes: int) -> bool {
        &&& snapshot_bytes > 0
        &&& delta_bytes * PPM <= self.max_delta_ratio_ppm * snapshot_bytes
        &&& sat_add(delta_bytes, self.min_delta_savings_bytes as int) <= snapshot_bytes
    }

    /// The compressed candidate for `p`, or `p` itself when compression is off;
    /// `None` when the compressor fails.
    pub open spec fn candidate(self, p: PacketView) -> Option<PacketView> {
        if self.enable_zstd {
            p.zstd_candidate(self.zstd_level, self.min_compression_savings_bytes)
        } else {
            Some(p)
        }
    }

    /// The choice for a first state: the compressed snapshot when compression is on
    /// and it scores strictly lower, else the raw snapshot.
    pub open spec fn initial_choice(self, snapshot: PacketView) -> Option<(PacketView, EncodeDecision)> {
        match self.candidate(snapshot) {
            None => None,
            Some(c) => {
                let raw = wire_len(snapshot) as usize;
                let cb = wire_len(c) as usize;
                if self.enable_zstd && c.is_compressed() && self.spec_score(c) < self.spec_score(snapshot) {
                    Some((c, EncodeDecision {
                        mode: EncodeMode::SnapshotZstd,
                        snapshot_bytes: raw,
                        delta_bytes: None,
                        snapshot_zstd_bytes: Some(cb),
                        delta_zstd_bytes: None,
                        selected_bytes: cb,
                    }))
                } else {
                    Some((snapshot, EncodeDecision {
                        mode: EncodeMode::Snapshot,
                        snapshot_bytes: raw,
                        delta_bytes: None,
                        snapshot_zstd_bytes: Some(cb),
                        delta_zstd_bytes: None,
                        selected_bytes: raw,
                    }))
                }
            },
        }
    }

    /// The candidate with the lowest score, in the order raw snapshot, compressed
    /// snapshot, raw delta, compressed delta, a later one winning only when it
    /// scores strictly lower; deltas only when allowed.
    pub open spec fn best(self, s: PacketView, sz: PacketView, d: PacketView, dz: PacketView) -> (PacketView, EncodeMode) {
        let allowed = self.delta_allowed(wire_len(s), wire_len(d));
        let (p1, m1) = if self.enable_zstd && sz.is_compressed() && self.spec_score(sz) < self.spec_score(s) {
            (sz, EncodeMode::SnapshotZstd)
        } else {
            (s, EncodeMode::Snapshot)
        };
        let (p2, m2) = if allowed && self.spec_score(d) < self.spec_score(p1) {
            (d, EncodeMode::Delta)
        } else {
            (p1, m1)
        };
        if self.enable_zstd && allowed && dz.is_compressed() && self.spec_score(dz) < self.spec_score(p2) {
            (dz, EncodeMode::DeltaZstd)
        } else {
            (p2, m2)
        }
    }

    /// The choice between a snapshot and a delta of the same state; `None` when
    /// the compressor fails on either.
    pub open spec fn choice(self, snapshot: PacketView, delta: PacketView) -> Option<(PacketView, EncodeDecision)> {
        match (self.candidate(snapshot), self.candidate(delta)) {
            (Some(sz), Some(dz)) => {
                let (p, mode) = self.best(snapshot, sz, delta, dz);
                Some((p, EncodeDecision {
                    mode,
                    snapshot_bytes: wire_len(snapshot) as usize,
                    delta_bytes: Some(wire_len(delta) as usize),
                    snapshot_zstd_bytes: Some(wire_len(sz) as usize),
                    delta_zstd_bytes: Some(wire_len(dz) as usize),
                    selected_bytes: wire_len(p) as usize,
                }))
            },
            _ => None,
        }
    }

    fn score(&self, packet: &Packet) -> (n: usize)
        ensures
            n == self.spec_score(packet@),
    {
        let penalty = if packet.is_compressed() {
            self.compression_cpu_penalty_bytes
        } else {
            0
        };
        packet.encoded_len().saturating_add(penalty)
    }

    fn compressed(&self, packet: &Packet) -> (res: Result<Packet, DeltaError>)
        ensures
            match self.candidate(packet@) {
                Some(c) => res matches Ok(q) && q@ == c,
                None => res matches Err(e) && e is Compression,
            },
            !packet@.is_compressed() ==> (res matches Ok(q) ==> carries(q@, packet@.payload)),
    {
        if self.enable_zstd {
            packet.zstd_candidate(self.zstd_level, self.min_compression_savings_bytes)
        } else {
            Ok(packet.duplicate())
        }
    }

    /// Picks the representation of a first state.
    pub fn select_initial(&self, snapshot: Packet) -> (res: Result<(Packet, EncodeDecision), DeltaError>)
        ensures
            match self.initial_choice(snapshot@) {
                Some((p, d)) => res matches Ok((q, e)) && q@ == p && e == d,
                None => res matches Err(e) && e is Compression,
            },
            !snapshot@.is_compressed() ==> (res matches Ok((q, e)) ==> carries(q@, snapshot@.payload)),
    {
        let raw_bytes = snapshot.encoded_len();
        let compressed = self.compressed(&snapshot)?;
        let compressed_bytes = compressed.encoded_len();
        let use_compressed = self.enable_zstd && compressed.is_compressed() && self.score(&compressed)
            < self.score(&snapshot);
        if use_compressed {
            Ok((
                compressed,
                EncodeDecision::initial(
                    raw_bytes,
                    Some(compressed_bytes),
                    EncodeMode::SnapshotZstd,
                    compressed_bytes,
                ),
            ))
        } else {
            Ok((
                snapshot,
                EncodeDecision::initial(raw_bytes, Some(compressed_bytes), EncodeMode::Snapshot, raw_bytes),
            ))
        }
    }

    /// Picks the cheapest of the raw and compressed snapshot and delta.
    pub fn select(&self, snapshot: Packet, delta: Packet) -> (res: Result<(Packet, EncodeDecision), DeltaError>)
        ensures
            match self.choice(snapshot@, delta@) {
                Some((p, d)) => res matches Ok((q, e)) && q@ == p && e == d,
                None => res matches Err(e) && e is Compression,
            },
            !snapshot@.is_compressed() && !delta@.is_compressed() ==> (res matches Ok((q, e)) ==> (
            if e.mode == EncodeMode::Snapshot || e.mode == EncodeMode::SnapshotZstd {
                carries(q@, snapshot@.payload)
            } else {
                carries(q@, delta@.payload)
            })),
    {
        let snapshot_bytes = snapshot.encoded_len();
        let delta_bytes = delta.encoded_len();
        let ratio = self.max_delta_ratio_ppm as u128;
        let sb = snapshot_bytes as u128;
        assert(ratio * sb <= u128::MAX) by (nonlinear_arith)
            requires
                ratio <= u64::MAX,
                sb <= u64::MAX,
        ;
        let delta_allowed = snapshot_bytes > 0 && (delta_bytes as u128) * (PPM as u128) <= ratio * sb
            && delta_bytes.saturating_add(self.min_delta_savings_bytes) <= snapshot_bytes;
        let snapshot_zstd = self.compressed(&snapshot)?;
        let delta_zstd = self.compressed(&delta)?;
        let snapshot_zstd_bytes = snapshot_zstd.encoded_len();
        let delta_zstd_bytes = delta_zstd.encoded_len();

        let mut best_packet = snapshot;
        let mut best_mode = EncodeMode::Snapshot;
        let mut best_score = self.score(&best_packet);
        if self.enable_zstd && snapshot_zstd.is_compressed() && self.score(&snapshot_zstd) < best_score {
            best_score = self.score(&snapshot_zstd);
            best_packet = snapshot_zstd;
            best_mode = EncodeMode::SnapshotZstd;
        }
        if delta_allowed && self.score(&delta) < best_score {
            best_score = self.score(&delta);
            best_packet = delta;
            best_mode = EncodeMode::Delta;
        }
        if self.enable_zstd && delta_allowed && delta_zstd.is_compressed() && self.score(&delta_zstd)
            < best_score {
            best_packet = delta_zstd;
            best_mode = EncodeMode::DeltaZstd;
        }
        let selected_bytes = best_packet.encoded_len();
        Ok((
            best_packet,
            EncodeDecision {
                mode: best_mode,
                snapshot_bytes,
                delta_bytes: Some(delta_bytes),
                snapshot_zstd_bytes: Some(snapshot_zstd_bytes),
                delta_zstd_bytes: Some(delta_zstd_bytes),
                selected_bytes,
            },
        ))
    }
}

/// The policy never picks a representation that costs more than the raw
/// snapshot; it picks a delta only when the delta is allowed; and the packet it
/// picks is the one its mode names.
pub proof fn lemma_choice_no_worse(policy: AdaptivePolicy, snapshot: PacketView, delta: PacketView)
    requires
        policy.choice(snapshot, delta) is Some,
    ensures
        ({
            let (p, d) = policy.choice(snapshot, delta)->0;
            &&& policy.spec_score(p) <= policy.spec_score(snapshot)
            &&& (d.mode == EncodeMode::Delta || d.mode == EncodeMode::DeltaZstd) ==> policy.delta_allowed(
                wire_len(snapshot),
                wire_len(delta),
            )
            &&& d.mode == EncodeMode::Snapshot ==> p == snapshot
            &&& d.mode == EncodeMode::Delta ==> p == delta
            &&& d.mode == EncodeMode::SnapshotZstd ==> Some(p) == policy.candidate(snapshot)
            &&& d.mode == EncodeMode::DeltaZstd ==> Some(p) == policy.candidate(delta)
        }),
{
}

/// A first state is sent as its raw snapshot, or as a compressed snapshot that
/// scores strictly lower.
pub proof fn lemma_initial_choice_no_worse(policy: AdaptivePolicy, snapshot: PacketView)
    requires
        policy.initial_choice(snapshot) is Some,
    ensures
        ({
            let (p, d) = policy.initial_choice(snapshot)->0;
            &&& policy.spec_score(p) <= policy.spec_score(snapshot)
            &&& d.mode == EncodeMode::Snapshot ==> p == snapshot
            &&& d.mode == EncodeMode::SnapshotZstd ==> Some(p) == policy.candidate(snapshot)
            &&& (d.mode == EncodeMode::Snapshot || d.mode == EncodeMode::SnapshotZstd)
        }),
{
}

/// The policy picks the cheapest representation it may use: the packet it
/// chooses scores no more than the raw snapshot, than the compressed snapshot
/// when compression is on and compresses, than the raw delta when a delta is
/// allowed, and than the compressed delta when compression is on, compresses and
/// a delta is allowed.
pub proof fn lemma_choice_cheapest(policy: AdaptivePolicy, snapshot: PacketView, delta: PacketView)
    requires
        policy.choice(snapshot, delta) is Some,
    ensures
        ({
            let (p, _d) = policy.choice(snapshot, delta)->0;
            let allowed = policy.delta_allowed(wire_len(snapshot), wire_len(delta));
            &&& policy.spec_score(p) <= policy.spec_score(snapshot)
            &&& policy.enable_zstd && policy.candidate(snapshot)->0.is_compressed() ==> policy.spec_score(p)
                <= policy.spec_score(policy.candidate(snapshot)->0)
            &&& allowed ==> policy.spec_score(p) <= policy.spec_score(delta)
            &&& policy.enable_zstd && allowed && policy.candidate(delta)->0.is_compressed() ==> policy.spec_score(p)
                <= policy.spec_score(policy.candidate(delta)->0)
        }),
{
}

/// A first state is sent no more expensively than its compressed snapshot when
/// compression is on and compresses it.
pub proof fn lemma_initial_choice_cheapest(policy: AdaptivePolicy, snapshot: PacketView)
    requires
        policy.initial_choice(snapshot) is Some,
    ensures
        ({
            let (p, _d) = policy.initial_choice(snapshot)->0;
            policy.enable_zstd && policy.candidate(snapshot)->0.is_compressed() ==> policy.spec_score(p)
                <= policy.spec_score(policy.candidate(snapshot)->0)
        }),
{
}

impl Default for AdaptivePolicy {
    fn default() -> (p: Self)
        ensures
            p == AdaptivePolicy::spec_default(),
    {
        AdaptivePolicy {
            min_delta_savings_bytes: 1,
            max_delta_ratio_ppm: 980_000,
            enable_zstd: true,
            zstd_level: 1,
            min_compression_savings_bytes: 8,
            compression_cpu_penalty_bytes: 0,
        }
    }
}

} // verus!
