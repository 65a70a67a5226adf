//! The report of the smart-delta benchmark and how it tallies the encoder's choices.
use crate::byte_sync::ByteEncodeMode;
use crate::smart_delta::SmartDeltaKind;
use std::time::Duration;
use vstd::prelude::*;

verus! {

/// Traffic, timings and representation counts of a smart-delta benchmark run.
#[derive(Debug, Clone, Default)]
pub struct SmartBenchmarkReport {
    pub updates: usize,
    pub raw_bytes: u64,
    pub zstd_bytes: u64,
    pub v25_bytes: u64,
    pub raw_time: Duration,
    pub zstd_time: Duration,
    pub v25_encode_time: Duration,
    pub v25_decode_time: Duration,
    pub snapshots: u64,
    pub snapshot_zstd: u64,
    pub delta_sparse: u64,
    pub delta_ranges: u64,
    pub delta_xor: u64,
    pub delta_splice: u64,
    pub delta_chunks: u64,
    pub delta_zstd: u64,
}

/// `n + 1`, saturating.
pub open spec fn inc(n: u64) -> u64 {
    if n == u64::MAX {
        n
    } else {
        (n + 1) as u64
    }
}

/// Counts one encoding decision in the counter of its representation; nothing
/// when there was no decision. Counters saturate.
pub fn count_mode(report: &mut SmartBenchmarkReport, mode: Option<ByteEncodeMode>)
    ensures
        final(report).snapshots == if mode == Some(ByteEncodeMode::Snapshot) {
            inc(old(report).snapshots)
        } else {
            old(report).snapshots
        },
        final(report).snapshot_zstd == if mode == Some(ByteEncodeMode::SnapshotZstd) {
            inc(old(report).snapshot_zstd)
        } else {
            old(report).snapshot_zstd
        },
        final(report).delta_sparse == if mode == Some(ByteEncodeMode::Delta(SmartDeltaKind::Sparse)) {
            inc(old(report).delta_sparse)
        } else {
            old(report).delta_sparse
        },
        final(report).delta_ranges == if mode == Some(ByteEncodeMode::Delta(SmartDeltaKind::Ranges)) {
            inc(old(report).delta_ranges)
        } else {
            old(report).delta_ranges
        },
        final(report).delta_xor == if mode == Some(ByteEncodeMode::Delta(SmartDeltaKind::Xor)) {
            inc(old(report).delta_xor)
        } else {
            old(report).delta_xor
        },
        final(report).delta_splice == if mode == Some(ByteEncodeMode::Delta(SmartDeltaKind::Splice)) {
            inc(old(report).delta_splice)
        } else {
            old(report).delta_splice
        },
        final(report).delta_chunks == if mode == Some(ByteEncodeMode::Delta(SmartDeltaKind::Chunks)) {
            inc(old(report).delta_chunks)
        } else {
            old(report).delta_chunks
        },
        final(report).delta_zstd == if mode matches Some(ByteEncodeMode::DeltaZstd(_)) {
            inc(old(report).delta_zstd)
        } else {
            old(report).delta_zstd
        },
        final(report).updates == old(report).updates,
        final(report).raw_bytes == old(report).raw_bytes,
        final(report).zstd_bytes == old(report).zstd_bytes,
        final(report).v25_bytes == old(report).v25_bytes,
{
    match mode {
        Some(ByteEncodeMode::Snapshot) => report.snapshots = report.snapshots.saturating_add(1),
        Some(ByteEncodeMode::SnapshotZstd) => report.snapshot_zstd = report.snapshot_zstd.saturating_add(1),
        Some(ByteEncodeMode::Delta(SmartDeltaKind::Sparse)) => report.delta_sparse = report.delta_sparse.saturating_add(1),
        Some(ByteEncodeMode::Delta(SmartDeltaKind::Ranges)) => report.delta_ranges = report.delta_ranges.saturating_add(1),
        Some(ByteEncodeMode::Delta(SmartDeltaKind::Xor)) => report.delta_xor = report.delta_xor.saturating_add(1),
        Some(ByteEncodeMode::Delta(SmartDeltaKind::Splice)) => report.delta_splice = report.delta_splice.saturating_add(1),
        Some(ByteEncodeMode::Delta(SmartDeltaKind::Chunks)) => report.delta_chunks = report.delta_chunks.saturating_add(1),
        Some(ByteEncodeMode::DeltaZstd(_)) => report.delta_zstd = report.delta_zstd.saturating_add(1),
        None => {},
    }
}

} // verus!
