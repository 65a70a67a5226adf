//! What this library version supports, for negotiation with peers.
use crate::packet::{MAX_LOGICAL_PAYLOAD, MAX_WIRE_PAYLOAD, MIN_WIRE_VERSION, WIRE_VERSION};
use vstd::prelude::*;

verus! {

/// This library's version.
pub const LIBRARY_VERSION: &'static str = "0.30.0";

/// Oldest wire version understood.
pub const PROTOCOL_MIN: u8 = MIN_WIRE_VERSION;

/// Newest wire version produced.
pub const PROTOCOL_MAX: u8 = WIRE_VERSION;

/// Feature flags and limits of a peer.
#[derive(Debug, Clone, PartialEq, Eq)]
pub struct Capabilities {
    pub library_version: String,
    pub protocol_min: u8,
    pub protocol_max: u8,
    pub adaptive_delta_snapshot: bool,
    pub adaptive_four_way_codec: bool,
    pub automatic_resync: bool,
    pub stable_sequence_recovery: bool,
    pub duplicate_and_stale_suppression: bool,
    pub crc32: bool,
    pub schema_hash: bool,
    pub zstd: bool,
    pub max_wire_payload: usize,
    pub max_logical_payload: usize,
    pub smart_delta_sparse: bool,
    pub smart_delta_ranges: bool,
    pub smart_delta_xor: bool,
    pub smart_delta_splice: bool,
    pub smart_delta_chunks: bool,
    pub adaptive_self_tuning: bool,
    pub recovery_replay_planner: bool,
    pub bounded_reorder_buffer: bool,
    pub resync_storm_snapshot_reuse: bool,
}

impl Capabilities {
    /// The capabilities of this library: its version and wire-version range, the
    /// payload limits, and every feature on.
    pub fn local() -> (c: Self)
        ensures
            c.library_version@ == LIBRARY_VERSION@,
            c.protocol_min == MIN_WIRE_VERSION,
            c.protocol_max == WIRE_VERSION,
            c.max_wire_payload == MAX_WIRE_PAYLOAD,
            c.max_logical_payload == MAX_LOGICAL_PAYLOAD,
            c.adaptive_delta_snapshot && c.adaptive_four_way_codec && c.automatic_resync
                && c.stable_sequence_recovery && c.duplicate_and_stale_suppression && c.crc32
                && c.schema_hash && c.zstd && c.smart_delta_sparse && c.smart_delta_ranges
                && c.smart_delta_xor && c.smart_delta_splice && c.smart_delta_chunks
                && c.adaptive_self_tuning && c.recovery_replay_planner && c.bounded_reorder_buffer
                && c.resync_storm_snapshot_reuse,
    {
        Capabilities {
            library_version: LIBRARY_VERSION.to_owned(),
            protocol_min: PROTOCOL_MIN,
            protocol_max: PROTOCOL_MAX,
            adaptive_delta_snapshot: true,
            adaptive_four_way_codec: true,
            automatic_resync: true,
            stable_sequence_recovery: true,
            duplicate_and_stale_suppression: true,
            crc32: true,
            schema_hash: true,
            zstd: true,
            max_wire_payload: MAX_WIRE_PAYLOAD,
            max_logical_payload: MAX_LOGICAL_PAYLOAD,
            smart_delta_sparse: true,
            smart_delta_ranges: true,
            smart_delta_xor: true,
            smart_delta_splice: true,
            smart_delta_chunks: true,
            adaptive_self_tuning: true,
            recovery_replay_planner: true,
            bounded_reorder_buffer: true,
            resync_storm_snapshot_reuse: true,
        }
    }
}

} // verus!
