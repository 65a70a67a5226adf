//! Operating limits, counters kept by encoders, and the rule for clients that
//! fall behind.
use vstd::prelude::*;

verus! {

/// Bounds on buffered history, reordering, client lag and encoding work.
#[derive(Debug, Clone, Copy, PartialEq, Eq)]
pub struct RuntimeLimits {
    pub max_history_packets: usize,
    pub max_history_bytes: usize,
    pub max_pending_reorder: usize,
    pub max_client_lag: u64,
    pub max_recoveries_per_window: u32,
    pub max_encode_work_bytes: usize,
}

impl RuntimeLimits {
    /// The default limits.
    pub open spec fn spec_default() -> RuntimeLimits {
        RuntimeLimits {
            max_history_packets: 512,
            max_history_bytes: 16777216,
            max_pending_reorder: 128,
            max_client_lag: 10000,
            max_recoveries_per_window: 64,
            max_encode_work_bytes: 8388608,
        }
    }
}

impl Default for RuntimeLimits {
    fn default() -> (l: Self)
        ensures
            l == RuntimeLimits::spec_default(),
    {
        RuntimeLimits {
            max_history_packets: 512,
            max_history_bytes: 16 * 1024 * 1024,
            max_pending_reorder: 128,
            max_client_lag: 10_000,
            max_recoveries_per_window: 64,
            max_encode_work_bytes: 8 * 1024 * 1024,
        }
    }
}

/// Counters an encoder keeps about its output.
#[derive(Debug, Clone, Copy, PartialEq, Eq, Structural)]
pub struct RuntimeMetrics {
    pub encoded_packets: u64,
    pub snapshots: u64,
    pub deltas: u64,
    pub compressed_packets: u64,
    pub input_bytes: u64,
    pub output_bytes: u64,
    pub recovery_replays: u64,
    pub recovery_snapshots: u64,
    pub reorder_buffered: u64,
    pub backpressure_events: u64,
    pub selector_candidates: u64,
}

impl RuntimeMetrics {
    /// All counters at zero.
    pub open spec fn spec_zero() -> RuntimeMetrics {
        RuntimeMetrics {
            encoded_packets: 0,
            snapshots: 0,
            deltas: 0,
            compressed_packets: 0,
            input_bytes: 0,
            output_bytes: 0,
            recovery_replays: 0,
            recovery_snapshots: 0,
            reorder_buffered: 0,
            backpressure_events: 0,
            selector_candidates: 0,
        }
    }
}

impl Default for RuntimeMetrics {
    fn default() -> (m: Self)
        ensures
            m == RuntimeMetrics::spec_zero(),
    {
        RuntimeMetrics {
            encoded_packets: 0,
            snapshots: 0,
            deltas: 0,
            compressed_packets: 0,
            input_bytes: 0,
            output_bytes: 0,
            recovery_replays: 0,
            recovery_snapshots: 0,
            reorder_buffered: 0,
            backpressure_events: 0,
            selector_candidates: 0,
        }
    }
}

/// What to do with a client, given how far behind the publisher it is.
#[derive(Debug, Clone, Copy, PartialEq, Eq, Structural)]
pub enum BackpressureDecision {
    Accept,
    SnapshotAndCatchUp,
    DropClient,
}

/// The lag rule: a client without state gets a snapshot; one within the allowed
/// lag is served normally; one within ten times the allowed lag gets a snapshot;
/// one further behind is dropped. Lag and its bound saturate.
pub open spec fn backpressure_rule(
    local_sequence: Option<u64>,
    publisher_sequence: u64,
    limits: RuntimeLimits,
) -> BackpressureDecision {
    match local_sequence {
        None => BackpressureDecision::SnapshotAndCatchUp,
        Some(local) => {
            let lag = if publisher_sequence >= local {
                publisher_sequence - local
            } else {
                0
            };
            let far = if limits.max_client_lag * 10 > u64::MAX {
                u64::MAX as int
            } else {
                limits.max_client_lag * 10
            };
            if lag <= limits.max_client_lag {
                BackpressureDecision::Accept
            } else if lag <= far {
                BackpressureDecision::SnapshotAndCatchUp
            } else {
                BackpressureDecision::DropClient
            }
        },
    }
}

/// Decides how to treat a client at `local_sequence` when the publisher is at
/// `publisher_sequence`.
pub fn backpressure_decision(
    local_sequence: Option<u64>,
    publisher_sequence: u64,
    limits: RuntimeLimits,
) -> (d: BackpressureDecision)
    ensures
        d == backpressure_rule(local_sequence, publisher_sequence, limits),
{
    let local = match local_sequence {
        None => return BackpressureDecision::SnapshotAndCatchUp,
        Some(l) => l,
    };
    let lag = publisher_sequence.saturating_sub(local);
    let far = if limits.max_client_lag > u64::MAX / 10 {
        u64::MAX
    } else {
        limits.max_client_lag * 10
    };
    if lag <= limits.max_client_lag {
        BackpressureDecision::Accept
    } else if lag <= far {
        BackpressureDecision::SnapshotAndCatchUp
    } else {
        BackpressureDecision::DropClient
    }
}

} // verus!
