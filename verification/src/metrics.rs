//! Delivery counters of an integration.
use vstd::prelude::*;

verus! {

/// Counters of updates, bytes and recovery events; all saturate.
#[derive(Debug, Clone, Copy, PartialEq, Eq, Default)]
pub struct Metrics {
    pub updates: u64,
    pub full_json_bytes: u64,
    pub wire_bytes: u64,
    pub delta_packets: u64,
    pub snapshot_packets: u64,
    pub compressed_packets: u64,
    pub resyncs: u64,
    pub duplicates: u64,
    pub checksum_failures: u64,
    pub bytes_avoided: u64,
}

/// `a + b` saturating at `u64::MAX`.
pub open spec fn plus_sat(a: u64, b: int) -> u64 {
    if a + b > u64::MAX {
        u64::MAX
    } else {
        (a + b) as u64
    }
}

impl Metrics {
    /// Counts one update that sent `wire_bytes` in place of `full_bytes`.
    pub fn record_update(&mut self, full_bytes: usize, wire_bytes: usize, is_delta: bool, is_compressed: bool)
        ensures
            final(self).updates == plus_sat(old(self).updates, 1),
            final(self).full_json_bytes == plus_sat(old(self).full_json_bytes, full_bytes as int),
            final(self).wire_bytes == plus_sat(old(self).wire_bytes, wire_bytes as int),
            final(self).bytes_avoided == plus_sat(
                old(self).bytes_avoided,
                if full_bytes >= wire_bytes {
                    full_bytes - wire_bytes
                } else {
                    0
                },
            ),
            final(self).delta_packets == if is_delta {
                plus_sat(old(self).delta_packets, 1)
            } else {
                old(self).delta_packets
            },
            final(self).snapshot_packets == if is_delta {
                old(self).snapshot_packets
            } else {
                plus_sat(old(self).snapshot_packets, 1)
            },
            final(self).compressed_packets == if is_compressed {
                plus_sat(old(self).compressed_packets, 1)
            } else {
                old(self).compressed_packets
            },
            final(self).resyncs == old(self).resyncs,
            final(self).duplicates == old(self).duplicates,
            final(self).checksum_failures == old(self).checksum_failures,
    {
        self.updates = self.updates.saturating_add(1);
        self.full_json_bytes = self.full_json_bytes.saturating_add(full_bytes as u64);
        self.wire_bytes = self.wire_bytes.saturating_add(wire_bytes as u64);
        self.bytes_avoided = self.bytes_avoided.saturating_add(full_bytes.saturating_sub(wire_bytes) as u64);
        if is_delta {
            self.delta_packets = self.delta_packets.saturating_add(1);
        } else {
            self.snapshot_packets = self.snapshot_packets.saturating_add(1);
        }
        if is_compressed {
            self.compressed_packets = self.compressed_packets.saturating_add(1);
        }
    }

    /// Counts one resynchronization.
    pub fn record_resync(&mut self)
        ensures
            *final(self) == (Metrics { resyncs: plus_sat(old(self).resyncs, 1), ..*old(self) }),
    {
        self.resyncs = self.resyncs.saturating_add(1);
    }

    /// Counts one duplicate packet.
    pub fn record_duplicate(&mut self)
        ensures
            *final(self) == (Metrics { duplicates: plus_sat(old(self).duplicates, 1), ..*old(self) }),
    {
        self.duplicates = self.duplicates.saturating_add(1);
    }
}

} // verus!
