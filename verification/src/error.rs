use vstd::prelude::*;

verus! {

/// Errors reported by encoders, decoders and the wire format.
#[derive(Debug)]
pub enum DeltaError {
    InvalidState(&'static str),
    InvalidPacket(String),
    Io(std::io::Error),
    Json(serde_json::Error),
    Compression(String),
    Transport(String),
    ResourceLimit(&'static str),
    PacketTooLarge { limit: usize, actual: usize },
    DecompressedPayloadTooLarge { limit: usize, actual: Option<usize> },
    ChecksumMismatch { expected: u32, actual: u32 },
    ProtocolVersion { received: u8, supported: u8 },
    ProtocolVersionRange { received: u8, min_supported: u8, max_supported: u8 },
    SchemaMismatch { expected: u64, received: u64 },
    SchemaMigrationMissing { from: u64, to: u64 },
}

/// Builds an `InvalidPacket` error carrying `msg`.
pub fn invalid_packet(msg: &str) -> (e: DeltaError)
    ensures
        e matches DeltaError::InvalidPacket(m) && m@ == msg@,
{
    DeltaError::InvalidPacket(msg.to_owned())
}

} // verus!
