use crate::buf::{append_bytes, copy_bytes};
use crate::error::{invalid_packet, DeltaError};
use crate::ext::{crc32_hash, crc32_of, zstd_compress, zstd_compressed, zstd_decompress, zstd_decompressed};
use crate::sync::spec_fnv1a64;
use vstd::bytes::*;
use vstd::prelude::*;

verus! {

pub const MIN_WIRE_VERSION: u8 = 2;

pub const WIRE_VERSION: u8 = 3;

pub const HEADER_LEN: usize = 46;

pub const FLAG_COMPRESSED_ZSTD: u16 = 1;

pub const KNOWN_FLAGS: u16 = 1;

pub const MAX_WIRE_PAYLOAD: usize = 67108864;

pub const MAX_LOGICAL_PAYLOAD: usize = 67108864;

/// First magic byte (`'D'`).
pub const MAGIC_0: u8 = 0x44;

/// Second magic byte (`'S'`).
pub const MAGIC_1: u8 = 0x53;

/// Packet decoding limits used for untrusted transport bytes.
#[derive(Debug, Clone, Copy, PartialEq, Eq)]
pub struct DecodeConfig {
    /// Maximum total encoded packet size, including the wire header.
    pub max_packet_bytes: usize,
    /// Maximum logical payload size after decompression.
    pub max_decompressed_bytes: usize,
}

impl DecodeConfig {
    /// The default limits: a full header plus the maximum wire payload, and the
    /// maximum logical payload.
    pub open spec fn spec_default() -> DecodeConfig {
        DecodeConfig {
            max_packet_bytes: (HEADER_LEN + MAX_WIRE_PAYLOAD) as usize,
            max_decompressed_bytes: MAX_LOGICAL_PAYLOAD,
        }
    }
}

impl Default for DecodeConfig {
    fn default() -> (c: Self)
        ensures
            c == DecodeConfig::spec_default(),
    {
        DecodeConfig {
            max_packet_bytes: HEADER_LEN + MAX_WIRE_PAYLOAD,
            max_decompressed_bytes: MAX_LOGICAL_PAYLOAD,
        }
    }
}

/// Whether a packet carries a full snapshot or a delta from a prior sequence.
#[derive(Debug, Clone, Copy, PartialEq, Eq, Structural)]
pub enum PacketKind {
    Snapshot,
    Delta,
}

/// The byte that identifies a packet kind on the wire.
pub open spec fn kind_byte(kind: PacketKind) -> u8 {
    match kind {
        PacketKind::Snapshot => 1,
        PacketKind::Delta => 2,
    }
}

fn kind_to_byte(kind: PacketKind) -> (b: u8)
    ensures
        b == kind_byte(kind),
{
    match kind {
        PacketKind::Snapshot => 1,
        PacketKind::Delta => 2,
    }
}

/// A wire packet: a self-contained snapshot, or a delta that names the sequence
/// and state hash it depends on.
#[derive(Debug, Clone, PartialEq, Eq)]
pub struct Packet {
    pub kind: PacketKind,
    pub flags: u16,
    pub sequence: u64,
    pub base_sequence: u64,
    pub base_hash: u64,
    pub schema_hash: u64,
    pub payload: Vec<u8>,
}

/// The mathematical content of a packet.
pub struct PacketView {
    pub kind: PacketKind,
    pub flags: u16,
    pub sequence: u64,
    pub base_sequence: u64,
    pub base_hash: u64,
    pub schema_hash: u64,
    pub payload: Seq<u8>,
}

impl View for Packet {
    type V = PacketView;

    open spec fn view(&self) -> PacketView {
        PacketView {
            kind: self.kind,
            flags: self.flags,
            sequence: self.sequence,
            base_sequence: self.base_sequence,
            base_hash: self.base_hash,
            schema_hash: self.schema_hash,
            payload: self.payload@,
        }
    }
}

impl PacketView {
    /// Size of the packet on the wire.
    pub open spec fn encoded_len(self) -> int {
        HEADER_LEN + self.payload.len()
    }

    pub open spec fn is_compressed(self) -> bool {
        self.flags & FLAG_COMPRESSED_ZSTD != 0
    }

    /// The packet with its payload replaced by a zstd frame of it, when that frame
    /// saves more than `min_savings` bytes; otherwise the packet itself. `None`
    /// when the compressor fails.
    pub open spec fn zstd_candidate(self, level: i32, min_savings: usize) -> Option<PacketView> {
        if self.is_compressed() || self.payload.len() < 64 {
            Some(self)
        } else {
            match zstd_compressed(self.payload, level) {
                None => None,
                Some(c) => if sat_add(c.len() as int, min_savings as int) >= self.payload.len() {
                    Some(self)
                } else {
                    Some(PacketView { payload: c, flags: self.flags | FLAG_COMPRESSED_ZSTD, ..self })
                },
            }
        }
    }
}

/// Size of a packet on the wire, saturating.
pub open spec fn wire_len(p: PacketView) -> int {
    sat_add(HEADER_LEN as int, p.payload.len() as int)
}

/// The snapshot packet for `current`.
pub open spec fn snapshot_packet(sequence: u64, schema_hash: u64, current: Seq<u8>) -> PacketView {
    PacketView {
        kind: PacketKind::Snapshot,
        flags: 0,
        sequence,
        base_sequence: 0,
        base_hash: spec_fnv1a64(current),
        schema_hash,
        payload: current,
    }
}

/// The delta packet carrying `payload` on top of `previous`.
pub open spec fn delta_packet(
    sequence: u64,
    schema_hash: u64,
    previous: Seq<u8>,
    payload: Seq<u8>,
) -> PacketView {
    PacketView {
        kind: PacketKind::Delta,
        flags: 0,
        sequence,
        base_sequence: (sequence - 1) as u64,
        base_hash: spec_fnv1a64(previous),
        schema_hash,
        payload,
    }
}

/// The payload of `p` after undoing compression, within the limits of `config`.
pub open spec fn logical_of(p: PacketView, config: DecodeConfig) -> Option<Seq<u8>> {
    if !p.is_compressed() {
        if p.payload.len() > config.max_decompressed_bytes {
            None
        } else {
            Some(p.payload)
        }
    } else {
        crate::ext::zstd_decompressed(p.payload, config.max_decompressed_bytes)
    }
}

/// `usize` saturating addition on mathematical integers.
pub open spec fn sat_add(a: int, b: int) -> int {
    if a + b > usize::MAX {
        usize::MAX as int
    } else {
        a + b
    }
}

/// The wire bytes of a packet: magic, version, kind, flags, the four 64-bit
/// header words, the payload CRC-32 and the payload length (all little-endian),
/// then the payload.
pub open spec fn wire_bytes(p: PacketView) -> Seq<u8> {
    seq![MAGIC_0, MAGIC_1, WIRE_VERSION, kind_byte(p.kind)]
        + spec_u16_to_le_bytes(p.flags)
        + spec_u64_to_le_bytes(p.sequence)
        + spec_u64_to_le_bytes(p.base_sequence)
        + spec_u64_to_le_bytes(p.base_hash)
        + spec_u64_to_le_bytes(p.schema_hash)
        + spec_u32_to_le_bytes(crc32_of(p.payload))
        + spec_u32_to_le_bytes(p.payload.len() as u32)
        + p.payload
}

/// What decoding a byte sequence yields.
pub enum DecodeOutcome {
    Decoded(PacketView),
    TooLarge { limit: usize, actual: usize },
    Malformed(&'static str),
    UnsupportedVersion(u8),
    BadChecksum { expected: u32, actual: u32 },
}

/// The decoding rules of the wire format, checked in order.
pub open spec fn decode_outcome(b: Seq<u8>, config: DecodeConfig) -> DecodeOutcome {
    if b.len() > config.max_packet_bytes {
        DecodeOutcome::TooLarge { limit: config.max_packet_bytes, actual: b.len() as usize }
    } else if b.len() < HEADER_LEN {
        DecodeOutcome::Malformed("packet shorter than header")
    } else if b[0] != MAGIC_0 || b[1] != MAGIC_1 {
        DecodeOutcome::Malformed("bad magic")
    } else if b[2] < MIN_WIRE_VERSION || b[2] > WIRE_VERSION {
        DecodeOutcome::UnsupportedVersion(b[2])
    } else if b[3] != 1 && b[3] != 2 {
        DecodeOutcome::Malformed("unknown packet kind")
    } else {
        let flags = spec_u16_from_le_bytes(b.subrange(4, 6));
        let checksum = spec_u32_from_le_bytes(b.subrange(38, 42));
        let payload_len = spec_u32_from_le_bytes(b.subrange(42, 46)) as int;
        let expected = HEADER_LEN + payload_len;
        if flags & !KNOWN_FLAGS != 0 {
            DecodeOutcome::Malformed("unknown packet flags")
        } else if expected > usize::MAX {
            DecodeOutcome::Malformed("packet length arithmetic overflow")
        } else if payload_len > MAX_WIRE_PAYLOAD || expected > config.max_packet_bytes {
            DecodeOutcome::TooLarge { limit: config.max_packet_bytes, actual: expected as usize }
        } else if b.len() != expected {
            DecodeOutcome::Malformed("payload length mismatch")
        } else {
            let payload = b.subrange(HEADER_LEN as int, b.len() as int);
            if crc32_of(payload) != checksum {
                DecodeOutcome::BadChecksum { expected: checksum, actual: crc32_of(payload) }
            } else {
                DecodeOutcome::Decoded(
                    PacketView {
                        kind: if b[3] == 1 { PacketKind::Snapshot } else { PacketKind::Delta },
                        flags,
                        sequence: spec_u64_from_le_bytes(b.subrange(6, 14)),
                        base_sequence: spec_u64_from_le_bytes(b.subrange(14, 22)),
                        base_hash: spec_u64_from_le_bytes(b.subrange(22, 30)),
                        schema_hash: spec_u64_from_le_bytes(b.subrange(30, 38)),
                        payload,
                    },
                )
            }
        }
    }
}

/// The result `decode_with_config` returns for a decode outcome.
pub open spec fn decode_result_matches(res: Result<Packet, DeltaError>, outcome: DecodeOutcome) -> bool {
    match outcome {
        DecodeOutcome::Decoded(p) => res matches Ok(q) && q@ == p,
        DecodeOutcome::TooLarge { limit, actual } => res == Err::<Packet, DeltaError>(
            DeltaError::PacketTooLarge { limit, actual },
        ),
        DecodeOutcome::Malformed(reason) => res matches Err(DeltaError::InvalidPacket(m)) && m@ == reason@,
        DecodeOutcome::UnsupportedVersion(v) => res == Err::<Packet, DeltaError>(
            DeltaError::ProtocolVersionRange {
                received: v,
                min_supported: MIN_WIRE_VERSION,
                max_supported: WIRE_VERSION,
            },
        ),
        DecodeOutcome::BadChecksum { expected, actual } => res == Err::<Packet, DeltaError>(
            DeltaError::ChecksumMismatch { expected, actual },
        ),
    }
}

/// What `encode` returns for a packet.
pub open spec fn encode_result_matches(res: Result<Vec<u8>, DeltaError>, p: PacketView) -> bool {
    if p.flags & !KNOWN_FLAGS != 0 {
        res matches Err(DeltaError::InvalidPacket(m)) && m@ == "unknown packet flags"@
    } else if p.payload.len() > MAX_WIRE_PAYLOAD {
        res == Err::<Vec<u8>, DeltaError>(
            DeltaError::PacketTooLarge { limit: MAX_WIRE_PAYLOAD, actual: p.payload.len() as usize },
        )
    } else {
        res matches Ok(v) && v@ == wire_bytes(p)
    }
}

impl Packet {
    /// A snapshot packet; the state hash travels in `base_hash`.
    pub fn snapshot(sequence: u64, state_hash: u64, schema_hash: u64, payload: Vec<u8>) -> (p: Self)
        ensures
            p@ == (PacketView {
                kind: PacketKind::Snapshot,
                flags: 0,
                sequence,
                base_sequence: 0,
                base_hash: state_hash,
                schema_hash,
                payload: payload@,
            }),
            !p@.is_compressed(),
    {
        assert(0u16 & FLAG_COMPRESSED_ZSTD == 0) by (bit_vector);
        Packet {
            kind: PacketKind::Snapshot,
            flags: 0,
            sequence,
            base_sequence: 0,
            base_hash: state_hash,
            schema_hash,
            payload,
        }
    }

    /// A delta packet that applies on top of `base_sequence` whose state hashes to `base_hash`.
    pub fn delta(
        sequence: u64,
        base_sequence: u64,
        base_hash: u64,
        schema_hash: u64,
        payload: Vec<u8>,
    ) -> (p: Self)
        ensures
            p@ == (PacketView {
                kind: PacketKind::Delta,
                flags: 0,
                sequence,
                base_sequence,
                base_hash,
                schema_hash,
                payload: payload@,
            }),
            !p@.is_compressed(),
    {
        assert(0u16 & FLAG_COMPRESSED_ZSTD == 0) by (bit_vector);
        Packet { kind: PacketKind::Delta, flags: 0, sequence, base_sequence, base_hash, schema_hash, payload }
    }

    /// A field-by-field copy.
    pub fn duplicate(&self) -> (p: Self)
        ensures
            p@ == self@,
    {
        Packet {
            kind: self.kind,
            flags: self.flags,
            sequence: self.sequence,
            base_sequence: self.base_sequence,
            base_hash: self.base_hash,
            schema_hash: self.schema_hash,
            payload: copy_bytes(self.payload.as_slice()),
        }
    }

    /// Size of the packet on the wire; saturates at `usize::MAX`.
    pub fn encoded_len(&self) -> (n: usize)
        ensures
            n == sat_add(HEADER_LEN as int, self.payload@.len() as int),
    {
        self.payload.len().saturating_add(HEADER_LEN)
    }

    pub fn is_compressed(&self) -> (b: bool)
        ensures
            b == self@.is_compressed(),
    {
        self.flags & FLAG_COMPRESSED_ZSTD != 0
    }

    /// CRC-32 of the payload.
    pub fn payload_checksum(&self) -> (c: u32)
        ensures
            c == crc32_of(self.payload@),
    {
        crc32_hash(self.payload.as_slice())
    }

    /// A zstd-compressed copy when that is materially smaller; the packet itself otherwise.
    pub fn zstd_candidate(&self, level: i32, min_savings: usize) -> (res: Result<Self, DeltaError>)
        ensures
            match self@.zstd_candidate(level, min_savings) {
                Some(p) => res matches Ok(q) && q@ == p,
                None => res matches Err(e) && e is Compression,
            },
            !self@.is_compressed() ==> (res matches Ok(q) ==> carries(q@, self@.payload)),
    {
        if self.is_compressed() || self.payload.len() < 64 {
            return Ok(self.duplicate());
        }
        let compressed = match zstd_compress(self.payload.as_slice(), level) {
            Ok(c) => c,
            Err(e) => return Err(DeltaError::Compression(e.to_string())),
        };
        if compressed.len().saturating_add(min_savings) >= self.payload.len() {
            return Ok(self.duplicate());
        }
        let flags = self.flags;
        assert((flags | FLAG_COMPRESSED_ZSTD) & FLAG_COMPRESSED_ZSTD != 0) by (bit_vector);
        Ok(Packet {
            kind: self.kind,
            flags: self.flags | FLAG_COMPRESSED_ZSTD,
            sequence: self.sequence,
            base_sequence: self.base_sequence,
            base_hash: self.base_hash,
            schema_hash: self.schema_hash,
            payload: compressed,
        })
    }

    /// The logical payload with the default limits.
    pub fn logical_payload(&self) -> (res: Result<Vec<u8>, DeltaError>)
        ensures
            logical_payload_matches(res, self@, DecodeConfig::spec_default()),
    {
        self.logical_payload_with_config(&DecodeConfig::default())
    }

    /// The payload after undoing compression, bounded by `config.max_decompressed_bytes`.
    pub fn logical_payload_with_config(&self, config: &DecodeConfig) -> (res: Result<Vec<u8>, DeltaError>)
        ensures
            logical_payload_matches(res, self@, *config),
    {
        if !self.is_compressed() {
            if self.payload.len() > config.max_decompressed_bytes {
                return Err(DeltaError::DecompressedPayloadTooLarge {
                    limit: config.max_decompressed_bytes,
                    actual: Some(self.payload.len()),
                });
            }
            return Ok(copy_bytes(self.payload.as_slice()));
        }
        match zstd_decompress(self.payload.as_slice(), config.max_decompressed_bytes) {
            Ok(v) => Ok(v),
            Err(e) => Err(DeltaError::Compression(e.to_string())),
        }
    }

    /// Serializes this packet into the wire format.
    pub fn to_bytes(&self) -> (res: Result<Vec<u8>, DeltaError>)
        ensures
            encode_result_matches(res, self@),
    {
        self.encode()
    }

    /// Decodes a packet with the default limits.
    pub fn from_bytes(bytes: &[u8]) -> (res: Result<Self, DeltaError>)
        ensures
            decode_result_matches(res, decode_outcome(bytes@, DecodeConfig::spec_default())),
    {
        Self::decode_with_config(bytes, &DecodeConfig::default())
    }

    /// Decodes a packet with caller-provided limits.
    pub fn from_bytes_with_config(bytes: &[u8], config: &DecodeConfig) -> (res: Result<Self, DeltaError>)
        ensures
            decode_result_matches(res, decode_outcome(bytes@, *config)),
    {
        Self::decode_with_config(bytes, config)
    }

    /// Serializes this packet into the wire format.
    pub fn encode(&self) -> (res: Result<Vec<u8>, DeltaError>)
        ensures
            encode_result_matches(res, self@),
    {
        if self.flags & !KNOWN_FLAGS != 0 {
            return Err(invalid_packet("unknown packet flags"));
        }
        if self.payload.len() > MAX_WIRE_PAYLOAD {
            return Err(DeltaError::PacketTooLarge { limit: MAX_WIRE_PAYLOAD, actual: self.payload.len() });
        }
        let payload_len = self.payload.len() as u32;
        let mut out: Vec<u8> = Vec::with_capacity(HEADER_LEN + self.payload.len());
        out.push(MAGIC_0);
        out.push(MAGIC_1);
        out.push(WIRE_VERSION);
        out.push(kind_to_byte(self.kind));
        append_bytes(&mut out, u16_to_le_bytes(self.flags).as_slice());
        append_bytes(&mut out, u64_to_le_bytes(self.sequence).as_slice());
        append_bytes(&mut out, u64_to_le_bytes(self.base_sequence).as_slice());
        append_bytes(&mut out, u64_to_le_bytes(self.base_hash).as_slice());
        append_bytes(&mut out, u64_to_le_bytes(self.schema_hash).as_slice());
        append_bytes(&mut out, u32_to_le_bytes(self.payload_checksum()).as_slice());
        append_bytes(&mut out, u32_to_le_bytes(payload_len).as_slice());
        append_bytes(&mut out, self.payload.as_slice());
        assert(out@ =~= wire_bytes(self@));
        Ok(out)
    }

    /// Decodes a packet with the default limits.
    pub fn decode(bytes: &[u8]) -> (res: Result<Self, DeltaError>)
        ensures
            decode_result_matches(res, decode_outcome(bytes@, DecodeConfig::spec_default())),
    {
        Self::decode_with_config(bytes, &DecodeConfig::default())
    }

    /// Decodes and validates magic, version, kind, flags, length and checksum.
    pub fn decode_with_config(bytes: &[u8], config: &DecodeConfig) -> (res: Result<Self, DeltaError>)
        ensures
            decode_result_matches(res, decode_outcome(bytes@, *config)),
    {
        if bytes.len() > config.max_packet_bytes {
            return Err(DeltaError::PacketTooLarge { limit: config.max_packet_bytes, actual: bytes.len() });
        }
        if bytes.len() < HEADER_LEN {
            return Err(invalid_packet("packet shorter than header"));
        }
        if bytes[0] != MAGIC_0 || bytes[1] != MAGIC_1 {
            return Err(invalid_packet("bad magic"));
        }
        let version = bytes[2];
        if version < MIN_WIRE_VERSION || version > WIRE_VERSION {
            return Err(DeltaError::ProtocolVersionRange {
                received: version,
                min_supported: MIN_WIRE_VERSION,
                max_supported: WIRE_VERSION,
            });
        }
        let kind = if bytes[3] == 1 {
            PacketKind::Snapshot
        } else if bytes[3] == 2 {
            PacketKind::Delta
        } else {
            return Err(invalid_packet("unknown packet kind"));
        };
        let flags = u16_from_le_bytes(&bytes[4..6]);
        if flags & !KNOWN_FLAGS != 0 {
            return Err(invalid_packet("unknown packet flags"));
        }
        let sequence = u64_from_le_bytes(&bytes[6..14]);
        let base_sequence = u64_from_le_bytes(&bytes[14..22]);
        let base_hash = u64_from_le_bytes(&bytes[22..30]);
        let schema_hash = u64_from_le_bytes(&bytes[30..38]);
        let checksum = u32_from_le_bytes(&bytes[38..42]);
        let payload_len = u32_from_le_bytes(&bytes[42..46]) as usize;
        let expected_len = match HEADER_LEN.checked_add(payload_len) {
            Some(n) => n,
            None => return Err(invalid_packet("packet length arithmetic overflow")),
        };
        if payload_len > MAX_WIRE_PAYLOAD || expected_len > config.max_packet_bytes {
            return Err(DeltaError::PacketTooLarge { limit: config.max_packet_bytes, actual: expected_len });
        }
        if bytes.len() != expected_len {
            return Err(invalid_packet("payload length mismatch"));
        }
        let payload = copy_bytes(&bytes[HEADER_LEN..bytes.len()]);
        let actual = crc32_hash(payload.as_slice());
        if actual != checksum {
            return Err(DeltaError::ChecksumMismatch { expected: checksum, actual });
        }
        Ok(Packet { kind, flags, sequence, base_sequence, base_hash, schema_hash, payload })
    }
}

/// `q`'s payload stands for `x`: it is `x` itself, or a zstd frame that
/// decompresses to `x` under every capacity that admits `x`.
pub open spec fn carries(q: PacketView, x: Seq<u8>) -> bool {
    if q.is_compressed() {
        forall|cap: usize|
            #![trigger zstd_decompressed(q.payload, cap)]
            x.len() <= cap ==> zstd_decompressed(q.payload, cap) == Some(x)
    } else {
        q.payload == x
    }
}

/// What `logical_payload_with_config` returns.
pub open spec fn logical_payload_matches(
    res: Result<Vec<u8>, DeltaError>,
    p: PacketView,
    config: DecodeConfig,
) -> bool {
    if !p.is_compressed() {
        if p.payload.len() > config.max_decompressed_bytes {
            res == Err::<Vec<u8>, DeltaError>(
                DeltaError::DecompressedPayloadTooLarge {
                    limit: config.max_decompressed_bytes,
                    actual: Some(p.payload.len() as usize),
                },
            )
        } else {
            res matches Ok(v) && v@ == p.payload
        }
    } else {
        match zstd_decompressed(p.payload, config.max_decompressed_bytes) {
            Some(d) => res matches Ok(v) && v@ == d && d.len() <= config.max_decompressed_bytes,
            None => res matches Err(e) && e is Compression,
        }
    }
}

/// Decoding the wire bytes of an encodable packet gives the packet back, under any
/// limits that admit its size.
pub proof fn lemma_wire_roundtrip(p: PacketView, config: DecodeConfig)
    requires
        p.flags & !KNOWN_FLAGS == 0,
        p.payload.len() <= MAX_WIRE_PAYLOAD,
        HEADER_LEN + p.payload.len() <= config.max_packet_bytes,
    ensures
        decode_outcome(wire_bytes(p), config) == DecodeOutcome::Decoded(p),
{
    lemma_auto_spec_u16_to_from_le_bytes();
    lemma_auto_spec_u32_to_from_le_bytes();
    lemma_auto_spec_u64_to_from_le_bytes();
    let b = wire_bytes(p);
    let flags = spec_u16_to_le_bytes(p.flags);
    let w1 = spec_u64_to_le_bytes(p.sequence);
    let w2 = spec_u64_to_le_bytes(p.base_sequence);
    let w3 = spec_u64_to_le_bytes(p.base_hash);
    let w4 = spec_u64_to_le_bytes(p.schema_hash);
    let crc = spec_u32_to_le_bytes(crc32_of(p.payload));
    let len = spec_u32_to_le_bytes(p.payload.len() as u32);
    assert(b.len() == HEADER_LEN + p.payload.len());
    assert(b.subrange(4, 6) =~= flags);
    assert(b.subrange(6, 14) =~= w1);
    assert(b.subrange(14, 22) =~= w2);
    assert(b.subrange(22, 30) =~= w3);
    assert(b.subrange(30, 38) =~= w4);
    assert(b.subrange(38, 42) =~= crc);
    assert(b.subrange(42, 46) =~= len);
    assert(b.subrange(HEADER_LEN as int, b.len() as int) =~= p.payload);
    assert(b[3] == kind_byte(p.kind));
}


/// Decoding accepts only wire bytes: bytes that decode to a packet, within the
/// size limit, are that packet's wire bytes (checksum and length included), up
/// to the version byte, which may be any supported version.
pub proof fn lemma_decoded_is_wire(b: Seq<u8>, config: DecodeConfig)
    ensures
        decode_outcome(b, config) matches DecodeOutcome::Decoded(p) ==> {
            &&& b.len() <= config.max_packet_bytes
            &&& MIN_WIRE_VERSION <= b[2] <= WIRE_VERSION
            &&& p.flags & !KNOWN_FLAGS == 0
            &&& p.payload.len() <= MAX_WIRE_PAYLOAD
            &&& b.update(2, WIRE_VERSION) == wire_bytes(p)
        },
{
    if let DecodeOutcome::Decoded(p) = decode_outcome(b, config) {
        lemma_auto_spec_u16_to_from_le_bytes();
        lemma_auto_spec_u32_to_from_le_bytes();
        lemma_auto_spec_u64_to_from_le_bytes();
        let payload = b.subrange(HEADER_LEN as int, b.len() as int);
        assert(spec_u16_to_le_bytes(spec_u16_from_le_bytes(b.subrange(4, 6))) == b.subrange(4, 6));
        assert(spec_u64_to_le_bytes(spec_u64_from_le_bytes(b.subrange(6, 14))) == b.subrange(6, 14));
        assert(spec_u64_to_le_bytes(spec_u64_from_le_bytes(b.subrange(14, 22))) == b.subrange(14, 22));
        assert(spec_u64_to_le_bytes(spec_u64_from_le_bytes(b.subrange(22, 30))) == b.subrange(22, 30));
        assert(spec_u64_to_le_bytes(spec_u64_from_le_bytes(b.subrange(30, 38))) == b.subrange(30, 38));
        assert(spec_u32_to_le_bytes(spec_u32_from_le_bytes(b.subrange(38, 42))) == b.subrange(38, 42));
        assert(spec_u32_to_le_bytes(spec_u32_from_le_bytes(b.subrange(42, 46))) == b.subrange(42, 46));
        assert(spec_u32_from_le_bytes(b.subrange(42, 46)) == payload.len() as u32);
        assert(p.payload == payload);
        assert(b[3] == kind_byte(p.kind));
        let head: Seq<u8> = seq![MAGIC_0, MAGIC_1, WIRE_VERSION, kind_byte(p.kind)];
        assert(b.update(2, WIRE_VERSION) =~= head + b.subrange(4, 6) + b.subrange(6, 14) + b.subrange(14, 22)
            + b.subrange(22, 30) + b.subrange(30, 38) + b.subrange(38, 42) + b.subrange(42, 46) + payload);
    }
}

} // verus!
