use delta_stream::packet::{DecodeConfig, Packet, PacketKind, HEADER_LEN, MAX_WIRE_PAYLOAD};
use delta_stream::DeltaError;
use delta_stream::sync::{delta_gate, fnv1a64};

#[test]
fn wire_roundtrip_keeps_every_field() {
    let p = Packet::delta(7, 6, 0x1122, 0x3344, vec![1, 2, 3]);
    let wire = p.encode().unwrap();
    assert_eq!(wire.len(), HEADER_LEN + 3);
    assert_eq!(&wire[0..4], &[b'D', b'S', 3, 2]);
    let back = Packet::decode(&wire).unwrap();
    assert_eq!(back, p);
    assert_eq!(back.kind, PacketKind::Delta);
    assert_eq!(Packet::from_bytes(&p.to_bytes().unwrap()).unwrap(), p);
}

#[test]
fn max_sequence_survives_the_wire() {
    let p = Packet::snapshot(u64::MAX, 1, 1, vec![1, 2, 3]);
    let back = Packet::decode(&p.encode().unwrap()).unwrap();
    assert_eq!(back.sequence, u64::MAX);
}

#[test]
fn decode_rejects_malformed_input() {
    let p = Packet::snapshot(1, 2, 3, vec![9; 10]);
    let wire = p.encode().unwrap();
    assert!(matches!(Packet::decode(&wire[..10]), Err(DeltaError::InvalidPacket(_))));
    let mut bad_magic = wire.clone();
    bad_magic[0] = b'X';
    assert!(matches!(Packet::decode(&bad_magic), Err(DeltaError::InvalidPacket(_))));
    let mut bad_version = wire.clone();
    bad_version[2] = 9;
    assert!(matches!(
        Packet::decode(&bad_version),
        Err(DeltaError::ProtocolVersionRange { received: 9, min_supported: 2, max_supported: 3 })
    ));
    let mut old_version = wire.clone();
    old_version[2] = 2;
    assert!(Packet::decode(&old_version).is_ok());
    let mut bad_kind = wire.clone();
    bad_kind[3] = 7;
    assert!(matches!(Packet::decode(&bad_kind), Err(DeltaError::InvalidPacket(_))));
    let mut bad_flags = wire.clone();
    bad_flags[4] = 2;
    assert!(matches!(Packet::decode(&bad_flags), Err(DeltaError::InvalidPacket(_))));
    let mut corrupted = wire.clone();
    let last = corrupted.len() - 1;
    corrupted[last] ^= 0xA5;
    assert!(matches!(Packet::decode(&corrupted), Err(DeltaError::ChecksumMismatch { .. })));
    let mut longer = wire.clone();
    longer.push(0);
    assert!(matches!(Packet::decode(&longer), Err(DeltaError::InvalidPacket(_))));
}

#[test]
fn decode_limits_packet_size() {
    let p = Packet::snapshot(1, 2, 3, vec![0; 100]);
    let wire = p.encode().unwrap();
    let tight = DecodeConfig { max_packet_bytes: 50, max_decompressed_bytes: 1000 };
    assert!(matches!(
        Packet::decode_with_config(&wire, &tight),
        Err(DeltaError::PacketTooLarge { limit: 50, actual: 146 })
    ));
    let d = DecodeConfig::default();
    assert_eq!(d.max_packet_bytes, HEADER_LEN + MAX_WIRE_PAYLOAD);
}

#[test]
fn unknown_flags_cannot_be_encoded() {
    let mut p = Packet::snapshot(1, 2, 3, vec![1]);
    p.flags = 4;
    assert!(matches!(p.encode(), Err(DeltaError::InvalidPacket(_))));
}

#[test]
fn compression_is_used_only_when_it_pays() {
    let small = Packet::snapshot(1, 2, 3, vec![0; 10]);
    let same = small.zstd_candidate(1, 8).unwrap();
    assert!(!same.is_compressed());
    assert_eq!(same, small);
    let big = Packet::snapshot(1, 2, 3, vec![0; 4096]);
    let z = big.zstd_candidate(1, 8).unwrap();
    assert!(z.is_compressed());
    assert!(z.encoded_len() < big.encoded_len());
    assert_ne!(z.payload, big.payload);
    assert_eq!(z.logical_payload().unwrap(), vec![0; 4096]);
    let back = Packet::decode(&z.encode().unwrap()).unwrap();
    assert_eq!(back.logical_payload().unwrap(), vec![0; 4096]);
}

#[test]
fn decompression_limit_is_enforced() {
    let big = Packet::snapshot(1, 2, 3, vec![0; 4096]);
    let z = big.zstd_candidate(1, 8).unwrap();
    let tight = DecodeConfig { max_packet_bytes: 1 << 20, max_decompressed_bytes: 100 };
    assert!(z.logical_payload_with_config(&tight).is_err());
    let plain = Packet::snapshot(1, 2, 3, vec![0; 200]);
    assert!(matches!(
        plain.logical_payload_with_config(&tight),
        Err(DeltaError::DecompressedPayloadTooLarge { limit: 100, actual: Some(200) })
    ));
}

#[test]
fn encoded_len_counts_header_and_payload() {
    let p = Packet::snapshot(1, 2, 3, vec![0; 5]);
    assert_eq!(p.encoded_len(), 51);
    assert_eq!(p.payload_checksum(), crc32fast::hash(&[0; 5]));
}

#[test]
fn oversized_payload_cannot_be_encoded() {
    let over = Packet::snapshot(1, 1, 1, vec![0u8; MAX_WIRE_PAYLOAD + 1]);
    assert!(matches!(over.encode(), Err(DeltaError::PacketTooLarge { .. })));
}

#[test]
fn malformed_packets_name_their_reason() {
    match delta_stream::packet::Packet::decode(&[0u8; 10]) {
        Err(delta_stream::DeltaError::InvalidPacket(m)) => assert_eq!(m, "packet shorter than header"),
        other => panic!("unexpected {:?}", other.is_ok()),
    }
    let mut wire = delta_stream::packet::Packet::snapshot(1, 2, 3, vec![1, 2, 3]).encode().unwrap();
    wire[0] = b'X';
    match delta_stream::packet::Packet::decode(&wire) {
        Err(delta_stream::DeltaError::InvalidPacket(m)) => assert_eq!(m, "bad magic"),
        other => panic!("unexpected {:?}", other.is_ok()),
    }
}

#[test]
fn delta_gate_asks_for_recovery_on_a_foreign_base() {
    let base = vec![9u8, 8, 7];
    let fitting = Packet::delta(2, 1, fnv1a64(&base), 5, vec![1, 2]);
    let foreign = Packet::delta(2, 1, fnv1a64(&base).wrapping_add(1), 5, vec![1, 2]);
    let config = DecodeConfig::default();
    assert_eq!(delta_gate(&base, &fitting, &config).unwrap(), Some(vec![1, 2]));
    assert_eq!(delta_gate(&base, &foreign, &config).unwrap(), None);
}
