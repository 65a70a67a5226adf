use delta_stream::packet::{Packet, PacketKind};
use delta_stream::smart_delta::SmartDeltaKind;
use delta_stream::{
    ByteApplyResult, ByteEncodeMode, ByteStateDecoder, ByteStateEncoder, DeltaError, V25Policy,
};

#[test]
fn smart_bytes_stream_converges() {
    let mut publisher = ByteStateEncoder::new("example/SmartBytes/v1");
    let mut subscriber = ByteStateDecoder::new("example/SmartBytes/v1");
    let mut state = vec![0u8; 32 * 1024];
    let first = publisher.encode(&state).unwrap();
    let _ = subscriber.apply(first).unwrap();
    for i in 0..100usize {
        state[(i * 97) % (32 * 1024)] = i as u8;
        let packet = publisher.encode(&state).unwrap();
        match subscriber.apply(packet).unwrap() {
            ByteApplyResult::Applied { state: rebuilt, .. } => assert_eq!(rebuilt, state),
            other => panic!("unexpected apply result: {other:?}"),
        }
    }
    assert_eq!(subscriber.state(), Some(state.as_slice()));
    assert_eq!(subscriber.sequence(), Some(101));
    assert_eq!(publisher.sequence(), 101);
}

#[test]
fn empty_and_tiny_states() {
    let mut enc = ByteStateEncoder::new("edge/bytes/v25");
    let mut dec = ByteStateDecoder::new("edge/bytes/v25");
    let empty = enc.encode(&[]).unwrap();
    assert!(matches!(dec.apply(empty).unwrap(), ByteApplyResult::Applied { state, .. } if state.is_empty()));
    let one = enc.encode(&[7]).unwrap();
    assert!(matches!(dec.apply(one).unwrap(), ByteApplyResult::Applied { state, .. } if state == vec![7]));
    let identical = enc.encode(&[7]).unwrap();
    assert!(matches!(dec.apply(identical).unwrap(), ByteApplyResult::Applied { state, .. } if state == vec![7]));
}

#[test]
fn insertion_and_deletion() {
    let a = b"abcdefghij".to_vec();
    let b = b"abcXYZdefghij".to_vec();
    let c = b"abghij".to_vec();
    let mut enc = ByteStateEncoder::new("edge/resize/v25");
    let mut dec = ByteStateDecoder::new("edge/resize/v25");
    let _ = dec.apply(enc.encode(&a).unwrap()).unwrap();
    assert!(matches!(dec.apply(enc.encode(&b).unwrap()).unwrap(), ByteApplyResult::Applied { state, .. } if state == b));
    assert!(matches!(dec.apply(enc.encode(&c).unwrap()).unwrap(), ByteApplyResult::Applied { state, .. } if state == c));
}

#[test]
fn schema_mismatch_is_an_error() {
    let enc = ByteStateEncoder::new("edge/resize/v25");
    let mut wrong = ByteStateDecoder::new("wrong/schema/v25");
    let packet = enc.recovery_snapshot(b"abc").unwrap();
    assert!(matches!(wrong.apply(packet), Err(DeltaError::SchemaMismatch { .. })));
}

#[test]
fn future_delta_requires_recovery() {
    let mut enc = ByteStateEncoder::new("future/v25");
    let base = vec![0u8; 4096];
    let mut next = base.clone();
    next[2048] = 1;
    let _p1 = enc.encode(&base).unwrap();
    let p2 = enc.encode(&next).unwrap();
    assert_eq!(p2.kind, PacketKind::Delta);
    let mut dec = ByteStateDecoder::new("future/v25");
    assert_eq!(
        dec.apply(p2).unwrap(),
        ByteApplyResult::NeedRecovery { local_sequence: None, required_sequence: 1 }
    );
    assert_eq!(dec.state(), None);
}

#[test]
fn publisher_restart_requires_reset() {
    let mut a = ByteStateEncoder::new("restart/v25");
    let mut dec = ByteStateDecoder::new("restart/v25");
    let _ = dec.apply(a.encode(b"before-restart").unwrap()).unwrap();
    let mut b = ByteStateEncoder::new("restart/v25");
    let restarted = b.encode(b"after-restart").unwrap();
    assert!(matches!(dec.apply(restarted.clone()).unwrap(), ByteApplyResult::Duplicate { sequence: 1 }));
    dec.reset();
    assert!(matches!(dec.apply(restarted).unwrap(), ByteApplyResult::Applied { state, .. } if state == b"after-restart".to_vec()));
}

#[test]
fn late_old_snapshot_is_suppressed() {
    let mut enc = ByteStateEncoder::new("stale/v25");
    let old = enc.encode(b"old").unwrap();
    let new = enc.encode(b"new").unwrap();
    let mut dec = ByteStateDecoder::new("stale/v25");
    let _ = dec.apply(old.clone()).unwrap();
    let _ = dec.apply(new).unwrap();
    assert!(matches!(dec.apply(old).unwrap(), ByteApplyResult::Duplicate { .. }));
    assert_eq!(dec.state(), Some(b"new".as_slice()));
}

#[test]
fn tampered_snapshot_hash_is_rejected() {
    let mut dec = ByteStateDecoder::new("x");
    let enc = ByteStateEncoder::new("x");
    let mut p = enc.recovery_snapshot(b"abc").unwrap();
    p.sequence = 5;
    p.base_hash ^= 1;
    assert!(matches!(dec.apply(p), Err(DeltaError::InvalidState(_))));
    assert_eq!(dec.sequence(), None);
}

#[test]
fn delta_on_a_different_base_requires_recovery() {
    let mut enc = ByteStateEncoder::new("s");
    let mut dec = ByteStateDecoder::new("s");
    let _ = dec.apply(enc.encode(&[1; 300]).unwrap()).unwrap();
    let p2 = enc.encode(&[2; 300]).unwrap();
    let mut other = ByteStateDecoder::new("s");
    let foreign = ByteStateEncoder::new("s").recovery_snapshot(&[9; 300]).unwrap();
    let mut foreign = foreign;
    foreign.sequence = 1;
    let _ = other.apply(foreign).unwrap();
    if p2.kind == PacketKind::Delta {
        assert_eq!(
            other.apply(p2.clone()).unwrap(),
            ByteApplyResult::NeedRecovery { local_sequence: Some(1), required_sequence: 1 }
        );
    }
    assert!(matches!(dec.apply(p2).unwrap(), ByteApplyResult::Applied { state, .. } if state == vec![2; 300]));
}

#[test]
fn decision_records_choice() {
    let policy = V25Policy { enable_zstd: false, ..V25Policy::default() };
    let mut enc = ByteStateEncoder::with_policy("d", policy);
    let p1 = enc.encode(&[0; 1000]).unwrap();
    let d1 = *enc.last_decision().unwrap();
    assert_eq!(d1.mode, ByteEncodeMode::Snapshot);
    assert_eq!(d1.candidates_considered, 1);
    assert_eq!(d1.selected_bytes, p1.encoded_len());
    assert_eq!(d1.snapshot_bytes, 1046);
    let mut s = vec![0; 1000];
    s[10] = 1;
    let p2 = enc.encode(&s).unwrap();
    let d2 = *enc.last_decision().unwrap();
    assert_eq!(d2.candidates_considered, 6);
    assert_eq!(d2.mode, ByteEncodeMode::Delta(SmartDeltaKind::Sparse));
    assert_eq!(p2.payload, vec![1, 0xe8, 0x07, 1, 10, 1]);
    assert!(d2.selected_bytes < d2.snapshot_bytes);
}

#[test]
fn compression_is_weighed_when_enabled() {
    let mut enc = ByteStateEncoder::new("z");
    let p = enc.encode(&vec![0u8; 8192]).unwrap();
    assert!(p.is_compressed());
    assert_eq!(enc.last_decision().unwrap().mode, ByteEncodeMode::SnapshotZstd);
    assert_eq!(enc.tuner().samples, 1);
    let mut dec = ByteStateDecoder::new("z");
    assert!(matches!(dec.apply(p).unwrap(), ByteApplyResult::Applied { state, .. } if state == vec![0u8; 8192]));
    let r = enc.recovery_snapshot(&vec![0u8; 8192]).unwrap();
    assert!(r.is_compressed());
    assert_eq!(r.sequence, 1);
}

#[test]
fn corrupted_compressed_packet_is_rejected() {
    let raw = Packet::snapshot(1, 1, 1, vec![0u8; 4096]);
    let compressed = raw.zstd_candidate(1, 1).unwrap();
    let mut wire = compressed.encode().unwrap();
    if wire.len() > 50 {
        wire[50] ^= 0x5a;
    }
    assert!(Packet::decode(&wire).is_err());
}
