use delta_stream::smart_delta::{self, AdaptiveTuner, SmartDeltaKind, SmartDeltaPolicy};
use delta_stream::DeltaError;

fn sample_pair() -> (Vec<u8>, Vec<u8>) {
    let previous = b"0123456789abcdefghijklmnop".to_vec();
    let mut current = previous.clone();
    current[2] ^= 0x55;
    current[3] ^= 0x33;
    current[20] ^= 0x77;
    (previous, current)
}

#[test]
fn every_strategy_reconstructs_exactly() {
    let (previous, current) = sample_pair();
    let candidates =
        smart_delta::encode_candidates(&previous, &current, SmartDeltaPolicy::default()).unwrap();
    assert_eq!(candidates.len(), 5);
    let kinds: Vec<SmartDeltaKind> = candidates.iter().map(|c| c.kind).collect();
    assert_eq!(
        kinds,
        vec![
            SmartDeltaKind::Sparse,
            SmartDeltaKind::Ranges,
            SmartDeltaKind::Xor,
            SmartDeltaKind::Splice,
            SmartDeltaKind::Chunks
        ]
    );
    for candidate in &candidates {
        let rebuilt = smart_delta::apply(&previous, &candidate.payload).unwrap();
        assert_eq!(rebuilt, current);
        assert_eq!(smart_delta::kind(&candidate.payload).unwrap(), candidate.kind);
    }
}

#[test]
fn resized_states_offer_splice_and_chunks_only() {
    let previous = b"abcdefghij".to_vec();
    let current = b"abcXYZdefghij".to_vec();
    let candidates =
        smart_delta::encode_candidates(&previous, &current, SmartDeltaPolicy::default()).unwrap();
    assert_eq!(candidates.len(), 2);
    assert_eq!(candidates[0].kind, SmartDeltaKind::Splice);
    assert_eq!(candidates[1].kind, SmartDeltaKind::Chunks);
    for candidate in &candidates {
        assert_eq!(smart_delta::apply(&previous, &candidate.payload).unwrap(), current);
    }
    let shrunk = b"abghij".to_vec();
    for candidate in smart_delta::encode_candidates(&current, &shrunk, SmartDeltaPolicy::default()).unwrap() {
        assert_eq!(smart_delta::apply(&current, &candidate.payload).unwrap(), shrunk);
    }
}

#[test]
fn equal_length_strategies_refuse_resized_states() {
    let policy = SmartDeltaPolicy::default();
    for kind in [SmartDeltaKind::Sparse, SmartDeltaKind::Ranges, SmartDeltaKind::Xor] {
        let r = smart_delta::encode_candidate(kind, b"abc", b"abcd", policy);
        assert!(matches!(r, Err(DeltaError::InvalidState(_))));
    }
    let r = smart_delta::encode_candidate(SmartDeltaKind::Splice, b"abc", b"abcd", policy).unwrap();
    assert_eq!(smart_delta::apply(b"abc", &r.payload).unwrap(), b"abcd".to_vec());
}

#[test]
fn sparse_payload_layout() {
    // tag, new length 4, two changes: index 1 -> 9, index 3 (gap 2) -> 7
    let c = smart_delta::encode_candidate(
        SmartDeltaKind::Sparse,
        &[0, 0, 0, 0],
        &[0, 9, 0, 7],
        SmartDeltaPolicy::default(),
    )
    .unwrap();
    assert_eq!(c.payload, vec![1, 4, 2, 1, 9, 2, 7]);
}

#[test]
fn xor_payload_layout() {
    let c = smart_delta::encode_candidate(
        SmartDeltaKind::Xor,
        &[1, 2, 3],
        &[1, 0, 3],
        SmartDeltaPolicy::default(),
    )
    .unwrap();
    assert_eq!(c.payload, vec![3, 3, 0, 2, 0]);
}

#[test]
fn ranges_merge_changes_within_the_gap() {
    let previous = vec![0u8; 10];
    let mut current = previous.clone();
    current[1] = 1;
    current[3] = 3;
    let tight = SmartDeltaPolicy { chunk_size: 1024, max_range_gap: 0 };
    let loose = SmartDeltaPolicy { chunk_size: 1024, max_range_gap: 4 };
    let a = smart_delta::encode_candidate(SmartDeltaKind::Ranges, &previous, &current, tight).unwrap();
    let b = smart_delta::encode_candidate(SmartDeltaKind::Ranges, &previous, &current, loose).unwrap();
    // two ranges [1,2) and [3,4) versus one range [1,4)
    assert_eq!(a.payload, vec![2, 10, 2, 1, 1, 1, 1, 1, 3]);
    assert_eq!(b.payload, vec![2, 10, 1, 1, 3, 1, 0, 3]);
    assert_eq!(smart_delta::apply(&previous, &a.payload).unwrap(), current);
    assert_eq!(smart_delta::apply(&previous, &b.payload).unwrap(), current);
}

#[test]
fn chunk_size_zero_means_one() {
    let policy = SmartDeltaPolicy { chunk_size: 0, max_range_gap: 0 };
    let c = smart_delta::encode_candidate(SmartDeltaKind::Chunks, b"ab", b"ax", policy).unwrap();
    assert_eq!(c.payload, vec![5, 2, 1, 1, 1, 1, b'x']);
    assert_eq!(smart_delta::apply(b"ab", &c.payload).unwrap(), b"ax".to_vec());
}

#[test]
fn malformed_payloads_are_rejected() {
    let base = b"0123".to_vec();
    assert!(matches!(smart_delta::apply(&base, &[]), Err(DeltaError::InvalidPacket(_))));
    assert!(matches!(smart_delta::apply(&base, &[255, 1, 2, 3]), Err(DeltaError::InvalidPacket(_))));
    assert!(matches!(smart_delta::kind(&[]), Err(DeltaError::InvalidPacket(_))));
    assert!(matches!(smart_delta::kind(&[9]), Err(DeltaError::InvalidPacket(_))));
    // sparse with the wrong length
    assert!(smart_delta::apply(&base, &[1, 5, 0]).is_err());
    // xor with trailing bytes
    assert!(smart_delta::apply(&base, &[3, 4, 0, 0, 0, 0, 0]).is_err());
    // truncated varint
    assert!(smart_delta::apply(&base, &[2, 0x80]).is_err());
    // trailing byte after a valid sparse body
    assert!(smart_delta::apply(&base, &[1, 4, 0, 9]).is_err());
    // zero chunk size
    assert!(smart_delta::apply(&base, &[5, 4, 0, 0]).is_err());
}

#[test]
fn tuner_defaults_and_threshold() {
    let t = AdaptiveTuner::new();
    assert_eq!(t.min_zstd_payload, 256);
    assert!(!t.should_try_zstd(255));
    assert!(t.should_try_zstd(256));
    let low = AdaptiveTuner { min_zstd_payload: 10, ..AdaptiveTuner::default() };
    assert!(!low.should_try_zstd(63));
    assert!(low.should_try_zstd(64));
}

#[test]
fn tuner_doubles_after_poor_window_and_halves_after_good_one() {
    let mut t = AdaptiveTuner::new();
    for _ in 0..32 {
        t.observe_compression(100, 100);
    }
    assert_eq!(t.min_zstd_payload, 512);
    assert_eq!(t.compression_attempts, 0);
    assert_eq!(t.samples, 32);
    for _ in 0..32 {
        t.observe_compression(100, 10);
    }
    assert_eq!(t.min_zstd_payload, 256);
    // a window with exactly 10% wins leaves the threshold alone
    let mut t = AdaptiveTuner { compression_attempts: 39, compression_wins: 4, ..AdaptiveTuner::new() };
    t.observe_compression(10, 10);
    assert_eq!(t.min_zstd_payload, 256);
    assert_eq!(t.compression_attempts, 0);
    // capped at 64 KiB and floored at 64
    let mut hi = AdaptiveTuner { min_zstd_payload: 60_000, compression_attempts: 31, ..AdaptiveTuner::new() };
    hi.observe_compression(1, 1);
    assert_eq!(hi.min_zstd_payload, 65_536);
    let mut lo = AdaptiveTuner { min_zstd_payload: 100, compression_attempts: 31, compression_wins: 31, ..AdaptiveTuner::new() };
    lo.observe_compression(2, 1);
    assert_eq!(lo.min_zstd_payload, 64);
}
