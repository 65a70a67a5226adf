use delta_stream::fast_selector::{ChangeProfile, SelectorPolicy, StrategyAdvisor};
use delta_stream::smart_delta::SmartDeltaKind;
use delta_stream::v30_torture;
use delta_stream::{
    backpressure_decision, BackpressureDecision, ByteApplyResult, ByteStateDecoder,
    FastByteStateEncoder, PartialRepair, RuntimeLimits, V30EncodeMode, V30Policy,
};

#[test]
fn fast_encoder_snapshot_then_sparse_delta() {
    let mut enc = FastByteStateEncoder::new("v30/validate");
    let mut dec = ByteStateDecoder::new("v30/validate");
    let mut state = vec![0xA5u8; 16 * 1024];
    let p1 = enc.encode(&state).unwrap();
    assert!(matches!(dec.apply(p1).unwrap(), ByteApplyResult::Applied { .. }));
    state[777] ^= 0x5A;
    let p2 = enc.encode(&state).unwrap();
    assert!(matches!(dec.apply(p2).unwrap(), ByteApplyResult::Applied { state: s, .. } if s == state));
    let d = enc.last_decision().unwrap();
    assert!(d.candidates_considered <= 5);
    assert!(matches!(
        d.mode,
        V30EncodeMode::Delta(SmartDeltaKind::Sparse)
            | V30EncodeMode::DeltaZstd(SmartDeltaKind::Sparse)
            | V30EncodeMode::Delta(SmartDeltaKind::Ranges)
            | V30EncodeMode::DeltaZstd(SmartDeltaKind::Ranges)
    ));
    let m = enc.metrics();
    assert_eq!(m.encoded_packets, 2);
    assert_eq!(m.snapshots + m.deltas, 2);
    assert_eq!(m.deltas, 1);
    assert_eq!(m.input_bytes, 2 * 16 * 1024);
}

#[test]
fn fast_encoder_without_compression_profiles_changes() {
    let policy = V30Policy { enable_zstd: false, ..V30Policy::default() };
    let mut enc = FastByteStateEncoder::with_policy("p", policy);
    let _ = enc.encode(b"abcdefgh").unwrap();
    let _ = enc.encode(b"abcXefgh").unwrap();
    let d = enc.last_decision().unwrap();
    let profile = d.profile.unwrap();
    assert_eq!(profile.changed_bytes, 1);
    assert_eq!(profile.changed_runs, 1);
    assert_eq!(profile.common_prefix, 3);
    assert_eq!(profile.common_suffix, 4);
    assert_eq!(enc.sequence(), 2);
    let r = enc.recovery_snapshot(b"abcXefgh").unwrap();
    assert_eq!(r.sequence, 2);
    assert!(!r.is_compressed());
}

#[test]
fn change_profile_counts_runs_and_resizes() {
    let p = ChangeProfile::analyze(b"aaaaaaaaaa", b"abbaaabaaa");
    assert_eq!(p.changed_bytes, 3);
    assert_eq!(p.changed_runs, 2);
    assert_eq!(p.common_prefix, 1);
    assert_eq!(p.common_suffix, 3);
    assert!(!p.resized());
    let q = ChangeProfile::analyze(b"abc", b"abcdef");
    assert_eq!(q.changed_bytes, 3);
    assert_eq!(q.common_prefix, 3);
    assert_eq!(q.common_suffix, 0);
    assert!(q.resized());
}

#[test]
fn advisor_shortlists_by_profile() {
    let a = StrategyAdvisor::new(SelectorPolicy::default());
    let resized = ChangeProfile::analyze(b"abc", b"abcd");
    assert_eq!(a.shortlist(resized), vec![SmartDeltaKind::Splice, SmartDeltaKind::Chunks]);
    let mut cur = vec![0u8; 100];
    cur[5] = 1;
    let sparse = ChangeProfile::analyze(&[0u8; 100], &cur);
    assert_eq!(a.shortlist(sparse), vec![SmartDeltaKind::Sparse, SmartDeltaKind::Ranges]);
    // exactly 8% changed is still sparse
    let mut cur8 = vec![0u8; 100];
    for i in 0..8 {
        cur8[i * 10] = 1;
    }
    let eight = ChangeProfile::analyze(&[0u8; 100], &cur8);
    assert_eq!(a.shortlist(eight), vec![SmartDeltaKind::Sparse, SmartDeltaKind::Ranges]);
    let dense: Vec<u8> = (0..100u8).map(|i| if i % 2 == 0 { 1 } else { 0 }).collect();
    let half = ChangeProfile::analyze(&[0u8; 100], &dense);
    assert_eq!(half.changed_runs, 50);
    let tight = StrategyAdvisor::new(SelectorPolicy { range_run_limit: 10, ..SelectorPolicy::default() });
    assert_eq!(tight.shortlist(half), vec![SmartDeltaKind::Xor, SmartDeltaKind::Ranges]);
    assert_eq!(a.shortlist(half), vec![SmartDeltaKind::Ranges, SmartDeltaKind::Sparse]);
}

#[test]
fn advisor_learns_a_dominant_winner() {
    let mut a = StrategyAdvisor::new(SelectorPolicy::default());
    for _ in 0..8 {
        a.observe_winner(SmartDeltaKind::Xor);
    }
    let mut cur = vec![0u8; 100];
    cur[5] = 1;
    let p = ChangeProfile::analyze(&[0u8; 100], &cur);
    assert_eq!(a.shortlist(p), vec![SmartDeltaKind::Xor]);
    for _ in 0..56 {
        a.observe_no_delta();
    }
    // the 64th update explores
    assert_eq!(a.shortlist(p), vec![SmartDeltaKind::Sparse, SmartDeltaKind::Ranges]);
    assert!(a.should_compress(1000, 10));
    assert!(!a.should_compress(5, 10));
    for _ in 0..20 {
        a.observe_compression(false);
    }
    assert!(a.should_compress(1000, 10));
    a.observe_no_delta();
    assert!(!a.should_compress(1000, 10));
}

#[test]
fn partial_repair_is_exact_and_small() {
    let receiver = vec![0x11u8; 256 * 1024];
    let mut authoritative = receiver.clone();
    authoritative[1024..2048].fill(0x22);
    authoritative[200_000..201_024].fill(0x33);
    let repair = PartialRepair::build(&receiver, &authoritative, 1024);
    assert_eq!(repair.patches.len(), 3);
    let rebuilt = repair.apply(&receiver).unwrap();
    assert_eq!(rebuilt, authoritative);
    assert!(repair.payload_bytes() < authoritative.len());
    assert_eq!(repair.payload_bytes(), 3 * 1024);
}

#[test]
fn partial_repair_resizes() {
    let receiver = b"hello world".to_vec();
    let authoritative = b"hello".to_vec();
    let repair = PartialRepair::build(&receiver, &authoritative, 4);
    assert_eq!(repair.apply(&receiver).unwrap(), authoritative);
    let grown = b"hello world, again".to_vec();
    let repair = PartialRepair::build(&receiver, &grown, 4);
    assert_eq!(repair.apply(&receiver).unwrap(), grown);
    let zero = PartialRepair::build(&receiver, &grown, 0);
    assert_eq!(zero.chunk_size, 1);
    assert_eq!(zero.apply(&receiver).unwrap(), grown);
}

#[test]
fn partial_repair_rejects_the_wrong_base() {
    let repair = PartialRepair::build(b"aaaa", b"abab", 1);
    assert!(repair.apply(b"cccc").is_err());
}

#[test]
fn backpressure_thresholds() {
    let limits = RuntimeLimits { max_client_lag: 100, ..RuntimeLimits::default() };
    assert_eq!(backpressure_decision(Some(950), 1_000, limits), BackpressureDecision::Accept);
    assert_eq!(backpressure_decision(Some(500), 1_000, limits), BackpressureDecision::SnapshotAndCatchUp);
    assert_eq!(backpressure_decision(Some(0), 100_000, limits), BackpressureDecision::DropClient);
    assert_eq!(backpressure_decision(None, 5, limits), BackpressureDecision::SnapshotAndCatchUp);
    assert_eq!(backpressure_decision(Some(10), 5, limits), BackpressureDecision::Accept);
    let huge = RuntimeLimits { max_client_lag: u64::MAX / 2, ..RuntimeLimits::default() };
    assert_eq!(backpressure_decision(Some(0), u64::MAX, huge), BackpressureDecision::SnapshotAndCatchUp);
}

#[test]
fn fast_path_simulation_converges() {
    let report = v30_torture::run(8, 300).unwrap();
    assert!(report.all_converged());
    assert_eq!(report.clients, 8);
    assert_eq!(report.updates, 300);
    assert!(report.late_joins > 0);
    let tiny = v30_torture::run(0, 0).unwrap();
    assert_eq!(tiny.clients, 1);
    assert_eq!(tiny.updates, 2);
    assert!(tiny.all_converged());
}
