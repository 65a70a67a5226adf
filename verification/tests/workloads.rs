use delta_stream::byte_sync::ByteEncodeMode;
use delta_stream::demo::DemoState;
use delta_stream::packet::Packet;
use delta_stream::smart_delta::SmartDeltaKind;
use delta_stream::sparse::{apply_sparse_byte_delta, apply_sparse_packet, encode_sparse_byte_delta};
use delta_stream::v25_bench::{count_mode, SmartBenchmarkReport};
use delta_stream::workload::{entropy_bytes, high_entropy_state, mutate_scattered, pseudo_random_state};
use delta_stream::{AgentState, DeltaError, PartialRepair};

#[test]
fn xorshift_streams_have_known_prefixes() {
    assert_eq!(high_entropy_state(6), vec![173, 118, 54, 116, 236, 121]);
    assert_eq!(pseudo_random_state(6), vec![173, 118, 54, 116, 236, 121]);
    assert_eq!(entropy_bytes(6), vec![174, 244, 0, 203, 141, 62]);
    assert!(entropy_bytes(0).is_empty());
}

#[test]
fn scattered_mutation_touches_known_positions() {
    let mut state = vec![0u8; 10];
    mutate_scattered(&mut state, 3, 2);
    assert_eq!(state, vec![125, 0, 94, 0, 0, 0, 0, 0, 0, 0]);

    let mut empty: Vec<u8> = Vec::new();
    mutate_scattered(&mut empty, 7, 5);
    assert!(empty.is_empty());

    // Asking for more changes than bytes changes at most every byte once per step.
    let mut small = vec![0u8; 3];
    mutate_scattered(&mut small, 1, 100);
    assert_eq!(small.len(), 3);
    assert_ne!(small, vec![0u8; 3]);
}

#[test]
fn sparse_delta_encodes_changed_bytes() {
    let previous = vec![0u8, 0, 0, 0];
    let current = vec![0u8, 5, 0, 7];
    let payload = encode_sparse_byte_delta(&previous, &current);
    assert_eq!(payload, vec![2, 1, 5, 2, 7]);
    assert_eq!(encode_sparse_byte_delta(&previous, &previous), vec![0]);

    let mut state = previous.clone();
    apply_sparse_byte_delta(&mut state, &payload).unwrap();
    assert_eq!(state, current);
}

#[test]
fn sparse_delta_rejects_malformed_payloads() {
    let mut state = vec![0u8; 4];
    assert!(matches!(apply_sparse_byte_delta(&mut state, &[]), Err(DeltaError::InvalidPacket(_))));
    assert!(matches!(apply_sparse_byte_delta(&mut state, &[1, 0]), Err(DeltaError::InvalidPacket(_))));
    assert!(matches!(apply_sparse_byte_delta(&mut state, &[1, 9, 1]), Err(DeltaError::InvalidPacket(_))));
    assert!(matches!(apply_sparse_byte_delta(&mut state, &[0, 0]), Err(DeltaError::InvalidPacket(_))));
}

#[test]
fn sparse_packets_apply_snapshots_and_deltas() {
    let mut state = vec![9u8; 3];
    let snapshot = Packet::snapshot(1, 0, 0, vec![1, 2, 3]);
    apply_sparse_packet(&mut state, snapshot).unwrap();
    assert_eq!(state, vec![1, 2, 3]);
    let delta = Packet::delta(2, 1, 0, 0, encode_sparse_byte_delta(&[1, 2, 3], &[1, 8, 3]));
    apply_sparse_packet(&mut state, delta).unwrap();
    assert_eq!(state, vec![1, 8, 3]);
}

#[test]
fn count_mode_tallies_each_representation() {
    let mut report = SmartBenchmarkReport::default();
    count_mode(&mut report, Some(ByteEncodeMode::Snapshot));
    count_mode(&mut report, Some(ByteEncodeMode::SnapshotZstd));
    count_mode(&mut report, Some(ByteEncodeMode::Delta(SmartDeltaKind::Sparse)));
    count_mode(&mut report, Some(ByteEncodeMode::Delta(SmartDeltaKind::Xor)));
    count_mode(&mut report, Some(ByteEncodeMode::Delta(SmartDeltaKind::Xor)));
    count_mode(&mut report, Some(ByteEncodeMode::DeltaZstd(SmartDeltaKind::Chunks)));
    count_mode(&mut report, None);
    assert_eq!(report.snapshots, 1);
    assert_eq!(report.snapshot_zstd, 1);
    assert_eq!(report.delta_sparse, 1);
    assert_eq!(report.delta_xor, 2);
    assert_eq!(report.delta_ranges, 0);
    assert_eq!(report.delta_chunks, 0);
    assert_eq!(report.delta_zstd, 1);
}

fn next_state(state: &AgentState) -> AgentState {
    let mut next = state.clone();
    next.progress = next.progress.saturating_add(1).min(100);
    next.tokens += 128;
    next.cpu_percent_bits = ((f32::from_bits(next.cpu_percent_bits) + 1.9) % 100.0).to_bits();
    next.files_processed += 1;
    next
}

#[test]
fn demo_ticks_recover_from_a_requested_loss() {
    let mut demo = DemoState::fresh();
    let s1 = next_state(demo.current());
    let t1 = demo.tick(s1, 100).unwrap();
    assert_eq!(t1.sequence, 1);
    assert!(!t1.dropped && !t1.desync_detected && !t1.resynced);
    assert_eq!(t1.full_bytes, 100);
    assert_eq!(t1.metrics.updates, 1);
    assert_eq!(t1.metrics.snapshot_packets, 1);

    demo.request_drop();
    let s2 = next_state(demo.current());
    let t2 = demo.tick(s2, 100).unwrap();
    assert!(t2.dropped);
    assert!(!t2.desync_detected);

    let s3 = next_state(demo.current());
    let t3 = demo.tick(s3.clone(), 100).unwrap();
    assert!(!t3.dropped);
    assert!(t3.desync_detected);
    assert!(t3.resynced);
    assert_eq!(t3.metrics.resyncs, 1);
    assert_eq!(t3.metrics.updates, 3);
    assert!(demo.current().same_as(&s3));
}

#[test]
fn sparse_delta_roundtrips_scattered_changes() {
    let previous = entropy_bytes(300);
    let mut current = previous.clone();
    mutate_scattered(&mut current, 11, 40);
    let payload = encode_sparse_byte_delta(&previous, &current);
    let mut state = previous.clone();
    apply_sparse_byte_delta(&mut state, &payload).unwrap();
    assert_eq!(state, current);
}

#[test]
fn partial_repair_is_exact() {
    let base = entropy_bytes(8192);
    let mut target = base.clone();
    for byte in target.iter_mut().take(3000).skip(2000) {
        *byte ^= 0x5A;
    }
    let repair = PartialRepair::build(&base, &target, 1024);
    assert_eq!(repair.patches.len(), 2);
    assert_eq!(repair.patches[0].index, 1);
    assert_eq!(repair.patches[1].index, 2);
    assert_eq!(repair.payload_bytes(), 2048);
    assert_eq!(repair.apply(&base).unwrap(), target);

    let mut longer = target.clone();
    longer.extend_from_slice(&[1, 2, 3]);
    let shrink = PartialRepair::build(&longer, &target, 1024);
    assert_eq!(shrink.apply(&longer).unwrap(), target);
}
