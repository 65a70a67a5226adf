use delta_stream::adaptive::{AdaptivePolicy, EncodeMode};
use delta_stream::binary::{
    decode_agent_delta, decode_agent_state, encode_agent_delta, encode_agent_state, f32_bits_equal,
    AgentDelta, FIELD_CPU_PERCENT, FIELD_PROGRESS, FIELD_TOKENS,
};
use delta_stream::packet::{Packet, PacketKind};
use delta_stream::reorder::{ReorderApplyResult, ReorderDecoder};
use delta_stream::state::AgentState;
use delta_stream::sync::{state_hash, ApplyResult, Decoder, Encoder};
use delta_stream::DeltaError;

fn advance(s: &AgentState) -> AgentState {
    let mut n = s.clone();
    n.progress = n.progress.saturating_add(1).min(100);
    n.tokens = n.tokens.saturating_add(128);
    n.cpu_percent_bits = ((f32::from_bits(n.cpu_percent_bits) + 1.9) % 100.0).to_bits();
    n.files_processed = n.files_processed.saturating_add(1);
    n
}

fn advanced(count: usize) -> Vec<AgentState> {
    let mut out = Vec::new();
    let mut s = AgentState::demo();
    for _ in 0..count {
        s = advance(&s);
        out.push(s.clone());
    }
    out
}

#[test]
fn demo_state_values() {
    let s = AgentState::demo();
    assert_eq!(s.agent_id, "agent-17");
    assert_eq!(s.progress, 42);
    assert_eq!(f32::from_bits(s.cpu_percent_bits), 34.2f32);
}

#[test]
fn agent_state_codec_roundtrip() {
    let s = AgentState::demo();
    let bytes = encode_agent_state(&s).unwrap();
    // four strings, three varints, four cpu bytes, one varint, one string
    assert_eq!(bytes[0] as usize, "agent-17".len());
    let back = decode_agent_state(&bytes).unwrap();
    assert!(back.same_as(&s));
    let mut trailing = bytes.clone();
    trailing.push(0);
    assert!(matches!(decode_agent_state(&trailing), Err(DeltaError::InvalidPacket(_))));
    assert!(matches!(decode_agent_state(&bytes[..bytes.len() - 1]), Err(DeltaError::InvalidPacket(_))));
}

#[test]
fn agent_delta_between_and_apply() {
    let a = AgentState::demo();
    let b = advance(&a);
    let d = AgentDelta::between(&a, &b);
    assert_eq!(d.mask & FIELD_PROGRESS, FIELD_PROGRESS);
    assert_eq!(d.mask & FIELD_TOKENS, FIELD_TOKENS);
    assert_eq!(d.mask & FIELD_CPU_PERCENT, FIELD_CPU_PERCENT);
    assert_eq!(d.tokens_delta, Some(128));
    assert!(d.agent_id.is_none());
    let rebuilt = d.apply(&a).unwrap();
    assert!(rebuilt.same_as(&b));
    let wire = encode_agent_delta(&d).unwrap();
    let back = decode_agent_delta(&wire).unwrap();
    assert_eq!(back.mask, d.mask);
    assert_eq!(back.tokens_delta, Some(128));
    assert!(back.apply(&a).unwrap().same_as(&b));
}

#[test]
fn agent_delta_rejects_overflow_and_mismatch() {
    let a = AgentState::demo();
    let mut d = AgentDelta::between(&a, &a);
    assert_eq!(d.mask, 0);
    d.progress_delta = Some(300);
    assert!(matches!(d.apply(&a), Err(DeltaError::InvalidPacket(_))));
    d.progress_delta = None;
    d.tokens_delta = Some(i128::MAX);
    assert!(matches!(d.apply(&a), Err(DeltaError::InvalidPacket(_))));
    d.tokens_delta = None;
    d.mask = FIELD_TOKENS;
    assert!(matches!(encode_agent_delta(&d), Err(DeltaError::InvalidState(_))));
}

#[test]
fn float_equality_over_bits() {
    assert!(f32_bits_equal(0.0f32.to_bits(), (-0.0f32).to_bits()));
    assert!(!f32_bits_equal(f32::NAN.to_bits(), f32::NAN.to_bits()));
    assert!(f32_bits_equal(1.5f32.to_bits(), 1.5f32.to_bits()));
    assert!(!f32_bits_equal(1.5f32.to_bits(), 2.5f32.to_bits()));
}

#[test]
fn encoder_decoder_stream() {
    let mut enc = Encoder::default();
    let mut dec = Decoder::default();
    let states = advanced(20);
    let first = enc.encode(&AgentState::demo()).unwrap();
    assert_eq!(first.kind, PacketKind::Snapshot);
    assert_eq!(first.sequence, 1);
    assert!(matches!(dec.apply_packet(first).unwrap(), ApplyResult::Applied { sequence: 1, .. }));
    for (i, s) in states.iter().enumerate() {
        let p = enc.encode(s).unwrap();
        assert_eq!(p.sequence, i as u64 + 2);
        assert_eq!(p.kind, PacketKind::Delta);
        assert_eq!(p.base_sequence, i as u64 + 1);
        match dec.apply_packet(p).unwrap() {
            ApplyResult::Applied { state, .. } => assert!(state.same_as(s)),
            other => panic!("unexpected {other:?}"),
        }
    }
    assert_eq!(dec.sequence(), Some(21));
    assert!(dec.state().unwrap().same_as(&states[19]));
    assert_eq!(enc.last_decision().unwrap().mode, EncodeMode::Delta);
}

#[test]
fn decoder_gap_duplicate_and_recovery() {
    let mut enc = Encoder::default();
    let mut dec = Decoder::default();
    let states = advanced(3);
    let p1 = enc.encode(&states[0]).unwrap();
    let p2 = enc.encode(&states[1]).unwrap();
    let p3 = enc.encode(&states[2]).unwrap();
    let _ = dec.apply_packet(p1.clone()).unwrap();
    assert!(matches!(dec.apply_packet(p1).unwrap(), ApplyResult::Duplicate { sequence: 1 }));
    match dec.apply_packet(p3).unwrap() {
        ApplyResult::NeedSnapshot { local_sequence, required_sequence } => {
            assert_eq!(local_sequence, Some(1));
            assert_eq!(required_sequence, 2);
        }
        other => panic!("unexpected {other:?}"),
    }
    assert_eq!(dec.sequence(), Some(1));
    let recovery = enc.recovery_snapshot(&states[2]).unwrap();
    assert_eq!(recovery.sequence, 3);
    assert_eq!(enc.sequence(), 3);
    assert!(matches!(dec.apply_packet(recovery).unwrap(), ApplyResult::Applied { sequence: 3, .. }));
    assert!(matches!(dec.apply_packet(p2).unwrap(), ApplyResult::Duplicate { sequence: 2 }));
    dec.reset();
    assert_eq!(dec.sequence(), None);
}

#[test]
fn decoder_rejects_foreign_schema_and_bad_hash() {
    let mut dec = Decoder::default();
    let bytes = encode_agent_state(&AgentState::demo()).unwrap();
    let foreign = Packet::snapshot(1, 0, 42, bytes.clone());
    assert!(matches!(dec.apply_packet(foreign), Err(DeltaError::SchemaMismatch { received: 42, .. })));
    let schema = delta_stream::sync::agent_schema_hash();
    let bad_hash = Packet::snapshot(1, 0, schema, bytes.clone());
    assert!(matches!(dec.apply_packet(bad_hash), Err(DeltaError::InvalidState(_))));
    let good = Packet::snapshot(1, state_hash(&AgentState::demo()).unwrap(), schema, bytes);
    assert!(matches!(dec.apply_packet(good).unwrap(), ApplyResult::Applied { sequence: 1, .. }));
    let orphan = Packet::delta(5, 4, 0, schema, vec![0, 0]);
    assert!(matches!(
        dec.apply_packet(orphan).unwrap(),
        ApplyResult::NeedSnapshot { local_sequence: Some(1), required_sequence: 4 }
    ));
}

#[test]
fn force_snapshot_advances_sequence() {
    let mut enc = Encoder::default();
    let _ = enc.encode(&AgentState::demo()).unwrap();
    let p = enc.force_snapshot(&AgentState::demo()).unwrap();
    assert_eq!(p.kind, PacketKind::Snapshot);
    assert_eq!(p.sequence, 2);
    assert_eq!(enc.last_decision().unwrap().mode, EncodeMode::Snapshot);
}

#[test]
fn reorder_buffers_and_drains() {
    let mut enc = Encoder::default();
    let s = advanced(3);
    let p1 = enc.encode(&AgentState::demo()).unwrap();
    let p2 = enc.encode(&s[0]).unwrap();
    let p3 = enc.encode(&s[1]).unwrap();
    let p4 = enc.encode(&s[2]).unwrap();
    let mut r = ReorderDecoder::new(4, 8);
    assert!(matches!(r.apply(p1).unwrap(), ReorderApplyResult::Applied { sequence: 1, drained: 0, .. }));
    assert!(matches!(r.apply(p4.clone()).unwrap(), ReorderApplyResult::Buffered { sequence: 4 }));
    assert!(matches!(r.apply(p3).unwrap(), ReorderApplyResult::Buffered { sequence: 3 }));
    assert_eq!(r.pending_len(), 2);
    match r.apply(p2).unwrap() {
        ReorderApplyResult::Applied { sequence, state, drained } => {
            assert_eq!(sequence, 4);
            assert_eq!(drained, 2);
            assert!(state.same_as(&s[2]));
        }
        other => panic!("unexpected {other:?}"),
    }
    assert_eq!(r.pending_len(), 0);
    assert!(matches!(r.apply(p4).unwrap(), ReorderApplyResult::Duplicate { sequence: 4 }));
}

#[test]
fn reorder_gap_too_wide_needs_recovery() {
    let mut enc = Encoder::default();
    let s = advanced(10);
    let p1 = enc.encode(&AgentState::demo()).unwrap();
    let mut later = None;
    for st in &s {
        later = Some(enc.encode(st).unwrap());
    }
    let mut r = ReorderDecoder::new(2, 8);
    let _ = r.apply(p1).unwrap();
    assert!(matches!(
        r.apply(later.unwrap()).unwrap(),
        ReorderApplyResult::NeedRecovery { local_sequence: Some(1), required_sequence: 10 }
    ));
    let d = ReorderDecoder::default();
    assert_eq!(d.pending_len(), 0);
}

#[test]
fn adaptive_policy_defaults_and_choice() {
    let p = AdaptivePolicy::default();
    assert_eq!(p.min_delta_savings_bytes, 1);
    assert_eq!(p.max_delta_ratio_ppm, 980_000);
    assert!(p.enable_zstd);
    assert_eq!(p.zstd_level, 1);
    assert_eq!(p.min_compression_savings_bytes, 8);
    let snap = Packet::snapshot(2, 0, 0, vec![1; 40]);
    let delta = Packet::delta(2, 1, 0, 0, vec![2; 4]);
    let (chosen, d) = p.select(snap.clone(), delta.clone()).unwrap();
    assert_eq!(d.mode, EncodeMode::Delta);
    assert_eq!(chosen, delta);
    assert_eq!(d.snapshot_bytes, 46 + 40);
    assert_eq!(d.delta_bytes, Some(46 + 4));
    assert_eq!(d.selected_bytes, 50);
    // a delta no smaller than the snapshot is never chosen
    let big = Packet::delta(2, 1, 0, 0, vec![2; 40]);
    let (chosen, d) = p.select(snap.clone(), big).unwrap();
    assert_eq!(d.mode, EncodeMode::Snapshot);
    assert_eq!(chosen, snap);
    let (first, d) = p.select_initial(snap.clone()).unwrap();
    assert_eq!(d.mode, EncodeMode::Snapshot);
    assert_eq!(first, snap);
}

#[test]
fn adaptive_policy_compresses_large_snapshots() {
    let p = AdaptivePolicy::default();
    let snap = Packet::snapshot(1, 0, 0, vec![0; 4096]);
    let (chosen, d) = p.select_initial(snap).unwrap();
    assert_eq!(d.mode, EncodeMode::SnapshotZstd);
    assert!(chosen.is_compressed());
    assert_eq!(chosen.logical_payload().unwrap(), vec![0; 4096]);
    let off = AdaptivePolicy { enable_zstd: false, ..AdaptivePolicy::default() };
    let (chosen, d) = off.select_initial(Packet::snapshot(1, 0, 0, vec![0; 4096])).unwrap();
    assert_eq!(d.mode, EncodeMode::Snapshot);
    assert!(!chosen.is_compressed());
}

#[test]
fn chaos_run_converges() {
    let states = advanced(500);
    let r = delta_stream::chaos::run_deterministic(&states).unwrap();
    assert_eq!(r.generated, 500);
    assert_eq!(r.intentionally_dropped, 5);
    assert_eq!(r.duplicates_injected, 3);
    assert_eq!(r.delivered, 495);
    assert!(r.final_state_matches);
    assert_eq!(r.final_sequence, Some(500));
}

#[test]
fn multi_client_run_converges() {
    let states = advanced(400);
    let r = delta_stream::multi_client::run_deterministic(8, &states).unwrap();
    assert_eq!(r.clients, 8);
    assert_eq!(r.updates, 400);
    assert_eq!(r.final_sequence, 400);
    assert!(r.all_converged());
    let r = delta_stream::multi_client::run_deterministic(0, &states[..3]).unwrap();
    assert_eq!(r.clients, 1);
}

#[test]
fn torture_run_converges() {
    let states = advanced(300);
    let r = delta_stream::torture::run(24, &states).unwrap();
    assert_eq!(r.clients, 24);
    assert_eq!(r.final_sequence, 300);
    assert!(r.all_converged());
    assert!(r.resync_storm_clients > 1);
    assert_eq!(r.resync_storm_snapshots_built, 1);
    assert!(r.late_joins > 0);
}

#[test]
fn edge_case_suite_passes() {
    let states = advanced(5);
    let r = delta_stream::edge_cases::run(false, &states).unwrap();
    assert_eq!(r.checks.len(), 17);
    for (name, ok) in &r.checks {
        assert!(ok, "edge case failed: {name}");
    }
    assert!(r.all_passed());
}

#[test]
fn release_validation_passes() {
    let states = advanced(60);
    let r = delta_stream::v25_validation::run_release_validation(&states).unwrap();
    assert_eq!(r.checks.len(), 8);
    for (name, ok) in &r.checks {
        assert!(ok, "release check failed: {name}");
    }
}
