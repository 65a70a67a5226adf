use delta_stream::binary::{apply_u64_delta, apply_u8_delta, put_string, put_var_i128, put_var_u128, Reader};
use delta_stream::compat::{Capabilities, LIBRARY_VERSION};
use delta_stream::control::ControlMessage;
use delta_stream::crdt::{check_encoded_len, CrdtDecodeConfig, CrdtError};
use delta_stream::edge_cases::EdgeCaseReport;
use delta_stream::metrics::Metrics;
use delta_stream::packet::Packet;
use delta_stream::recovery_history::{RecoveryHistory, RecoveryPlan};
use delta_stream::replay::ReplayWindow;
use delta_stream::session::SessionTopics;
use delta_stream::sync::{agent_schema_hash, fnv1a64};
use delta_stream::transport::hex::{hex_decode, hex_encode, hex_nibble};
use delta_stream::transport::pubnub::{PubNubConfig, PubNubRealtimeTransport};
use delta_stream::varint::{put_var_u64, read_var_u64};
use delta_stream::{plan_recovery, DeltaError, PartialRepair, V30RecoveryPlan};

#[test]
fn fnv_known_values() {
    assert_eq!(fnv1a64(b""), 0xcbf29ce484222325);
    assert_eq!(fnv1a64(b"a"), 0xaf63dc4c8601ec8c);
    assert_eq!(agent_schema_hash(), fnv1a64(b"delta-stream/AgentState/v2"));
}

#[test]
fn varint_roundtrip_and_errors() {
    for v in [0u64, 1, 127, 128, 300, 16384, u64::MAX] {
        let mut out = Vec::new();
        put_var_u64(&mut out, v);
        let mut cursor = 0usize;
        assert_eq!(read_var_u64(&out, &mut cursor).unwrap(), v);
        assert_eq!(cursor, out.len());
    }
    let mut out = Vec::new();
    put_var_u64(&mut out, 300);
    assert_eq!(out, vec![0xac, 0x02]);
    let mut cursor = 0usize;
    assert!(read_var_u64(&[0x80], &mut cursor).is_err());
    let mut cursor = 0usize;
    assert!(read_var_u64(&[0xff; 11], &mut cursor).is_err());
}

#[test]
fn hex_roundtrip() {
    let bytes = vec![0u8, 1, 0x7f, 0x80, 0xab, 0xff];
    let text = hex_encode(&bytes);
    assert_eq!(text, "00017f80abff");
    assert_eq!(hex_decode(&text).unwrap(), bytes);
    assert_eq!(hex_decode("ABff").unwrap(), vec![0xab, 0xff]);
    assert!(hex_decode("abc").is_err());
    assert!(hex_decode("zz").is_err());
    assert_eq!(hex_nibble(b'F').unwrap(), 15);
    assert!(hex_nibble(b'g').is_err());
}

#[test]
fn binary_codec_pieces() {
    let mut out = Vec::new();
    put_var_u128(&mut out, 300);
    put_var_i128(&mut out, -1);
    put_var_i128(&mut out, 1);
    put_string(&mut out, "hé");
    out.extend_from_slice(&7u16.to_le_bytes());
    assert_eq!(&out[0..4], &[0xac, 0x02, 1, 2]);
    let mut r = Reader::new(&out);
    assert_eq!(r.var_u128().unwrap(), 300);
    assert_eq!(r.var_i128().unwrap(), -1);
    assert_eq!(r.var_i128().unwrap(), 1);
    assert_eq!(r.string().unwrap(), "hé");
    assert_eq!(r.u16().unwrap(), 7);
    assert!(r.finish().is_ok());
    assert!(r.u8().is_err());
    let mut bad = Reader::new(&[2, 0xff, 0xfe]);
    assert!(bad.string().is_err());
    assert_eq!(apply_u64_delta(10, -3).unwrap(), 7);
    assert!(apply_u64_delta(1, -3).is_err());
    assert_eq!(apply_u8_delta(250, 5).unwrap(), 255);
    assert!(apply_u8_delta(250, 6).is_err());
}

#[test]
fn replay_window_is_bounded() {
    let mut w = ReplayWindow::new(2);
    w.record(1);
    w.record(2);
    w.record(2);
    assert!(w.contains(1) && w.contains(2));
    w.record(3);
    assert!(!w.contains(1));
    assert!(w.contains(3));
    w.clear();
    assert!(!w.contains(3));
    let z = ReplayWindow::new(0);
    assert!(!z.contains(0));
}

fn chain(n: u64) -> Vec<Packet> {
    let mut v = Vec::new();
    v.push(Packet::snapshot(1, 0, 9, vec![0; 500]));
    for s in 2..=n {
        v.push(Packet::delta(s, s - 1, 0, 9, vec![1, 2, 3]));
    }
    v
}

#[test]
fn recovery_planner_replays_small_gaps() {
    let mut h = RecoveryHistory::new(16, 1 << 20);
    for p in chain(6) {
        h.record(p);
    }
    assert_eq!(h.len(), 6);
    let snapshot = Packet::snapshot(6, 0, 9, vec![0; 500]);
    match h.plan(Some(4), snapshot.clone()).unwrap() {
        RecoveryPlan::Replay(ps) => {
            assert_eq!(ps.len(), 2);
            assert_eq!(ps[0].sequence, 5);
            assert_eq!(ps[1].sequence, 6);
        }
        other => panic!("expected replay, got {other:?}"),
    }
    assert!(matches!(h.plan(Some(0), snapshot.clone()).unwrap(), RecoveryPlan::Snapshot(_)));
    assert!(matches!(h.plan(None, snapshot.clone()).unwrap(), RecoveryPlan::Snapshot(_)));
    assert!(matches!(h.plan(Some(6), snapshot).unwrap(), RecoveryPlan::Snapshot(_)));
}

#[test]
fn recovery_history_evicts_oldest() {
    let mut h = RecoveryHistory::new(3, 1 << 20);
    for p in chain(5) {
        h.record(p);
    }
    assert_eq!(h.len(), 3);
    assert_eq!(h.bytes(), 3 * 49);
    let mut tiny = RecoveryHistory::new(10, 100);
    for p in chain(4) {
        tiny.record(p);
    }
    assert_eq!(tiny.len(), 2);
    assert!(!tiny.is_empty());
}

#[test]
fn recovery_v30_prefers_partial_repair_when_smaller() {
    let h = RecoveryHistory::default();
    let receiver = vec![0u8; 8192];
    let mut auth = receiver.clone();
    auth[10] = 1;
    let snapshot = Packet::snapshot(3, 0, 9, auth.clone());
    let plan = plan_recovery(&h, Some(1), Some(&receiver), &auth, snapshot.clone(), 1024).unwrap();
    match &plan {
        V30RecoveryPlan::Partial(r) => assert_eq!(r.apply(&receiver).unwrap(), auth),
        other => panic!("expected partial repair, got {other:?}"),
    }
    assert_eq!(plan.estimated_payload_bytes(), 1024);
    let plan = plan_recovery(&h, Some(1), None, &auth, snapshot.clone(), 1024).unwrap();
    assert!(matches!(plan, V30RecoveryPlan::Snapshot(_)));
    assert_eq!(plan.estimated_payload_bytes(), snapshot.encoded_len());
    let r = PartialRepair::build(&receiver, &auth, 1024);
    assert_eq!(r.payload_bytes(), 1024);
}

#[test]
fn session_and_control_naming() {
    let t = SessionTopics::new("agents.demo");
    assert_eq!(t.data, "agents.demo");
    assert_eq!(t.control, "agents.demo.control");
    assert_eq!(t.reply_for("c1"), "agents.demo.reply.c1");
    match ControlMessage::hello("c1", "agents.demo.reply.c1") {
        ControlMessage::Hello { client_id, min_version, max_version, reply_channel } => {
            assert_eq!(client_id, "c1");
            assert_eq!(min_version, 2);
            assert_eq!(max_version, 3);
            assert_eq!(reply_channel, "agents.demo.reply.c1");
        }
        other => panic!("unexpected {other:?}"),
    }
}

#[test]
fn capabilities_and_metrics() {
    let c = Capabilities::local();
    assert_eq!(c.library_version, LIBRARY_VERSION);
    assert_eq!(c.protocol_min, 2);
    assert_eq!(c.protocol_max, 3);
    assert!(c.zstd && c.smart_delta_chunks);
    let mut m = Metrics::default();
    m.record_update(100, 30, true, false);
    m.record_update(10, 30, false, true);
    m.record_resync();
    m.record_duplicate();
    assert_eq!(m.updates, 2);
    assert_eq!(m.bytes_avoided, 70);
    assert_eq!(m.delta_packets, 1);
    assert_eq!(m.snapshot_packets, 1);
    assert_eq!(m.compressed_packets, 1);
    assert_eq!(m.resyncs, 1);
    assert_eq!(m.duplicates, 1);
}

#[test]
fn reports_and_limits() {
    let r = EdgeCaseReport { checks: vec![("a", true), ("b", true)] };
    assert!(r.all_passed());
    let r = EdgeCaseReport { checks: vec![("a", true), ("b", false)] };
    assert!(!r.all_passed());
    assert!(check_encoded_len(10, CrdtDecodeConfig::default()).is_ok());
    assert!(matches!(
        check_encoded_len(2_000_000, CrdtDecodeConfig::default()),
        Err(CrdtError::EncodedValueTooLarge { limit: 1_048_576, actual: 2_000_000 })
    ));
}

#[test]
fn pubnub_keys_must_be_present() {
    let ok = PubNubConfig { publish_key: "p".into(), subscribe_key: "s".into(), user_id: "u".into() };
    assert!(PubNubRealtimeTransport::new(ok).is_ok());
    let bad = PubNubConfig { publish_key: "".into(), subscribe_key: "s".into(), user_id: "u".into() };
    assert!(matches!(PubNubRealtimeTransport::new(bad), Err(DeltaError::InvalidState(_))));
}
