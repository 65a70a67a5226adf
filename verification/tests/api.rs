use delta_stream::control::ControlMessage;
use delta_stream::packet::{Packet, PacketKind, WIRE_VERSION};
use delta_stream::recovery_history::RecoveryHistory;
use delta_stream::schema::schema_hash;
use delta_stream::session::{
    control_response, encode_for_publish, ControlResponse, SessionTopics, SubscriberAction, SubscriberCore,
};
use delta_stream::state::AgentState;
use delta_stream::sync::Encoder;
use delta_stream::{
    AdaptivePolicy, Apply, DeltaError, DeltaState, EncodeMode, GenericApplyResult, Publisher, SnapshotMigration,
    StatePublisher, StateSubscriber, Subscriber,
};

#[derive(Clone, Debug, PartialEq)]
struct GameState {
    x: i32,
    hp: u16,
}

impl DeltaState for GameState {
    const SCHEMA_NAME: &'static str = "tests/GameState/v1";

    fn encode_snapshot(&self) -> Result<Vec<u8>, DeltaError> {
        let mut v = self.x.to_le_bytes().to_vec();
        v.extend_from_slice(&self.hp.to_le_bytes());
        Ok(v)
    }

    fn decode_snapshot(bytes: &[u8]) -> Result<Self, DeltaError> {
        if bytes.len() != 6 {
            return Err(DeltaError::InvalidPacket("game state length".into()));
        }
        Ok(GameState {
            x: i32::from_le_bytes([bytes[0], bytes[1], bytes[2], bytes[3]]),
            hp: u16::from_le_bytes([bytes[4], bytes[5]]),
        })
    }

    fn encode_delta(old: &Self, new: &Self) -> Result<Vec<u8>, DeltaError> {
        let mut v = Vec::new();
        if old.x != new.x {
            v.push(0);
            v.extend_from_slice(&new.x.to_le_bytes());
        }
        if old.hp != new.hp {
            v.push(1);
            v.extend_from_slice(&new.hp.to_le_bytes());
        }
        Ok(v)
    }

    fn apply_delta(&self, delta: &[u8]) -> Result<Self, DeltaError> {
        let mut out = self.clone();
        let mut i = 0;
        while i < delta.len() {
            match delta[i] {
                0 if i + 5 <= delta.len() => {
                    out.x = i32::from_le_bytes([delta[i + 1], delta[i + 2], delta[i + 3], delta[i + 4]]);
                    i += 5;
                }
                1 if i + 3 <= delta.len() => {
                    out.hp = u16::from_le_bytes([delta[i + 1], delta[i + 2]]);
                    i += 3;
                }
                _ => return Err(DeltaError::InvalidPacket("game delta".into())),
            }
        }
        Ok(out)
    }
}

#[test]
fn quickstart_publisher_subscriber() {
    let mut publisher = Publisher::<GameState>::new();
    let mut subscriber = Subscriber::<GameState>::new();
    let bytes = publisher.encode(&GameState { x: 10, hp: 100 }).unwrap();
    subscriber.receive(&bytes).unwrap();
    assert_eq!(subscriber.state().map(|s| s.hp), Some(100));
}

#[test]
fn packet_bytes_roundtrip_through_apply() {
    let mut publisher = Publisher::<GameState>::new();
    let mut subscriber = Subscriber::<GameState>::new();
    let bytes = publisher.update(&GameState { x: 10, hp: 100 }).unwrap().to_bytes().unwrap();
    let packet = Packet::from_bytes(&bytes).unwrap();
    let _ = subscriber.apply(packet).unwrap();
    assert_eq!(subscriber.state().map(|s| s.hp), Some(100));
}

#[test]
fn receive_rejects_garbage_and_keeps_state() {
    let mut publisher = Publisher::<GameState>::new();
    let mut subscriber = Subscriber::<GameState>::new();
    subscriber.receive(&publisher.encode(&GameState { x: 1, hp: 5 }).unwrap()).unwrap();
    assert!(matches!(subscriber.receive(&[1, 2, 3]), Err(DeltaError::InvalidPacket(_))));
    assert_eq!(subscriber.state(), Some(&GameState { x: 1, hp: 5 }));
    assert_eq!(subscriber.sequence(), Some(1));
    subscriber.receive(&publisher.encode(&GameState { x: 2, hp: 5 }).unwrap()).unwrap();
    assert_eq!(subscriber.state(), Some(&GameState { x: 2, hp: 5 }));
}

#[test]
fn first_update_is_sequence_one_snapshot() {
    let mut publisher = StatePublisher::<GameState>::new();
    let packet = publisher.update(&GameState { x: 1, hp: 10 }).unwrap();
    assert_eq!(packet.sequence, 1);
    assert_eq!(packet.kind, PacketKind::Snapshot);
    assert_eq!(packet.schema_hash, schema_hash::<GameState>());
    assert_eq!(publisher.last_decision().unwrap().mode, EncodeMode::Snapshot);
}

#[test]
fn basic_sync_three_states() {
    let mut publisher = Publisher::<GameState>::new();
    let mut subscriber = Subscriber::<GameState>::new();
    let states = [
        GameState { x: 10, hp: 100 },
        GameState { x: 11, hp: 98 },
        GameState { x: 12, hp: 96 },
    ];
    for (i, state) in states.iter().enumerate() {
        let packet = publisher.update(state).unwrap();
        let wire = packet.to_bytes().unwrap();
        let received = Packet::from_bytes(&wire).unwrap();
        match subscriber.apply(received).unwrap() {
            Apply::Applied { sequence, state: s } => {
                assert_eq!(sequence, i as u64 + 1);
                assert_eq!(&s, state);
            }
            other => panic!("unexpected {other:?}"),
        }
    }
    assert_eq!(subscriber.sequence(), Some(3));
    assert_eq!(publisher.sequence(), 3);
    // a six-byte state is cheaper to resend whole than as a delta
    assert_eq!(publisher.last_decision().unwrap().mode, EncodeMode::Snapshot);
}

#[test]
fn subscriber_needs_snapshot_after_gap() {
    let mut publisher = StatePublisher::<GameState>::new();
    let mut subscriber = StateSubscriber::<GameState>::new();
    let p1 = publisher.update(&GameState { x: 1, hp: 1 }).unwrap();
    let _p2 = publisher.update(&GameState { x: 2, hp: 1 }).unwrap();
    let _ = publisher.update(&GameState { x: 3, hp: 1 }).unwrap();
    let p3 = Packet::delta(3, 2, 0, schema_hash::<GameState>(), vec![0, 3, 0, 0, 0]);
    let _ = subscriber.apply(p1.clone()).unwrap();
    assert_eq!(
        subscriber.apply(p3).unwrap(),
        GenericApplyResult::NeedSnapshot { local_sequence: Some(1), required_sequence: 2 }
    );
    assert_eq!(subscriber.apply(p1).unwrap(), GenericApplyResult::Duplicate { sequence: 1 });
    let recovery = publisher.recovery_snapshot(&GameState { x: 3, hp: 1 }).unwrap();
    assert_eq!(recovery.sequence, 3);
    assert_eq!(publisher.sequence(), 3);
    assert_eq!(
        subscriber.apply(recovery).unwrap(),
        GenericApplyResult::Applied { sequence: 3, state: GameState { x: 3, hp: 1 } }
    );
    subscriber.reset();
    assert_eq!(subscriber.sequence(), None);
    assert!(subscriber.state().is_none());
}

#[test]
fn subscriber_rejects_foreign_schema_and_bad_hash() {
    let mut subscriber = StateSubscriber::<GameState>::new();
    let foreign = Packet::snapshot(1, 0, 7, vec![0; 6]);
    assert!(matches!(subscriber.apply(foreign), Err(DeltaError::SchemaMismatch { received: 7, .. })));
    let bad = Packet::snapshot(1, 0, schema_hash::<GameState>(), vec![0; 6]);
    assert!(matches!(subscriber.apply(bad), Err(DeltaError::InvalidState(_))));
    assert_eq!(subscriber.sequence(), None);
}

#[test]
fn force_snapshot_and_builder() {
    let mut publisher = StatePublisher::<GameState>::builder().compression(false).zstd_level(3).build();
    let _ = publisher.update(&GameState { x: 1, hp: 1 }).unwrap();
    let p = publisher.force_snapshot(&GameState { x: 1, hp: 1 }).unwrap();
    assert_eq!(p.kind, PacketKind::Snapshot);
    assert_eq!(p.sequence, 2);
    let custom = AdaptivePolicy { min_delta_savings_bytes: 100, ..AdaptivePolicy::default() };
    let mut publisher = StatePublisher::<GameState>::builder().adaptive_policy(custom).build();
    let _ = publisher.update(&GameState { x: 1, hp: 1 }).unwrap();
    let p = publisher.update(&GameState { x: 2, hp: 1 }).unwrap();
    assert_eq!(p.kind, PacketKind::Snapshot);
    let mut publisher = StatePublisher::<GameState>::with_policy(AdaptivePolicy::default());
    assert_eq!(publisher.sequence(), 0);
    let _ = publisher.update(&GameState { x: 1, hp: 1 }).unwrap();
    let _ = StatePublisher::<GameState>::default();
}

struct OldGame;

impl SnapshotMigration<GameState> for OldGame {
    fn migrate_snapshot(&self, from: u64, _to: u64, payload: &[u8]) -> Result<GameState, DeltaError> {
        if from != 99 || payload.len() != 2 {
            return Err(DeltaError::SchemaMigrationMissing { from, to: 0 });
        }
        Ok(GameState { x: payload[0] as i32, hp: payload[1] as u16 })
    }
}

#[test]
fn migration_takes_foreign_snapshot() {
    let mut subscriber = StateSubscriber::<GameState>::new();
    let payload = vec![5u8, 9];
    let old = Packet::snapshot(4, delta_stream::sync::fnv1a64(&payload), 99, payload);
    assert_eq!(
        subscriber.apply_with_migrations(old.clone(), &OldGame).unwrap(),
        GenericApplyResult::Applied { sequence: 4, state: GameState { x: 5, hp: 9 } }
    );
    assert_eq!(
        subscriber.apply_with_migrations(old, &OldGame).unwrap(),
        GenericApplyResult::Duplicate { sequence: 4 }
    );
    let foreign_delta = Packet::delta(6, 5, 0, 99, vec![]);
    assert_eq!(
        subscriber.apply_with_migrations(foreign_delta, &OldGame).unwrap(),
        GenericApplyResult::NeedSnapshot { local_sequence: Some(4), required_sequence: 5 }
    );
    let unknown = Packet::snapshot(9, delta_stream::sync::fnv1a64(&[1]), 98, vec![1]);
    assert!(matches!(
        subscriber.apply_with_migrations(unknown, &OldGame),
        Err(DeltaError::SchemaMigrationMissing { .. })
    ));
}

#[test]
fn subscriber_core_flow() {
    let topics = SessionTopics::new("agents/17");
    let mut core = SubscriberCore::new(&topics, "client-a");
    assert_eq!(core.reply_topic(), "agents/17.reply.client-a");
    assert!(matches!(core.hello(), ControlMessage::Hello { .. }));
    let mut enc = Encoder::default();
    let s1 = AgentState::demo();
    let mut s2 = s1.clone();
    s2.tokens += 5;
    let mut s3 = s2.clone();
    s3.tokens += 5;
    let (_, b1) = encode_for_publish(&mut enc, &s1).unwrap();
    let (_, b2) = encode_for_publish(&mut enc, &s2).unwrap();
    let (_, b3) = encode_for_publish(&mut enc, &s3).unwrap();
    assert!(matches!(core.on_data(b"not a packet", None).unwrap(), SubscriberAction::Ignored { .. }));
    match core.on_data(&b1, None).unwrap() {
        SubscriberAction::Applied { sequence, restored, ack, .. } => {
            assert_eq!(sequence, 1);
            assert!(!restored);
            assert_eq!(ack, ControlMessage::Ack { client_id: "client-a".into(), sequence: 1 });
        }
        other => panic!("unexpected {other:?}"),
    }
    assert!(matches!(core.on_data(&b2, Some(2)).unwrap(), SubscriberAction::Dropped { sequence: 2 }));
    match core.on_data(&b3, Some(2)).unwrap() {
        SubscriberAction::Desync { local_sequence, required_sequence, request } => {
            assert_eq!(local_sequence, Some(1));
            assert_eq!(required_sequence, 2);
            assert_eq!(
                request,
                Some(ControlMessage::ResyncRequest {
                    client_id: "client-a".into(),
                    local_sequence: Some(1),
                    required_sequence: 2,
                    reply_channel: "agents/17.reply.client-a".into(),
                })
            );
        }
        other => panic!("unexpected {other:?}"),
    }
    assert!(matches!(
        core.on_data(&b3, Some(2)).unwrap(),
        SubscriberAction::Desync { request: None, .. }
    ));
    let snap = enc.recovery_snapshot(&s3).unwrap().encode().unwrap();
    match core.on_data(&snap, Some(2)).unwrap() {
        SubscriberAction::Applied { sequence, restored, .. } => {
            assert_eq!(sequence, 3);
            assert!(restored);
        }
        other => panic!("unexpected {other:?}"),
    }
    assert!(core.state().unwrap().same_as(&s3));
}

#[test]
fn publisher_control_responses() {
    let mut enc = Encoder::default();
    let mut history = RecoveryHistory::new(16, 1 << 20);
    let mut state = AgentState::demo();
    for _ in 0..4 {
        state.tokens += 1;
        let (p, _) = encode_for_publish(&mut enc, &state).unwrap();
        history.record(p);
    }
    let request = ControlMessage::ResyncRequest {
        client_id: "c".into(),
        local_sequence: Some(2),
        required_sequence: 3,
        reply_channel: "r".into(),
    };
    match control_response(request, &enc, &state, &history).unwrap() {
        ControlResponse::Replay { reply_channel, packets } => {
            assert_eq!(reply_channel, "r");
            assert_eq!(packets.iter().map(|p| p.sequence).collect::<Vec<_>>(), vec![3, 4]);
        }
        other => panic!("unexpected {other:?}"),
    }
    let fresh = ControlMessage::ResyncRequest {
        client_id: "c".into(),
        local_sequence: None,
        required_sequence: 1,
        reply_channel: "r".into(),
    };
    match control_response(fresh, &enc, &state, &history).unwrap() {
        ControlResponse::Snapshot { packet, .. } => {
            assert_eq!(packet.sequence, 4);
            assert_eq!(packet.kind, PacketKind::Snapshot);
        }
        other => panic!("unexpected {other:?}"),
    }
    let hello = ControlMessage::hello("c", "r");
    match control_response(hello, &enc, &state, &history).unwrap() {
        ControlResponse::HelloAck { reply_channel, ack } => {
            assert_eq!(reply_channel, "r");
            assert_eq!(ack, ControlMessage::HelloAck { client_id: "c".into(), selected_version: WIRE_VERSION });
        }
        other => panic!("unexpected {other:?}"),
    }
    let old = ControlMessage::Hello { client_id: "c".into(), min_version: 9, max_version: 9, reply_channel: "r".into() };
    assert!(matches!(
        control_response(old, &enc, &state, &history).unwrap(),
        ControlResponse::Incompatible { min_version: 9, .. }
    ));
    let ack = ControlMessage::Ack { client_id: "c".into(), sequence: 4 };
    assert!(matches!(
        control_response(ack, &enc, &state, &history).unwrap(),
        ControlResponse::Acknowledged { sequence: 4, .. }
    ));
}
