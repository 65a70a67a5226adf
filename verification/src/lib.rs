//! Verified core of a state-synchronization library: wire packets, byte-level
//! delta strategies, hashing and the receiver state machines that decide when a
//! delta may be applied and when recovery is required.

pub mod error;
pub mod sync;
pub mod schema;
pub mod api;
pub mod state;
pub mod reorder;
pub mod varint;
pub mod buf;
pub mod ext;
pub mod packet;
pub mod smart_delta;
pub mod byte_sync;
pub mod runtime;
pub mod fast_selector;
pub mod v30_sync;
pub mod partial_repair;
pub mod recovery_history;
pub mod replay;
pub mod recovery_v30;
pub mod crdt;
pub mod binary;
pub mod transport;
pub mod compat;
pub mod control;
pub mod session;
pub mod demo;
pub mod workload;
pub mod sparse;
pub mod adaptive;
pub mod metrics;
pub mod edge_cases;
pub mod v25_bench;
pub mod v25_validation;
pub mod v30_validation;
pub mod multi_client;
pub mod torture;
pub mod chaos;
pub mod v30_torture;

pub use adaptive::{AdaptivePolicy, EncodeDecision, EncodeMode};
pub use api::{Publisher, PublisherBuilder, StatePublisher, StateSubscriber, Subscriber};
pub use byte_sync::{
    ByteApplyResult, ByteEncodeDecision, ByteEncodeMode, ByteStateDecoder, ByteStateEncoder,
    V25Policy,
};
pub use compat::Capabilities;
pub use error::DeltaError;
pub use fast_selector::{ChangeProfile, SelectorPolicy, StrategyAdvisor};
pub use multi_client::MultiClientReport;
pub use packet::{
    DecodeConfig, Packet, PacketKind, MAX_LOGICAL_PAYLOAD, MAX_WIRE_PAYLOAD, WIRE_VERSION,
};
pub use partial_repair::{ChunkManifest, ChunkPatch, PartialRepair};
pub use recovery_history::{RecoveryHistory, RecoveryPlan};
pub use recovery_v30::{plan_recovery, V30RecoveryPlan};
pub use reorder::{ReorderApplyResult, ReorderDecoder};
pub use runtime::{backpressure_decision, BackpressureDecision, RuntimeLimits, RuntimeMetrics};
pub use schema::{DeltaState, SnapshotMigration};
pub use smart_delta::{AdaptiveTuner, SmartDeltaKind, SmartDeltaPolicy};
pub use state::AgentState;
pub use sync::GenericApplyResult as Apply;
pub use sync::{ApplyResult, Decoder, Encoder, GenericApplyResult, GenericDecoder, GenericEncoder};
pub use torture::TortureReport;
pub use v30_sync::{FastByteStateEncoder, V30Decision, V30EncodeMode, V30Policy};
pub use v30_torture::V30TortureReport;
