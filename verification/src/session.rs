//! The decisions of a publish/subscribe session: topic naming, what a
//! subscriber does with each data message, and how a publisher answers control
//! messages. Moving bytes over a transport is left to the caller.
use crate::control::ControlMessage;
use crate::error::DeltaError;
use crate::packet::{decode_outcome, encode_result_matches, DecodeConfig, DecodeOutcome, Packet, PacketKind, WIRE_VERSION};
use crate::recovery_history::{packet_views, plan_choice, PlanChoice, RecoveryHistory, RecoveryPlan};
use crate::state::AgentState;
use crate::sync::{
    agent_apply_post, agent_choice, agent_snapshot, sat_inc, ApplyResult, Decoder, DecoderView,
    Encoder,
};
use vstd::prelude::*;
use vstd::string::*;

verus! {

/// The data topic of a session and its control topic (`<data>.control`).
#[derive(Debug, Clone)]
pub struct SessionTopics {
    pub data: String,
    pub control: String,
}

impl SessionTopics {
    /// Topics for the session based at `base`.
    pub fn new(base: &str) -> (t: Self)
        ensures
            t.data@ == base@,
            t.control@ == base@ + ".control"@,
    {
        let data = base.to_owned();
        let control = base.to_owned().concat(".control");
        SessionTopics { data, control }
    }

    /// The private reply topic of a client: `<data>.reply.<client_id>`.
    pub fn reply_for(&self, client_id: &str) -> (t: String)
        ensures
            t@ == self.data@ + ".reply."@ + client_id@,
    {
        self.data.clone().concat(".reply.").concat(client_id)
    }
}

/// What a subscriber did with one data message.
#[derive(Debug)]
pub enum SubscriberAction {
    /// The bytes were not a packet.
    Ignored { error: DeltaError },
    /// A delta deliberately dropped once, to demonstrate recovery.
    Dropped { sequence: u64 },
    /// The packet was applied; `restored` when it ended a wait for a snapshot,
    /// and `ack` is to be published on the control topic.
    Applied { sequence: u64, state: AgentState, restored: bool, ack: ControlMessage },
    Duplicate { sequence: u64 },
    /// The packet did not build on the local state; `request` (only on the first
    /// desync of a wait) is to be published on the control topic.
    Desync { local_sequence: Option<u64>, required_sequence: u64, request: Option<ControlMessage> },
}

/// The state of a subscribing session, apart from its transport.
#[derive(Debug)]
pub struct SubscriberCore {
    client_id: String,
    reply_topic: String,
    decoder: Decoder,
    awaiting_snapshot: bool,
    dropped: bool,
}

/// The state of a [`SubscriberCore`].
pub struct SubscriberView {
    pub client_id: Seq<char>,
    pub reply_topic: Seq<char>,
    pub decoder: DecoderView,
    pub awaiting_snapshot: bool,
    pub dropped: bool,
}

impl View for SubscriberCore {
    type V = SubscriberView;

    closed spec fn view(&self) -> SubscriberView {
        SubscriberView {
            client_id: self.client_id@,
            reply_topic: self.reply_topic@,
            decoder: self.decoder@,
            awaiting_snapshot: self.awaiting_snapshot,
            dropped: self.dropped,
        }
    }
}

/// What `SubscriberCore::on_data` does with `payload`.
pub open spec fn on_data_post(
    old: SubscriberView,
    payload: Seq<u8>,
    drop_once_sequence: Option<u64>,
    new: SubscriberView,
    res: Result<SubscriberAction, DeltaError>,
) -> bool {
    &&& new.client_id == old.client_id
    &&& new.reply_topic == old.reply_topic
    &&& match decode_outcome(payload, DecodeConfig::spec_default()) {
        DecodeOutcome::Decoded(p) => if !old.dropped && drop_once_sequence == Some(p.sequence) && p.kind
            == PacketKind::Delta {
            &&& res matches Ok(SubscriberAction::Dropped { sequence }) && sequence == p.sequence
            &&& new == SubscriberView { dropped: true, ..old }
        } else {
            &&& new.dropped == old.dropped
            &&& exists|r: Result<ApplyResult, DeltaError>| {
                &&& #[trigger] agent_apply_post(old.decoder, p, new.decoder, r)
                &&& match r {
                    Ok(ApplyResult::Applied { sequence, state }) => {
                        &&& res matches Ok(SubscriberAction::Applied { sequence: s, state: v, restored, ack })
                            && s == sequence && v@ == state@ && restored == old.awaiting_snapshot
                            && (ack matches ControlMessage::Ack { client_id, sequence: a } && client_id@
                            == old.client_id && a == sequence)
                        &&& !new.awaiting_snapshot
                    },
                    Ok(ApplyResult::Duplicate { sequence }) => {
                        &&& res matches Ok(SubscriberAction::Duplicate { sequence: s }) && s == sequence
                        &&& new.awaiting_snapshot == old.awaiting_snapshot
                    },
                    Ok(ApplyResult::NeedSnapshot { local_sequence, required_sequence }) => {
                        &&& res matches Ok(SubscriberAction::Desync { local_sequence: l, required_sequence: q, request })
                            && l == local_sequence && q == required_sequence && (if old.awaiting_snapshot {
                            request is None
                        } else {
                            (request matches Some(ControlMessage::ResyncRequest {
                                client_id,
                                local_sequence: rl,
                                required_sequence: rq,
                                reply_channel,
                            }) && client_id@ == old.client_id && rl == local_sequence && rq
                                == required_sequence && reply_channel@ == old.reply_topic)
                        })
                        &&& new.awaiting_snapshot
                    },
                    Err(_) => res is Err && new.awaiting_snapshot == old.awaiting_snapshot,
                }
            }
        },
        _ => {
            &&& res matches Ok(SubscriberAction::Ignored { .. })
            &&& new == old
        },
    }
}

impl SubscriberCore {
    /// A fresh subscriber `client_id` on `topics`, replying on its own topic.
    pub fn new(topics: &SessionTopics, client_id: &str) -> (s: Self)
        ensures
            s@.client_id == client_id@,
            s@.reply_topic == topics.data@ + ".reply."@ + client_id@,
            s@.decoder.wf(),
            s@.decoder.sequence is None,
            !s@.awaiting_snapshot,
            !s@.dropped,
    {
        SubscriberCore {
            client_id: client_id.to_owned(),
            reply_topic: topics.reply_for(client_id),
            decoder: Decoder::default(),
            awaiting_snapshot: false,
            dropped: false,
        }
    }

    /// The topic on which the publisher answers this subscriber.
    pub fn reply_topic(&self) -> (t: &str)
        ensures
            t@ == self@.reply_topic,
    {
        self.reply_topic.as_str()
    }

    /// The greeting to publish on the control topic.
    pub fn hello(&self) -> (m: ControlMessage)
        ensures
            m matches ControlMessage::Hello { client_id, reply_channel, .. } && client_id@ == self@.client_id
                && reply_channel@ == self@.reply_topic,
    {
        ControlMessage::hello(self.client_id.as_str(), self.reply_topic.as_str())
    }

    /// Handles one data message: decodes it, drops the chosen delta once, and
    /// otherwise applies it, asking for a snapshot on the first desync.
    pub fn on_data(&mut self, payload: &[u8], drop_once_sequence: Option<u64>) -> (res: Result<
        SubscriberAction,
        DeltaError,
    >)
        requires
            old(self)@.decoder.wf(),
        ensures
            final(self)@.decoder.wf(),
            on_data_post(old(self)@, payload@, drop_once_sequence, final(self)@, res),
    {
        let packet = match Packet::decode(payload) {
            Ok(p) => p,
            Err(error) => return Ok(SubscriberAction::Ignored { error }),
        };
        let drop_this = match drop_once_sequence {
            Some(s) => s == packet.sequence,
            None => false,
        };
        if !self.dropped && drop_this && packet.kind == PacketKind::Delta {
            self.dropped = true;
            return Ok(SubscriberAction::Dropped { sequence: packet.sequence });
        }
        let was_awaiting = self.awaiting_snapshot;
        let applied = self.decoder.apply_packet(packet);
        let ghost r = applied;
        match applied {
            Ok(ApplyResult::Applied { sequence, state }) => {
                self.awaiting_snapshot = false;
                let ack = ControlMessage::Ack { client_id: self.client_id.clone(), sequence };
                Ok(SubscriberAction::Applied { sequence, state, restored: was_awaiting, ack })
            },
            Ok(ApplyResult::Duplicate { sequence }) => Ok(SubscriberAction::Duplicate { sequence }),
            Ok(ApplyResult::NeedSnapshot { local_sequence, required_sequence }) => {
                let request = if !self.awaiting_snapshot {
                    self.awaiting_snapshot = true;
                    Some(
                        ControlMessage::ResyncRequest {
                            client_id: self.client_id.clone(),
                            local_sequence,
                            required_sequence,
                            reply_channel: self.reply_topic.clone(),
                        },
                    )
                } else {
                    None
                };
                Ok(SubscriberAction::Desync { local_sequence, required_sequence, request })
            },
            Err(e) => Err(e),
        }
    }

    /// The synchronized state, if any.
    pub fn state(&self) -> (s: Option<&AgentState>)
        ensures
            match s {
                Some(x) => self@.decoder.state == Some(x@),
                None => self@.decoder.state is None,
            },
    {
        self.decoder.state()
    }
}

/// How a publisher answers a control message.
#[derive(Debug)]
pub enum ControlResponse {
    /// Publish these retained packets, in order, on the reply channel.
    Replay { reply_channel: String, packets: Vec<Packet> },
    /// Publish this snapshot on the reply channel.
    Snapshot { reply_channel: String, packet: Packet },
    /// A client confirmed a sequence.
    Acknowledged { client_id: String, sequence: u64 },
    /// Publish this acknowledgement of a greeting on the reply channel.
    HelloAck { reply_channel: String, ack: ControlMessage },
    /// A client whose version range excludes this library's.
    Incompatible { client_id: String, min_version: u8, max_version: u8 },
    /// Nothing to do.
    Ignored,
}

/// Answers a control message: a resync request gets the retained packets that
/// close the client's gap, or a snapshot of `state` at the current sequence; a
/// greeting gets the selected wire version when the client's range admits it.
pub fn control_response(
    message: ControlMessage,
    encoder: &Encoder,
    state: &AgentState,
    history: &RecoveryHistory,
) -> (res: Result<ControlResponse, DeltaError>)
    ensures
        match message {
            ControlMessage::ResyncRequest { local_sequence, reply_channel, .. } => match encoder@.policy.initial_choice(
                agent_snapshot(encoder@.sequence, state@),
            ) {
                None => res matches Err(e) && e is Compression,
                Some((snap, _)) => match plan_choice(history@, local_sequence, snap) {
                    PlanChoice::Snapshot => res matches Ok(ControlResponse::Snapshot { reply_channel: r, packet })
                        && r == reply_channel && packet@ == snap,
                    PlanChoice::Replay(ps) => res matches Ok(ControlResponse::Replay { reply_channel: r, packets })
                        && r == reply_channel && packet_views(packets@) == ps,
                },
            },
            ControlMessage::Ack { client_id, sequence } => res == Ok::<ControlResponse, DeltaError>(
                ControlResponse::Acknowledged { client_id, sequence },
            ),
            ControlMessage::Hello { client_id, min_version, max_version, reply_channel } => if WIRE_VERSION
                < min_version || WIRE_VERSION > max_version {
                res == Ok::<ControlResponse, DeltaError>(
                    ControlResponse::Incompatible { client_id, min_version, max_version },
                )
            } else {
                res == Ok::<ControlResponse, DeltaError>(
                    ControlResponse::HelloAck {
                        reply_channel,
                        ack: ControlMessage::HelloAck { client_id, selected_version: WIRE_VERSION },
                    },
                )
            },
            ControlMessage::HelloAck { .. } => res == Ok::<ControlResponse, DeltaError>(ControlResponse::Ignored),
        },
{
    match message {
        ControlMessage::ResyncRequest { local_sequence, reply_channel, .. } => {
            let snapshot = encoder.recovery_snapshot(state)?;
            match history.plan(local_sequence, snapshot)? {
                RecoveryPlan::Replay(packets) => Ok(ControlResponse::Replay { reply_channel, packets }),
                RecoveryPlan::Snapshot(packet) => Ok(ControlResponse::Snapshot { reply_channel, packet }),
            }
        },
        ControlMessage::Ack { client_id, sequence } => Ok(ControlResponse::Acknowledged { client_id, sequence }),
        ControlMessage::Hello { client_id, min_version, max_version, reply_channel } => {
            let selected = WIRE_VERSION;
            if selected < min_version || selected > max_version {
                return Ok(ControlResponse::Incompatible { client_id, min_version, max_version });
            }
            Ok(ControlResponse::HelloAck {
                reply_channel,
                ack: ControlMessage::HelloAck { client_id, selected_version: selected },
            })
        },
        ControlMessage::HelloAck { .. } => Ok(ControlResponse::Ignored),
    }
}

/// Encodes the next published state, returning the packet (to record in the
/// history once it is sent) and its wire bytes.
pub fn encode_for_publish(encoder: &mut Encoder, state: &AgentState) -> (res: Result<(Packet, Vec<u8>), DeltaError>)
    ensures
        final(encoder)@.sequence == sat_inc(old(encoder)@.sequence),
        res matches Ok((p, bytes)) ==> {
            &&& (agent_choice(old(encoder)@, sat_inc(old(encoder)@.sequence), state@) matches Some((q, _))
                && p@ == q)
            &&& encode_result_matches(Ok(bytes), p@)
        },
{
    let packet = encoder.encode(state)?;
    let bytes = packet.encode()?;
    Ok((packet, bytes))
}

} // verus!
