//! Control-channel messages between publishers and subscribers.
use crate::packet::{MIN_WIRE_VERSION, WIRE_VERSION};
use vstd::prelude::*;

verus! {

/// A control-channel message.
#[derive(Debug, Clone, PartialEq, Eq)]
pub enum ControlMessage {
    Hello { client_id: String, min_version: u8, max_version: u8, reply_channel: String },
    HelloAck { client_id: String, selected_version: u8 },
    Ack { client_id: String, sequence: u64 },
    ResyncRequest {
        client_id: String,
        local_sequence: Option<u64>,
        required_sequence: u64,
        reply_channel: String,
    },
}

impl ControlMessage {
    /// A greeting offering every wire version this library speaks.
    pub fn hello(client_id: &str, reply_channel: &str) -> (m: Self)
        ensures
            m matches ControlMessage::Hello { client_id: c, min_version, max_version, reply_channel: r }
                && c@ == client_id@ && r@ == reply_channel@ && min_version == MIN_WIRE_VERSION
                && max_version == WIRE_VERSION,
    {
        ControlMessage::Hello {
            client_id: client_id.to_owned(),
            min_version: MIN_WIRE_VERSION,
            max_version: WIRE_VERSION,
            reply_channel: reply_channel.to_owned(),
        }
    }
}

} // verus!
