//! The unit a realtime transport delivers.
use vstd::prelude::*;

verus! {

/// A payload received on a topic.
#[derive(Debug, Clone)]
pub struct TransportMessage {
    pub topic: String,
    pub payload: Vec<u8>,
}

} // verus!
