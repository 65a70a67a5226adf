//! WebSocket relay adapter settings.
use vstd::prelude::*;

verus! {

/// Connection settings of the WebSocket relay adapter.
#[derive(Debug, Clone)]
pub struct WebSocketRealtimeTransport {
    pub url: String,
}

impl WebSocketRealtimeTransport {
    /// An adapter for the relay at `url`.
    pub fn new(url: &str) -> (t: Self)
        ensures
            t.url@ == url@,
    {
        WebSocketRealtimeTransport { url: url.to_owned() }
    }
}

} // verus!
