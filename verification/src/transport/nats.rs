//! NATS server adapter settings.
use vstd::prelude::*;

verus! {

/// Connection settings of the NATS adapter.
#[derive(Debug, Clone)]
pub struct NatsRealtimeTransport {
    server: String,
}

impl NatsRealtimeTransport {
    /// An adapter for the NATS server at `server`.
    pub fn new(server: &str) -> (t: Self)
        ensures
            t.server()@ == server@,
    {
        NatsRealtimeTransport { server: server.to_owned() }
    }

    /// The server address.
    pub closed spec fn server(&self) -> String {
        self.server
    }

    /// The server address.
    pub fn server_url(&self) -> (s: &str)
        ensures
            s@ == self.server()@,
    {
        self.server.as_str()
    }
}

} // verus!
