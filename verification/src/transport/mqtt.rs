//! MQTT broker adapter settings.
use vstd::prelude::*;

verus! {

/// Connection settings of the MQTT adapter.
#[derive(Debug, Clone)]
pub struct MqttRealtimeTransport {
    host: String,
    port: u16,
    client_prefix: String,
}

impl MqttRealtimeTransport {
    /// An adapter for the broker at `host:port`, naming its clients `delta-stream-…`.
    pub fn new(host: &str, port: u16) -> (t: Self)
        ensures
            t.host()@ == host@,
            t.port() == port,
            t.client_prefix()@ == "delta-stream"@,
    {
        MqttRealtimeTransport { host: host.to_owned(), port, client_prefix: "delta-stream".to_owned() }
    }

    /// The broker host.
    pub closed spec fn host(&self) -> String {
        self.host
    }

    /// The broker port.
    pub closed spec fn port(&self) -> u16 {
        self.port
    }

    /// The prefix of client identifiers.
    pub closed spec fn client_prefix(&self) -> String {
        self.client_prefix
    }

    /// The broker host.
    pub fn host_name(&self) -> (h: &str)
        ensures
            h@ == self.host()@,
    {
        self.host.as_str()
    }

    /// The broker port.
    pub fn port_number(&self) -> (p: u16)
        ensures
            p == self.port(),
    {
        self.port
    }

    /// The prefix of client identifiers.
    pub fn client_id_prefix(&self) -> (p: &str)
        ensures
            p@ == self.client_prefix()@,
    {
        self.client_prefix.as_str()
    }
}

} // verus!
