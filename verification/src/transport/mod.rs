//! Transport adapters: their configuration, the message a transport carries,
//! and the hex framing some relays use. The network I/O itself lives outside
//! this library.
pub mod hex;
pub mod message;
pub mod mqtt;
pub mod nats;
pub mod pubnub;
pub mod websocket;

pub use message::TransportMessage;
