//! PubNub adapter settings.
use crate::error::DeltaError;
use vstd::prelude::*;
use vstd::string::*;
use vstd::utf8::encode_utf8_decode_utf8;

verus! {

/// PubNub keys and user.
#[derive(Debug, Clone)]
pub struct PubNubConfig {
    pub publish_key: String,
    pub subscribe_key: String,
    pub user_id: String,
}

/// Connection settings of the PubNub adapter.
#[derive(Debug, Clone)]
pub struct PubNubRealtimeTransport {
    config: PubNubConfig,
}

/// Whether a string is empty, by its bytes.
fn string_is_empty(s: &String) -> (b: bool)
    ensures
        b == (s@.len() == 0),
{
    let bytes = s.as_str().as_bytes();
    proof {
        encode_utf8_decode_utf8(s@);
        if bytes@.len() == 0 {
            assert(vstd::utf8::decode_utf8(Seq::<u8>::empty()) =~= Seq::<char>::empty());
        } else {
            assert(s@.len() > 0) by {
                if s@.len() == 0 {
                    assert(vstd::utf8::encode_utf8(s@) =~= Seq::<u8>::empty());
                }
            }
        }
    }
    bytes.len() == 0
}

impl PubNubRealtimeTransport {
    /// An adapter with the given keys; both keys must be non-empty.
    pub fn new(config: PubNubConfig) -> (res: Result<Self, DeltaError>)
        ensures
            config.publish_key@.len() == 0 || config.subscribe_key@.len() == 0 ==> (res matches Err(e)
                && e is InvalidState),
            config.publish_key@.len() > 0 && config.subscribe_key@.len() > 0 ==> (res matches Ok(t)
                && t.config() == config),
    {
        if string_is_empty(&config.publish_key) || string_is_empty(&config.subscribe_key) {
            return Err(DeltaError::InvalidState("PubNub keys cannot be empty"));
        }
        Ok(PubNubRealtimeTransport { config })
    }

    /// The keys in use.
    pub closed spec fn config(&self) -> PubNubConfig {
        self.config
    }

    /// The keys in use.
    pub fn keys(&self) -> (c: &PubNubConfig)
        ensures
            *c == self.config(),
    {
        &self.config
    }
}

} // verus!
