//! State-based CRDTs for multi-writer replicated values: merge is commutative,
//! associative and idempotent, so replicas that exchange states converge.
use vstd::prelude::*;

pub mod gcounter;
pub mod lww_register;
pub mod pncounter;
pub mod replica_id;

pub use gcounter::GCounter;
pub use lww_register::LwwRegister;
pub use pncounter::PNCounter;
pub use replica_id::ReplicaId;

verus! {

/// State-based merge. The result tells whether `self` changed.
pub trait Crdt {
    /// Merges another replica's state into this one.
    fn merge(&mut self, other: &Self) -> bool;
}

/// Decode limits for encoded CRDT values.
#[derive(Debug, Clone, Copy, PartialEq, Eq)]
pub struct CrdtDecodeConfig {
    /// Maximum encoded byte length accepted.
    pub max_encoded_bytes: usize,
}

impl Default for CrdtDecodeConfig {
    fn default() -> (c: Self)
        ensures
            c.max_encoded_bytes == 1048576,
    {
        CrdtDecodeConfig { max_encoded_bytes: 1024 * 1024 }
    }
}

/// Errors of the CRDT module.
#[derive(Debug)]
pub enum CrdtError {
    /// Replica identifiers must be non-empty.
    EmptyReplicaId,
    /// A per-replica counter component would overflow `u64`.
    CounterOverflow,
    /// A derived value would overflow its type.
    ValueOverflow,
    /// Encoded input exceeded the configured decode limit.
    EncodedValueTooLarge { limit: usize, actual: usize },
    /// Serialization failed.
    Serialization(serde_json::Error),
    /// Deserialization failed.
    Deserialization(serde_json::Error),
}

/// Checks an encoded value's length against the decode limit before parsing.
pub fn check_encoded_len(len: usize, config: CrdtDecodeConfig) -> (res: Result<(), CrdtError>)
    ensures
        len <= config.max_encoded_bytes ==> res is Ok,
        len > config.max_encoded_bytes ==> (res matches Err(CrdtError::EncodedValueTooLarge {
            limit,
            actual,
        }) && limit == config.max_encoded_bytes && actual == len),
{
    if len > config.max_encoded_bytes {
        return Err(CrdtError::EncodedValueTooLarge { limit: config.max_encoded_bytes, actual: len });
    }
    Ok(())
}

} // verus!
