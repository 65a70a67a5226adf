//! The contract between the synchronization engine and an application state type.
use crate::error::DeltaError;
use crate::sync::{fnv1a64, spec_fnv1a64};
use vstd::prelude::*;
use vstd::string::*;

verus! {

/// An application state type that can be synchronized.
///
/// A state travels as a snapshot (its encoded bytes) or as a delta from an
/// earlier state; the type supplies both encodings. Snapshots must decode back
/// to the state they were made from, and applying the delta from `old` to `new`
/// to `old` must give `new`.
pub trait DeltaState: Sized + Clone {
    /// A stable name for the state's schema; its hash travels in every packet.
    const SCHEMA_NAME: &'static str;

    /// The snapshot encoding of the state.
    fn encode_snapshot(&self) -> Result<Vec<u8>, DeltaError>;

    /// The state a snapshot encodes.
    fn decode_snapshot(bytes: &[u8]) -> Result<Self, DeltaError>;

    /// The encoded change from `old` to `new`.
    fn encode_delta(old: &Self, new: &Self) -> Result<Vec<u8>, DeltaError>;

    /// The state after applying an encoded change to `self`.
    fn apply_delta(&self, delta: &[u8]) -> Result<Self, DeltaError>;
}

/// Turns a snapshot written under another schema into a state of type `T`.
pub trait SnapshotMigration<T> {
    /// The state that `payload`, a snapshot under `from_schema`, becomes under `to_schema`.
    fn migrate_snapshot(&self, from_schema: u64, to_schema: u64, payload: &[u8]) -> Result<T, DeltaError>;
}

/// FNV-1a 64 of a state type's schema name.
pub open spec fn spec_schema_hash<T: DeltaState>() -> u64 {
    spec_fnv1a64(T::SCHEMA_NAME.spec_bytes())
}

/// The schema hash of a state type: FNV-1a 64 of its schema name.
pub fn schema_hash<T: DeltaState>() -> (h: u64)
    ensures
        h == spec_schema_hash::<T>(),
{
    fnv1a64(T::SCHEMA_NAME.as_bytes())
}

} // verus!
