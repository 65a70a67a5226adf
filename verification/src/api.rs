//! The primary publish/subscribe surface over the generic encoder and decoder.
use crate::adaptive::{AdaptivePolicy, EncodeDecision};
use crate::error::DeltaError;
use crate::packet::{
    decode_outcome, decode_result_matches, encode_result_matches, DecodeConfig, DecodeOutcome, Packet, PacketView,
};
use crate::replay::ReplayView;
use crate::schema::{spec_schema_hash, DeltaState, SnapshotMigration};
use crate::sync::{
    generic_apply_post, migration_apply_post, publishes, sat_inc, GenericApplyResult, GenericDecoder, GenericDecoderView,
    GenericEncoder, GenericEncoderView,
};
use std::marker::PhantomData;
use vstd::pervasive::cloned;
use vstd::prelude::*;

verus! {

/// Publishes application-state updates as packets: the first update as a
/// snapshot, later ones as deltas or compressed packets as the adaptive policy
/// decides.
pub struct StatePublisher<T: DeltaState> {
    encoder: GenericEncoder<T>,
}

impl<T: DeltaState> View for StatePublisher<T> {
    type V = GenericEncoderView<T>;

    closed spec fn view(&self) -> GenericEncoderView<T> {
        self.encoder@
    }
}

impl<T: DeltaState> StatePublisher<T> {
    /// A publisher with the default adaptive policy.
    pub fn new() -> (p: Self)
        ensures
            p@ == (GenericEncoderView::<T> {
                sequence: 0,
                last_state: None,
                policy: AdaptivePolicy::spec_default(),
                last_decision: None,
            }),
    {
        StatePublisher { encoder: GenericEncoder::default() }
    }

    /// Starts building a publisher with custom settings.
    pub fn builder() -> (b: PublisherBuilder<T>)
        ensures
            b@ == AdaptivePolicy::spec_default(),
    {
        PublisherBuilder::default()
    }

    /// A publisher with an explicit adaptive policy.
    pub fn with_policy(policy: AdaptivePolicy) -> (p: Self)
        ensures
            p@ == (GenericEncoderView::<T> { sequence: 0, last_state: None, policy, last_decision: None }),
    {
        StatePublisher { encoder: GenericEncoder::with_policy(policy) }
    }

    /// Encodes a new authoritative state.
    pub fn update(&mut self, state: &T) -> (res: Result<Packet, DeltaError>)
        ensures
            final(self)@.sequence == sat_inc(old(self)@.sequence),
            final(self)@.policy == old(self)@.policy,
            res is Err ==> final(self)@.last_state == old(self)@.last_state
                && final(self)@.last_decision == old(self)@.last_decision,
            res matches Ok(p) ==> {
                &&& final(self)@.last_state matches Some(s) && cloned(*state, s)
                &&& final(self)@.last_decision matches Some(d) && publishes(
                    old(self)@.policy,
                    final(self)@.sequence,
                    spec_schema_hash::<T>(),
                    old(self)@.last_state is Some,
                    p@,
                    d,
                )
                &&& final(self)@.last_decision matches Some(d) && crate::sync::generic_publishes(
                    old(self)@,
                    *state,
                    final(self)@.sequence,
                    p@,
                    d,
                )
            },
    {
        self.encoder.encode(state)
    }

    /// Encodes a new authoritative state straight to wire bytes: the packet
    /// `update` publishes, serialized.
    pub fn encode(&mut self, state: &T) -> (res: Result<Vec<u8>, DeltaError>)
        ensures
            final(self)@.sequence == sat_inc(old(self)@.sequence),
            final(self)@.policy == old(self)@.policy,
            res matches Ok(bytes) ==> exists|p: PacketView| {
                &&& final(self)@.last_state matches Some(s) && cloned(*state, s)
                &&& final(self)@.last_decision matches Some(d) && publishes(
                    old(self)@.policy,
                    final(self)@.sequence,
                    spec_schema_hash::<T>(),
                    old(self)@.last_state is Some,
                    p,
                    d,
                )
                &&& final(self)@.last_decision matches Some(d) && crate::sync::generic_publishes(
                    old(self)@,
                    *state,
                    final(self)@.sequence,
                    p,
                    d,
                )
                &&& encode_result_matches(Ok(bytes), p)
            },
    {
        let packet = self.update(state)?;
        packet.encode()
    }

    /// Forces a new snapshot and advances the stream sequence.
    pub fn force_snapshot(&mut self, state: &T) -> (res: Result<Packet, DeltaError>)
        ensures
            final(self)@.sequence == sat_inc(old(self)@.sequence),
            final(self)@.policy == old(self)@.policy,
            res is Err ==> final(self)@.last_decision == old(self)@.last_decision,
            res matches Ok(p) ==> {
                &&& final(self)@.last_state matches Some(s) && cloned(*state, s)
                &&& final(self)@.last_decision matches Some(d) && publishes(
                    old(self)@.policy,
                    final(self)@.sequence,
                    spec_schema_hash::<T>(),
                    false,
                    p@,
                    d,
                )
            },
    {
        self.encoder.force_snapshot(state)
    }

    /// A recovery snapshot at the current sequence; the sequence does not
    /// advance, so recovering one subscriber opens no gap for the others.
    pub fn recovery_snapshot(&self, state: &T) -> (res: Result<Packet, DeltaError>)
        ensures
            res matches Ok(p) ==> exists|d: EncodeDecision|
                publishes(self@.policy, self@.sequence, spec_schema_hash::<T>(), false, p@, d),
    {
        self.encoder.recovery_snapshot(state)
    }

    /// The current publisher sequence.
    pub fn sequence(&self) -> (s: u64)
        ensures
            s == self@.sequence,
    {
        self.encoder.sequence()
    }

    /// The most recent adaptive encoding decision, if any.
    pub fn last_decision(&self) -> (d: Option<EncodeDecision>)
        ensures
            d == self@.last_decision,
    {
        self.encoder.last_decision()
    }
}

impl<T: DeltaState> Default for StatePublisher<T> {
    fn default() -> (p: Self)
        ensures
            p@ == (GenericEncoderView::<T> {
                sequence: 0,
                last_state: None,
                policy: AdaptivePolicy::spec_default(),
                last_decision: None,
            }),
    {
        StatePublisher::new()
    }
}

/// Builder for [`StatePublisher`].
pub struct PublisherBuilder<T: DeltaState> {
    policy: AdaptivePolicy,
    marker: PhantomData<T>,
}

impl<T: DeltaState> View for PublisherBuilder<T> {
    type V = AdaptivePolicy;

    /// The policy the publisher will be built with.
    closed spec fn view(&self) -> AdaptivePolicy {
        self.policy
    }
}

impl<T: DeltaState> PublisherBuilder<T> {
    /// Replaces the adaptive encoding policy.
    pub fn adaptive_policy(self, policy: AdaptivePolicy) -> (b: Self)
        ensures
            b@ == policy,
    {
        PublisherBuilder { policy, marker: PhantomData }
    }

    /// Enables or disables zstd candidates.
    pub fn compression(self, enabled: bool) -> (b: Self)
        ensures
            b@ == (AdaptivePolicy { enable_zstd: enabled, ..self@ }),
    {
        let mut policy = self.policy;
        policy.enable_zstd = enabled;
        PublisherBuilder { policy, marker: PhantomData }
    }

    /// Sets the zstd level of compressed candidates.
    pub fn zstd_level(self, level: i32) -> (b: Self)
        ensures
            b@ == (AdaptivePolicy { zstd_level: level, ..self@ }),
    {
        let mut policy = self.policy;
        policy.zstd_level = level;
        PublisherBuilder { policy, marker: PhantomData }
    }

    /// Builds the publisher.
    pub fn build(self) -> (p: StatePublisher<T>)
        ensures
            p@ == (GenericEncoderView::<T> {
                sequence: 0,
                last_state: None,
                policy: self@,
                last_decision: None,
            }),
    {
        StatePublisher::with_policy(self.policy)
    }
}

impl<T: DeltaState> Default for PublisherBuilder<T> {
    fn default() -> (b: Self)
        ensures
            b@ == AdaptivePolicy::spec_default(),
    {
        PublisherBuilder { policy: AdaptivePolicy::default(), marker: PhantomData }
    }
}

/// Receives and applies packets for one application-state stream.
pub struct StateSubscriber<T: DeltaState> {
    decoder: GenericDecoder<T>,
}

impl<T: DeltaState> View for StateSubscriber<T> {
    type V = GenericDecoderView<T>;

    closed spec fn view(&self) -> GenericDecoderView<T> {
        self.decoder@
    }
}

impl<T: DeltaState> StateSubscriber<T> {
    /// An empty subscriber.
    pub fn new() -> (s: Self)
        ensures
            s@.wf(),
            s@.sequence is None,
            s@.state is None,
            s@.replay == (ReplayView { capacity: 256, seen: Seq::empty() }),
            s@.decode_config == crate::packet::DecodeConfig::spec_default(),
    {
        StateSubscriber { decoder: GenericDecoder::default() }
    }

    /// Applies a snapshot or delta packet.
    pub fn apply(&mut self, packet: Packet) -> (res: Result<GenericApplyResult<T>, DeltaError>)
        requires
            old(self)@.wf(),
        ensures
            final(self)@.wf(),
            generic_apply_post(old(self)@, spec_schema_hash::<T>(), packet@, final(self)@, res),
            crate::sync::delta_answer(old(self)@, packet@, res),
            crate::sync::snapshot_answer(old(self)@, packet@, res),
    {
        self.decoder.apply_packet(packet)
    }

    /// Decodes wire bytes (with the default limits) and applies the packet;
    /// bytes that do not decode leave the subscriber unchanged.
    pub fn receive(&mut self, bytes: &[u8]) -> (res: Result<GenericApplyResult<T>, DeltaError>)
        requires
            old(self)@.wf(),
        ensures
            final(self)@.wf(),
            match decode_outcome(bytes@, DecodeConfig::spec_default()) {
                DecodeOutcome::Decoded(p) => {
                    &&& generic_apply_post(old(self)@, spec_schema_hash::<T>(), p, final(self)@, res)
                    &&& crate::sync::delta_answer(old(self)@, p, res)
                    &&& crate::sync::snapshot_answer(old(self)@, p, res)
                },
                _ => {
                    &&& final(self)@ == old(self)@
                    &&& res matches Err(e) && decode_result_matches(
                        Err::<Packet, DeltaError>(e),
                        decode_outcome(bytes@, DecodeConfig::spec_default()),
                    )
                },
            },
    {
        let packet = match Packet::decode(bytes) {
            Ok(p) => p,
            Err(e) => return Err(e),
        };
        self.apply(packet)
    }

    /// Applies a packet, taking a snapshot of another schema through `migrations`.
    pub fn apply_with_migrations<M: SnapshotMigration<T>>(
        &mut self,
        packet: Packet,
        migrations: &M,
    ) -> (res: Result<GenericApplyResult<T>, DeltaError>)
        requires
            old(self)@.wf(),
        ensures
            final(self)@.wf(),
            migration_apply_post(old(self)@, spec_schema_hash::<T>(), packet@, final(self)@, res),
            crate::sync::migration_answer(old(self)@, packet@, *migrations, res),
    {
        self.decoder.apply_packet_with_migrations(packet, migrations)
    }

    /// The last synchronized state.
    pub fn state(&self) -> (s: Option<&T>)
        ensures
            match s {
                Some(x) => self@.state == Some(*x),
                None => self@.state is None,
            },
    {
        self.decoder.state()
    }

    /// The last applied sequence.
    pub fn sequence(&self) -> (s: Option<u64>)
        ensures
            s == self@.sequence,
    {
        self.decoder.sequence()
    }

    /// Clears the state and the sequence tracking.
    pub fn reset(&mut self)
        requires
            old(self)@.wf(),
        ensures
            final(self)@.wf(),
            final(self)@ == (GenericDecoderView::<T> {
                sequence: None,
                state: None,
                replay: ReplayView { seen: Seq::empty(), ..old(self)@.replay },
                decode_config: old(self)@.decode_config,
            }),
    {
        self.decoder.reset()
    }
}

impl<T: DeltaState> Default for StateSubscriber<T> {
    fn default() -> (s: Self)
        ensures
            s@.wf(),
            s@.sequence is None,
            s@.state is None,
    {
        StateSubscriber::new()
    }
}

/// Short name for [`StatePublisher`].
pub type Publisher<T> = StatePublisher<T>;

/// Short name for [`StateSubscriber`].
pub type Subscriber<T> = StateSubscriber<T>;

} // verus!
