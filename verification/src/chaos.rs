//! A deterministic single-receiver chaos run: periodic loss, injected
//! duplicates and snapshot recovery, ending with an authoritative snapshot.
use crate::adaptive::{lemma_choice_no_worse, lemma_initial_choice_no_worse, AdaptivePolicy, EncodeDecision, EncodeMode};
use crate::binary::{agent_delta_bytes, agent_state_bytes, delta_between};
use crate::error::DeltaError;
use crate::packet::{carries, Packet, PacketKind, MAX_LOGICAL_PAYLOAD};
use crate::state::{demo_view, AgentState, AgentStateView};
use crate::sync::{
    agent_choice, agent_delta, agent_in_step, agent_snapshot, choice_at, choices_exist, chosen_payload, cpu_step_exact, delta_choice,
    snapshot_choice,
    lemma_agent_decoder_follows_encoder, lemma_snapshot_applies, payloads_fit, published_states, recoverable,
    spec_agent_schema_hash, spec_fnv1a64, ApplyResult, Decoder, Encoder, EncoderView,
};
use vstd::prelude::*;

verus! {

/// Counters of the chaos run and whether the receiver ended in the sender's state.
#[derive(Debug, Clone, Default)]
pub struct ChaosReport {
    pub generated: u64,
    pub delivered: u64,
    pub intentionally_dropped: u64,
    pub duplicates_injected: u64,
    pub resyncs: u64,
    pub final_sequence: Option<u64>,
    pub final_state_matches: bool,
}

/// How many of the first `n` updates are dropped: every 97th after the first.
pub open spec fn dropped_among(n: int) -> int
    decreases n,
{
    if n <= 0 {
        0
    } else {
        dropped_among(n - 1) + if n - 1 > 0 && (n - 1) % 97 == 0 {
            1int
        } else {
            0int
        }
    }
}

/// How many of the first `n` updates get a duplicate: every 131st after the
/// first that was not dropped.
pub open spec fn duplicated_among(n: int) -> int
    decreases n,
{
    if n <= 0 {
        0
    } else {
        duplicated_among(n - 1) + if n - 1 > 0 && (n - 1) % 97 != 0 && (n - 1) % 131 == 0 {
            1int
        } else {
            0int
        }
    }
}

proof fn lemma_counts_bounded(n: int)
    requires
        n >= 0,
    ensures
        0 <= dropped_among(n) <= n,
        0 <= duplicated_among(n) <= n,
    decreases n,
{
    if n > 0 {
        lemma_counts_bounded(n - 1);
    }
}

/// Offers the update's packet to the receiver, recovering it with a snapshot
/// when it needs one, and then a duplicate of the packet when `duplicate`.
#[verifier::rlimit(60)]
#[verifier::spinoff_prover]
fn deliver_update(
    decoder: &mut Decoder,
    packet: Packet,
    duplicate: bool,
    encoder: &Encoder,
    state: &AgentState,
    report: &mut ChaosReport,
    Ghost(e0): Ghost<EncoderView>,
    Ghost(decision): Ghost<EncodeDecision>,
    Ghost(fit): Ghost<bool>,
    Ghost(ps): Ghost<Seq<AgentStateView>>,
    Ghost(i): Ghost<int>,
) -> (res: Result<(), DeltaError>)
    requires
        old(decoder)@.wf(),
        old(report).delivered < u64::MAX,
        old(report).resyncs < u64::MAX,
        old(report).duplicates_injected < u64::MAX,
        0 <= i < ps.len(),
        i < u64::MAX,
        state@ == ps[i],
        e0.sequence == i,
        i == 0 ==> e0.last_state is None,
        i > 0 ==> e0.last_state == Some(ps[i - 1]),
        e0.policy == AdaptivePolicy::spec_default(),
        encoder@.sequence == i + 1,
        encoder@.policy == e0.policy,
        agent_choice(e0, (i + 1) as u64, state@) == Some((packet@, decision)),
        carries(packet@, chosen_payload(decision.mode, e0.last_state, state@)),
        encoder@.last_state == Some(state@),
        fit ==> payloads_fit(ps) && recoverable(old(decoder)@, e0),
    ensures
        final(decoder)@.wf(),
        fit && res is Ok ==> agent_in_step(final(decoder)@, encoder@),
        fit && encoder@.policy.initial_choice(agent_snapshot(encoder@.sequence, state@)) is Some ==> res is Ok,
        res is Ok ==> final(report).delivered == old(report).delivered + 1,
        res is Ok ==> final(report).duplicates_injected == old(report).duplicates_injected + if duplicate {
            1int
        } else {
            0int
        },
        final(report).resyncs <= old(report).resyncs + 1,
        final(report).generated == old(report).generated,
        final(report).intentionally_dropped == old(report).intentionally_dropped,
{
    let ghost d0 = decoder@;
    let ghost cur = state@;
    let ghost seq = (i + 1) as u64;
    let ghost pv = packet@;
    let dup = if duplicate {
        Some(packet.duplicate())
    } else {
        None
    };
    proof {
        if fit {
            assert(agent_state_bytes(ps[i]).len() <= MAX_LOGICAL_PAYLOAD);
            if agent_in_step(d0, e0) {
                if i > 0 {
                    assert(agent_delta_bytes(delta_between(ps[i - 1], ps[i]))->0.len()
                        <= MAX_LOGICAL_PAYLOAD && cpu_step_exact(ps[i - 1], ps[i]));
                }
                lemma_agent_decoder_follows_encoder(d0, e0, cur, pv, decision);
            } else {
                let prev = ps[i - 1];
                let snap = agent_snapshot(seq, cur);
                let delta = agent_delta(seq, prev, cur);
                lemma_choice_no_worse(e0.policy, snap, delta);
                if decision.mode == EncodeMode::Delta || decision.mode == EncodeMode::DeltaZstd {
                    assert(pv.kind == PacketKind::Delta && pv.sequence == seq && pv.base_sequence == i
                        && pv.schema_hash == spec_agent_schema_hash());
                    assert(!d0.replay.seen.contains(seq)) by {
                        if d0.replay.seen.contains(seq) {
                            let k = choose|k: int| 0 <= k < d0.replay.seen.len() && d0.replay.seen[k] == seq;
                            assert(d0.replay.seen[k] == seq);
                        }
                    }
                } else {
                    assert(pv.kind == PacketKind::Snapshot && pv.sequence == seq && pv.schema_hash
                        == spec_agent_schema_hash() && pv.base_hash == spec_fnv1a64(agent_state_bytes(cur)));
                    lemma_snapshot_applies(d0, pv, seq, cur);
                }
            }
        }
    }
    match decoder.apply_packet(packet)? {
        ApplyResult::Applied { .. } | ApplyResult::Duplicate { .. } => {
            report.delivered = report.delivered + 1;
        },
        ApplyResult::NeedSnapshot { .. } => {
            report.resyncs = report.resyncs + 1;
            let ghost d1 = decoder@;
            let recovery = encoder.recovery_snapshot(state)?;
            proof {
                if fit {
                    assert(ps[i] == cur);
                    let snap = agent_snapshot(seq, cur);
                    lemma_initial_choice_no_worse(encoder@.policy, snap);
                    lemma_snapshot_applies(d1, recovery@, seq, cur);
                }
            }
            match decoder.apply_packet(recovery)? {
                ApplyResult::Applied { .. } => report.delivered = report.delivered + 1,
                _ => return Err(DeltaError::InvalidState("chaos recovery failed")),
            }
        },
    }
    proof {
        if fit {
            assert(agent_in_step(decoder@, encoder@));
        }
    }
    if let Some(dup) = dup {
        report.duplicates_injected = report.duplicates_injected + 1;
        let ghost d2 = decoder@;
        let _ = decoder.apply_packet(dup)?;
        proof {
            if fit {
                assert(d2.replay.seen.contains(seq));
                assert(decoder@ == d2);
            }
        }
    }
    Ok(())
}

/// Publishes each of `states` in turn to one receiver, dropping every 97th
/// packet after the first and re-sending every 131st, recovering with a
/// snapshot whenever the receiver needs one; finally sends an authoritative
/// snapshot and reports whether the receiver ends in the last state (the demo
/// state when `states` is empty). The receiver always converges when every
/// payload fits the decoder's limit and no CPU load steps between the zeros.
#[verifier::rlimit(80)]
#[verifier::spinoff_prover]
pub fn run_deterministic(states: &[AgentState]) -> (res: Result<ChaosReport, DeltaError>)
    ensures
        res matches Ok(r) ==> {
            &&& r.generated == states@.len()
            &&& r.intentionally_dropped == dropped_among(states@.len() as int)
            &&& r.duplicates_injected == duplicated_among(states@.len() as int)
            &&& r.delivered == states@.len() - dropped_among(states@.len() as int)
            &&& payloads_fit(published_states(states@)) ==> r.final_state_matches
        },
        payloads_fit(published_states(states@)) && choices_exist(published_states(states@)) && (states@.len()
            == 0 ==> snapshot_choice(0, demo_view())) ==> res is Ok,
{
    let ghost ps = published_states(states@);
    let ghost fit = payloads_fit(ps);
    let ghost ok = fit && choices_exist(ps) && (states@.len() == 0 ==> snapshot_choice(0, demo_view()));
    let mut report = ChaosReport {
        generated: 0,
        delivered: 0,
        intentionally_dropped: 0,
        duplicates_injected: 0,
        resyncs: 0,
        final_sequence: None,
        final_state_matches: false,
    };
    let mut encoder = Encoder::default();
    let mut decoder = Decoder::default();
    let mut state = AgentState::demo();
    let mut i: usize = 0;
    while i < states.len()
        invariant
            i <= states@.len(),
            ps == published_states(states@),
            fit == payloads_fit(ps),
            decoder@.wf(),
            report.generated == i,
            report.intentionally_dropped == dropped_among(i as int),
            report.duplicates_injected == duplicated_among(i as int),
            report.delivered == i - dropped_among(i as int),
            report.resyncs <= i,
            encoder@.sequence == i,
            i == 0 ==> encoder@.last_state is None,
            i > 0 ==> encoder@.last_state == Some(states@[i - 1]@),
            state@ == if i == 0 {
                demo_view()
            } else {
                states@[i - 1]@
            },
            fit ==> recoverable(decoder@, encoder@),
            encoder@.policy == AdaptivePolicy::spec_default(),
            ok == (fit && choices_exist(ps) && (states@.len() == 0 ==> snapshot_choice(0, demo_view()))),
        decreases states@.len() - i,
    {
        proof {
            lemma_counts_bounded(i as int);
        }
        state = states[i].clone();
        let ghost e0 = encoder@;
        let ghost d0 = decoder@;
        let ghost cur = state@;
        let ghost avail = ok && choice_at(ps, i as int);
        proof {
            if ok {
                assert(choice_at(ps, i as int)) by {
                    reveal(choices_exist);
                }
                assert(agent_choice(encoder@, (i + 1) as u64, state@) is Some) by {
                    assert(ps[i as int] == states@[i as int]@);
                    if i > 0 {
                        assert(ps[i - 1] == states@[i - 1]@);
                    }
                    reveal(snapshot_choice);
                    reveal(delta_choice);
                }
            }
        }
        let packet = encoder.encode(&state)?;
        let ghost seq = (i + 1) as u64;
        let ghost pv = packet@;
        let ghost decision = encoder@.last_decision->0;
        proof {
            assert(ps[i as int] == states@[i as int]@);
            if i > 0 {
                assert(ps[i - 1] == states@[i - 1]@);
            }
        }
        report.generated = report.generated + 1;
        if i > 0 && i % 97 == 0 {
            report.intentionally_dropped = report.intentionally_dropped + 1;
            i = i + 1;
            continue;
        }
        let duplicate = i > 0 && i % 131 == 0;
        proof {
            if avail {
                assert(encoder@.policy.initial_choice(agent_snapshot(encoder@.sequence, state@)) is Some) by {
                    assert(ps[i as int] == states@[i as int]@);
                    reveal(snapshot_choice);
                }
            }
        }
        deliver_update(
            &mut decoder,
            packet,
            duplicate,
            &encoder,
            &state,
            &mut report,
            Ghost(e0),
            Ghost(decision),
            Ghost(fit),
            Ghost(ps),
            Ghost(i as int),
        )?;
        i = i + 1;
    }
    let ghost d3 = decoder@;
    let ghost last = state@;
    proof {
        if ok {
            assert(encoder@.policy.initial_choice(agent_snapshot(encoder@.sequence, state@)) is Some) by {
                if states@.len() > 0 {
                    reveal(choices_exist);
                    assert(choice_at(ps, states@.len() - 1));
                    assert(ps[states@.len() - 1] == states@[states@.len() - 1]@);
                }
                reveal(snapshot_choice);
            }
        }
    }
    let final_snapshot = encoder.recovery_snapshot(&state)?;
    proof {
        if fit {
            if states@.len() == 0 {
                assert(ps[0] == demo_view());
            } else {
                assert(ps[states@.len() - 1] == states@[states@.len() - 1]@);
            }
            if !agent_in_step(d3, encoder@) || states@.len() == 0 {
                let snap = agent_snapshot(encoder@.sequence, last);
                lemma_initial_choice_no_worse(encoder@.policy, snap);
                lemma_snapshot_applies(d3, final_snapshot@, encoder@.sequence, last);
            } else {
                assert(d3.replay.seen.contains(encoder@.sequence));
            }
        }
    }
    let _ = decoder.apply_packet(final_snapshot)?;
    report.final_sequence = decoder.sequence();
    report.final_state_matches = match decoder.state() {
        Some(s) => s.same_as(&state),
        None => false,
    };
    Ok(report)
}

} // verus!
