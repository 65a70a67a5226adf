//! A self-check over the corners of the protocol: empty and tiny states,
//! resizing, malformed input, schema and sequence mistakes, corruption,
//! recovery planning, reordering and the wire limits.
use crate::buf::{bytes_equal, copy_bytes};
use crate::byte_sync::{lemma_follow_small, ByteApplyResult, ByteDecoderView, ByteStateDecoder, ByteStateEncoder};
use crate::error::DeltaError;
use crate::packet::{
    decode_outcome, lemma_wire_roundtrip, logical_of, wire_bytes, DecodeConfig, DecodeOutcome, Packet, PacketKind,
    PacketView, MAX_WIRE_PAYLOAD,
};
use crate::recovery_history::{RecoveryHistory, RecoveryPlan};
use crate::reorder::{ReorderApplyResult, ReorderDecoder};
use crate::smart_delta::{self, SmartDeltaPolicy};
use crate::state::AgentState;
use crate::sync::{spec_fnv1a64, Encoder};
use vstd::prelude::*;
use vstd::string::*;

verus! {

/// Named checks of the edge-case suite and whether each passed.
#[derive(Debug, Clone, Default)]
pub struct EdgeCaseReport {
    pub checks: Vec<(&'static str, bool)>,
}

/// Whether every check in the list passed.
pub open spec fn all_ok(checks: Seq<(&'static str, bool)>) -> bool {
    forall|i: int| 0 <= i < checks.len() ==> #[trigger] checks[i].1
}

/// Whether every check in the list passed.
pub fn checks_pass(checks: &Vec<(&'static str, bool)>) -> (b: bool)
    ensures
        b == all_ok(checks@),
{
    let mut i: usize = 0;
    while i < checks.len()
        invariant
            i <= checks@.len(),
            forall|j: int| 0 <= j < i ==> #[trigger] checks@[j].1,
        decreases checks@.len() - i,
    {
        if !checks[i].1 {
            return false;
        }
        i = i + 1;
    }
    true
}

impl EdgeCaseReport {
    /// Whether every check passed.
    pub fn all_passed(&self) -> (b: bool)
        ensures
            b == all_ok(self.checks@),
    {
        checks_pass(&self.checks)
    }
}

fn applied_equals(res: &ByteApplyResult, expected: &[u8]) -> (b: bool)
    ensures
        b == (*res matches ByteApplyResult::Applied { state, .. } && state@ == expected@),
{
    match res {
        ByteApplyResult::Applied { state, .. } => bytes_equal(state.as_slice(), expected),
        _ => false,
    }
}

/// The names of a list of checks, in order.
pub open spec fn names_of(checks: Seq<(&'static str, bool)>) -> Seq<&'static str> {
    checks.map_values(|c: (&'static str, bool)| c.0)
}

/// The names of the checks [`run`] reports, in order.
pub open spec fn check_names(include_large_limits: bool) -> Seq<&'static str> {
    seq![
        "zero-length state",
        "one-byte grow",
        "identical update",
        "middle insertion",
        "shrink/delete",
        "all smart delta strategies reconstruct",
        "malformed smart delta rejected",
        "schema mismatch rejected",
        "future delta requires recovery",
        "publisher restart requires explicit reset",
        "late old snapshot suppressed",
        "corrupted compressed packet rejected",
        "small recovery gap can replay",
        "large recovery gap falls back snapshot",
        "bounded reorder buffers future packet",
        "reorder drains without rollback",
        "u64::MAX sequence roundtrip",
    ] + if include_large_limits {
        seq!["64 MiB exact wire payload accepted", "64 MiB + 1 rejected", "decompression limit enforced"]
    } else {
        Seq::empty()
    }
}

/// How many checks [`run`] reports.
pub open spec fn check_count(include_large_limits: bool) -> nat {
    if include_large_limits {
        20
    } else {
        17
    }
}

/// Empty, one-byte and identical updates, each applied by a receiver that
/// follows the sender.
fn tiny_state_checks(checks: &mut Vec<(&'static str, bool)>) -> (res: Result<(), DeltaError>)
    ensures
        res is Ok ==> final(checks)@ == old(checks)@ + seq![
            ("zero-length state", true),
            ("one-byte grow", true),
            ("identical update", true),
        ],
{
    let mut enc = ByteStateEncoder::new("edge/bytes/v25");
    let mut dec = ByteStateDecoder::new("edge/bytes/v25");
    let e0 = [];
    let one = [7u8];
    let ghost v0 = enc@;
    let ghost d0 = dec@;
    let empty = enc.encode(&e0)?;
    proof {
        lemma_follow_small(d0, v0, e0@, enc@, empty);
    }
    let r = dec.apply(empty)?;
    assert(e0@ =~= Seq::<u8>::empty());
    checks.push(("zero-length state", applied_equals(&r, &e0)));
    let ghost v1 = enc@;
    let ghost d1 = dec@;
    let p1 = enc.encode(&one)?;
    proof {
        lemma_follow_small(d1, v1, one@, enc@, p1);
    }
    let r = dec.apply(p1)?;
    checks.push(("one-byte grow", applied_equals(&r, &one)));
    let ghost v2 = enc@;
    let ghost d2 = dec@;
    let identical = enc.encode(&one)?;
    proof {
        lemma_follow_small(d2, v2, one@, enc@, identical);
    }
    let r = dec.apply(identical)?;
    checks.push(("identical update", applied_equals(&r, &one)));
    Ok(())
}

/// Insertion and deletion in the middle, each applied by a receiver that
/// follows the sender; returns a recovery snapshot of the final state for the
/// schema check.
#[verifier::rlimit(60)]
#[verifier::spinoff_prover]
fn resize_checks(checks: &mut Vec<(&'static str, bool)>) -> (res: Result<Packet, DeltaError>)
    ensures
        res is Ok ==> final(checks)@ == old(checks)@ + seq![("middle insertion", true), ("shrink/delete", true)],
        res matches Ok(p) ==> p@.schema_hash == spec_fnv1a64("edge/resize/v25".spec_bytes()),
{
    proof {
        reveal_strlit("abcdefghij");
        reveal_strlit("abcXYZdefghij");
        reveal_strlit("abghij");
        assert(vstd::string::is_ascii("abcdefghij"));
        assert(vstd::string::is_ascii("abcXYZdefghij"));
        assert(vstd::string::is_ascii("abghij"));
        vstd::string::is_ascii_spec_bytes("abcdefghij");
        vstd::string::is_ascii_spec_bytes("abcXYZdefghij");
        vstd::string::is_ascii_spec_bytes("abghij");
    }
    let a: Vec<u8> = copy_bytes("abcdefghij".as_bytes());
    let b: Vec<u8> = copy_bytes("abcXYZdefghij".as_bytes());
    let c: Vec<u8> = copy_bytes("abghij".as_bytes());
    let mut e2 = ByteStateEncoder::new("edge/resize/v25");
    let mut d2 = ByteStateDecoder::new("edge/resize/v25");
    let ghost v0 = e2@;
    let ghost w0 = d2@;
    let pa = e2.encode(a.as_slice())?;
    proof {
        lemma_follow_small(w0, v0, a@, e2@, pa);
    }
    let _ = d2.apply(pa)?;
    let ghost v1 = e2@;
    let ghost w1 = d2@;
    let pb = e2.encode(b.as_slice())?;
    proof {
        lemma_follow_small(w1, v1, b@, e2@, pb);
    }
    let inserted = d2.apply(pb)?;
    checks.push(("middle insertion", applied_equals(&inserted, b.as_slice())));
    let ghost v2 = e2@;
    let ghost w2 = d2@;
    let pc = e2.encode(c.as_slice())?;
    proof {
        lemma_follow_small(w2, v2, c@, e2@, pc);
    }
    let deleted = d2.apply(pc)?;
    checks.push(("shrink/delete", applied_equals(&deleted, c.as_slice())));
    e2.recovery_snapshot(c.as_slice())
}

/// Every delta strategy reconstructs, and a malformed delta is rejected.
fn smart_delta_checks(checks: &mut Vec<(&'static str, bool)>) -> (res: Result<(), DeltaError>)
    ensures
        res is Ok,
        final(checks)@ == old(checks)@ + seq![
            ("all smart delta strategies reconstruct", true),
            ("malformed smart delta rejected", true),
        ],
{
    let previous: Vec<u8> = copy_bytes("0123456789abcdefghijklmnop".as_bytes());
    let mut current = copy_bytes(previous.as_slice());
    if current.len() > 20 {
        let x = current[2] ^ 0x55;
        current.set(2, x);
        let x = current[3] ^ 0x33;
        current.set(3, x);
        let x = current[20] ^ 0x77;
        current.set(20, x);
    }
    let policy = SmartDeltaPolicy::default();
    let candidates = smart_delta::encode_candidates(previous.as_slice(), current.as_slice(), policy)?;
    assert forall|j: int|
        0 <= j < candidates@.len() implies smart_delta::smart_apply(previous@, (#[trigger] candidates@[j]).payload@)
        == Some(current@) by {
        assert(smart_delta::is_candidate(
            candidates@[j],
            smart_delta::candidate_kinds(previous@.len() == current@.len())[j],
            previous@,
            current@,
            policy,
        ));
        reveal(smart_delta::is_candidate);
    }
    let mut all_reconstruct = true;
    let mut i: usize = 0;
    while i < candidates.len()
        invariant
            all_reconstruct,
            forall|j: int|
                0 <= j < candidates@.len() ==> smart_delta::smart_apply(previous@, (#[trigger] candidates@[j]).payload@)
                    == Some(current@),
        decreases candidates@.len() - i,
    {
        let ok = match smart_delta::apply(previous.as_slice(), candidates[i].payload.as_slice()) {
            Ok(out) => bytes_equal(out.as_slice(), current.as_slice()),
            Err(_) => false,
        };
        all_reconstruct = all_reconstruct && ok;
        i = i + 1;
    }
    checks.push(("all smart delta strategies reconstruct", all_reconstruct));
    let malformed: [u8; 4] = [255, 1, 2, 3];
    assert(malformed@[0] == 255u8);
    checks.push(("malformed smart delta rejected", smart_delta::apply(previous.as_slice(), &malformed).is_err()));
    assert(checks@ =~= old(checks)@ + seq![
        ("all smart delta strategies reconstruct", true),
        ("malformed smart delta rejected", true),
    ]);
    Ok(())
}

/// Sequence mistakes: a delta without its base, a restarted publisher, and a
/// stale snapshot arriving late. A restarted publisher's first packet is a
/// duplicate to the receiver until it resets, and a late old snapshot is
/// suppressed; whether the first check passes depends on the sizes the
/// compressor produces for a 4 KiB state.
#[verifier::rlimit(60)]
#[verifier::spinoff_prover]
fn sequence_checks(checks: &mut Vec<(&'static str, bool)>) -> (res: Result<(), DeltaError>)
    ensures
        res is Ok ==> final(checks)@.len() == old(checks)@.len() + 3,
        res is Ok ==> final(checks)@.subrange(0, old(checks)@.len() as int) == old(checks)@,
        res is Ok ==> names_of(final(checks)@) == names_of(old(checks)@) + seq![
            "future delta requires recovery",
            "publisher restart requires explicit reset",
            "late old snapshot suppressed",
        ],
        res is Ok ==> final(checks)@[old(checks)@.len() + 1int].1 && final(checks)@[old(checks)@.len() + 2int].1,
{
    let mut future_enc = ByteStateEncoder::new("future/v25");
    let base: Vec<u8> = vec![0u8; 4096];
    let mut next = copy_bytes(base.as_slice());
    next.set(2048, 1);
    let _p1 = future_enc.encode(base.as_slice())?;
    let p2 = future_enc.encode(next.as_slice())?;
    let is_delta = p2.kind == PacketKind::Delta;
    let mut future_dec = ByteStateDecoder::new("future/v25");
    let requires_recovery = match future_dec.apply(p2)? {
        ByteApplyResult::NeedRecovery { .. } => true,
        _ => false,
    };
    checks.push(("future delta requires recovery", is_delta && requires_recovery));
    let ghost c1 = checks@;

    let before_bytes = "before-restart".as_bytes();
    let after_bytes = "after-restart".as_bytes();
    proof {
        reveal_strlit("before-restart");
        reveal_strlit("after-restart");
        assert(vstd::string::is_ascii("before-restart"));
        assert(vstd::string::is_ascii("after-restart"));
        vstd::string::is_ascii_spec_bytes("before-restart");
        vstd::string::is_ascii_spec_bytes("after-restart");
    }
    let mut restart_a = ByteStateEncoder::new("restart/v25");
    let mut restart_decoder = ByteStateDecoder::new("restart/v25");
    let ghost fresh = restart_decoder@;
    let ghost va0 = restart_a@;
    let before = restart_a.encode(before_bytes)?;
    proof {
        lemma_follow_small(fresh, va0, before_bytes@, restart_a@, before);
    }
    let _ = restart_decoder.apply(before)?;
    let mut restart_b = ByteStateEncoder::new("restart/v25");
    let ghost vb0 = restart_b@;
    let restarted = restart_b.encode(after_bytes)?;
    proof {
        lemma_follow_small(fresh, vb0, after_bytes@, restart_b@, restarted);
    }
    let ignored_without_reset = match restart_decoder.apply(restarted.duplicate())? {
        ByteApplyResult::Duplicate { .. } => true,
        _ => false,
    };
    restart_decoder.reset();
    let after = restart_decoder.apply(restarted)?;
    let accepted_after_reset = applied_equals(&after, after_bytes);
    checks.push(("publisher restart requires explicit reset", ignored_without_reset && accepted_after_reset));
    let ghost c2 = checks@;

    let old_bytes = "old".as_bytes();
    let new_bytes = "new".as_bytes();
    proof {
        reveal_strlit("old");
        reveal_strlit("new");
        assert(vstd::string::is_ascii("old"));
        assert(vstd::string::is_ascii("new"));
        vstd::string::is_ascii_spec_bytes("old");
        vstd::string::is_ascii_spec_bytes("new");
    }
    let mut normal_enc = ByteStateEncoder::new("stale/v25");
    let mut normal_dec = ByteStateDecoder::new("stale/v25");
    let ghost n0 = normal_enc@;
    let ghost nd0 = normal_dec@;
    let older = normal_enc.encode(old_bytes)?;
    proof {
        lemma_follow_small(nd0, n0, old_bytes@, normal_enc@, older);
    }
    let ghost n1 = normal_enc@;
    let ghost nd1 = ByteDecoderView { sequence: Some(n1.sequence), state: Some(old_bytes@), ..nd0 };
    let new = normal_enc.encode(new_bytes)?;
    proof {
        lemma_follow_small(nd1, n1, new_bytes@, normal_enc@, new);
    }
    let _ = normal_dec.apply(older.duplicate())?;
    let _ = normal_dec.apply(new)?;
    let stale_dropped = match normal_dec.apply(older)? {
        ByteApplyResult::Duplicate { .. } => true,
        _ => false,
    };
    let kept_new = match normal_dec.state() {
        Some(s) => bytes_equal(s, new_bytes),
        None => false,
    };
    checks.push(("late old snapshot suppressed", stale_dropped && kept_new));
    assert(names_of(checks@) =~= names_of(old(checks)@) + seq![
        "future delta requires recovery",
        "publisher restart requires explicit reset",
        "late old snapshot suppressed",
    ]);
    assert(checks@.subrange(0, old(checks)@.len() as int) =~= old(checks)@);
    Ok(())
}

/// Recovery planning and the reorder buffer over agent states.
#[verifier::rlimit(60)]
#[verifier::spinoff_prover]
fn agent_checks(checks: &mut Vec<(&'static str, bool)>, advanced: &[AgentState]) -> (res: Result<(), DeltaError>)
    requires
        advanced@.len() >= 5,
    ensures
        res is Ok ==> final(checks)@.len() == old(checks)@.len() + 4,
        res is Ok ==> final(checks)@.subrange(0, old(checks)@.len() as int) == old(checks)@,
        res is Ok ==> names_of(final(checks)@) == names_of(old(checks)@) + seq!["small recovery gap can replay", "large recovery gap falls back snapshot", "bounded reorder buffers future packet", "reorder drains without rollback"],
{
    let mut agent_encoder = Encoder::default();
    let mut history = RecoveryHistory::new(16, 1024 * 1024);
    let first = agent_encoder.encode(&AgentState::demo())?;
    history.record(first);
    let mut k: usize = 0;
    while k < 5
        invariant
            advanced@.len() >= 5,
        decreases 5 - k,
    {
        let p = agent_encoder.encode(&advanced[k])?;
        history.record(p);
        k = k + 1;
    }
    let snapshot = agent_encoder.recovery_snapshot(&advanced[4])?;
    let plan = history.plan(Some(agent_encoder.sequence().saturating_sub(2)), snapshot.duplicate())?;
    let replays_two = match plan {
        RecoveryPlan::Replay(packets) => packets.len() == 2,
        _ => false,
    };
    checks.push(("small recovery gap can replay", replays_two));
    let plan = history.plan(Some(0), snapshot)?;
    let falls_back = match plan {
        RecoveryPlan::Snapshot(_) => true,
        _ => false,
    };
    checks.push(("large recovery gap falls back snapshot", falls_back));

    let mut oe = Encoder::default();
    let op1 = oe.encode(&AgentState::demo())?;
    let op2 = oe.encode(&advanced[0])?;
    let op3 = oe.encode(&advanced[1])?;
    let mut reorder = ReorderDecoder::new(4, 8);
    let _ = reorder.apply(op1)?;
    let buffered = reorder.apply(op3)?;
    let drained = reorder.apply(op2)?;
    let was_buffered = match buffered {
        ReorderApplyResult::Buffered { .. } => true,
        _ => false,
    };
    checks.push(("bounded reorder buffers future packet", was_buffered));
    let drained_one = match drained {
        ReorderApplyResult::Applied { drained, .. } => drained == 1,
        _ => false,
    };
    let at_latest = match reorder.state() {
        Some(s) => s.same_as(&advanced[1]),
        None => false,
    };
    checks.push(("reorder drains without rollback", drained_one && at_latest));
    assert(names_of(checks@) =~= names_of(old(checks)@) + seq!["small recovery gap can replay", "large recovery gap falls back snapshot", "bounded reorder buffers future packet", "reorder drains without rollback"]);
    Ok(())
}

/// A one-sequence snapshot of `n` zero bytes under schema and state hash one.
pub open spec fn zeros_snapshot(n: nat) -> PacketView {
    PacketView {
        kind: PacketKind::Snapshot,
        flags: 0,
        sequence: 1,
        base_sequence: 0,
        base_hash: 1,
        schema_hash: 1,
        payload: Seq::new(n, |k: int| 0u8),
    }
}

/// What the optional decompression-limit check records for the compressed
/// form `c` of an oversized snapshot.
pub open spec fn bomb_rejected(c: PacketView) -> bool {
    c.is_compressed() && logical_of(c, DecodeConfig::spec_default()) is None
}

/// Wire-format corners: the largest sequence round-trips, and optionally a
/// payload of exactly 64 MiB is accepted, one byte more is refused, and an
/// oversized snapshot's compressed form is held to the decompression limit.
/// Fails only when the compressor does.
fn wire_checks(checks: &mut Vec<(&'static str, bool)>, include_large_limits: bool) -> (res: Result<(), DeltaError>)
    ensures
        res is Ok <==> (include_large_limits ==> zeros_snapshot((MAX_WIRE_PAYLOAD + 1) as nat).zstd_candidate(1, 1) is Some),
        res is Ok && !include_large_limits ==> final(checks)@ == old(checks)@.push(("u64::MAX sequence roundtrip", true)),
        res is Ok && include_large_limits ==> final(checks)@ == old(checks)@ + seq![
            ("u64::MAX sequence roundtrip", true),
            ("64 MiB exact wire payload accepted", true),
            ("64 MiB + 1 rejected", true),
            (
                "decompression limit enforced",
                bomb_rejected(zeros_snapshot((MAX_WIRE_PAYLOAD + 1) as nat).zstd_candidate(1, 1)->0),
            ),
        ],
{
    let max_seq = Packet::snapshot(u64::MAX, 1, 1, vec![1, 2, 3]);
    proof {
        assert(0u16 & !1u16 == 0) by (bit_vector);
        lemma_wire_roundtrip(max_seq@, DecodeConfig::spec_default());
    }
    let max_wire = max_seq.encode()?;
    let decoded_max = Packet::decode(max_wire.as_slice())?;
    checks.push(("u64::MAX sequence roundtrip", decoded_max.sequence == u64::MAX));
    if include_large_limits {
        let exact = Packet::snapshot(1, 1, 1, vec![0u8; MAX_WIRE_PAYLOAD]);
        proof {
            assert(0u16 & !1u16 == 0) by (bit_vector);
        }
        checks.push(("64 MiB exact wire payload accepted", exact.encode().is_ok()));
        let over = Packet::snapshot(1, 1, 1, vec![0u8; MAX_WIRE_PAYLOAD + 1]);
        checks.push(("64 MiB + 1 rejected", over.encode().is_err()));
        let zeros: Vec<u8> = vec![0u8; MAX_WIRE_PAYLOAD + 1];
        assert(zeros@ =~= Seq::new((MAX_WIRE_PAYLOAD + 1) as nat, |k: int| 0u8));
        let bomb = Packet::snapshot(1, 1, 1, zeros).zstd_candidate(1, 1)?;
        checks.push(("decompression limit enforced", bomb.is_compressed() && bomb.logical_payload().is_err()));
    }
    Ok(())
}

/// A one-sequence snapshot of 4 KiB of zeros under schema and state hash one.
pub open spec fn zero_snapshot() -> PacketView {
    PacketView {
        kind: PacketKind::Snapshot,
        flags: 0,
        sequence: 1,
        base_sequence: 0,
        base_hash: 1,
        schema_hash: 1,
        payload: Seq::new(4096, |k: int| 0u8),
    }
}

/// `w` with byte 50, when there is one, xored with `0x5a`.
pub open spec fn byte_fifty_flipped(w: Seq<u8>) -> Seq<u8> {
    if w.len() > 50 {
        w.update(50, w[50] ^ 0x5au8)
    } else {
        w
    }
}

/// Compresses the zero snapshot, corrupts byte 50 of its wire form, and records
/// whether decoding rejects it; fails only when the compressor does.
fn corruption_check(checks: &mut Vec<(&'static str, bool)>) -> (res: Result<(), DeltaError>)
    ensures
        res is Ok <==> zero_snapshot().zstd_candidate(1, 1) is Some,
        res is Ok ==> final(checks)@ == old(checks)@.push(
            (
                "corrupted compressed packet rejected",
                !(decode_outcome(
                    byte_fifty_flipped(wire_bytes(zero_snapshot().zstd_candidate(1, 1)->0)),
                    DecodeConfig::spec_default(),
                ) is Decoded),
            ),
        ),
        res is Err ==> final(checks)@ == old(checks)@,
{
    let zeros: Vec<u8> = vec![0u8; 4096];
    assert(zeros@ =~= Seq::new(4096, |k: int| 0u8));
    let raw = Packet::snapshot(1, 1, 1, zeros);
    let compressed = raw.zstd_candidate(1, 1)?;
    assert(compressed@.flags & !crate::packet::KNOWN_FLAGS == 0 && compressed@.payload.len() <= MAX_WIRE_PAYLOAD) by {
        assert(0u16 & !1u16 == 0) by (bit_vector);
        assert((0u16 | 1u16) & !1u16 == 0) by (bit_vector);
    }
    let mut wire = compressed.encode()?;
    if wire.len() > 50 {
        let x = wire[50] ^ 0x5a;
        wire.set(50, x);
    }
    checks.push(("corrupted compressed packet rejected", Packet::decode(wire.as_slice()).is_err()));
    Ok(())
}

/// Runs the edge-case suite. `advanced` holds the demo agent advanced one, two,
/// ... times (at least five). The three large-limit checks allocate 64 MiB
/// buffers and run only when asked.
pub fn run(include_large_limits: bool, advanced: &[AgentState]) -> (res: Result<EdgeCaseReport, DeltaError>)
    requires
        advanced@.len() >= 5,
    ensures
        res matches Ok(r) ==> r.checks@.len() == check_count(include_large_limits),
        res matches Ok(r) ==> names_of(r.checks@) == check_names(include_large_limits),
        res matches Ok(r) ==> r.checks@[0].1 && r.checks@[1].1 && r.checks@[2].1 && r.checks@[3].1
            && r.checks@[4].1 && r.checks@[5].1 && r.checks@[6].1 && r.checks@[9].1 && r.checks@[10].1
            && r.checks@[16].1,
        res matches Ok(r) ==> r.checks@[11].1 == !(decode_outcome(
            byte_fifty_flipped(wire_bytes(zero_snapshot().zstd_candidate(1, 1)->0)),
            DecodeConfig::spec_default(),
        ) is Decoded),
        res is Ok ==> zero_snapshot().zstd_candidate(1, 1) is Some,
{
    let mut checks: Vec<(&'static str, bool)> = Vec::new();
    tiny_state_checks(&mut checks)?;
    let ghost s1 = checks@;
    let resized = resize_checks(&mut checks)?;
    let ghost s2 = checks@;
    smart_delta_checks(&mut checks)?;
    let ghost s3 = checks@;
    let mut wrong = ByteStateDecoder::new("wrong/schema/v25");
    checks.push(("schema mismatch rejected", wrong.apply(resized).is_err()));
    let ghost s4 = checks@;
    sequence_checks(&mut checks)?;
    let ghost s5 = checks@;
    corruption_check(&mut checks)?;
    let ghost s6 = checks@;
    agent_checks(&mut checks, advanced)?;
    let ghost s7 = checks@;
    wire_checks(&mut checks, include_large_limits)?;
    proof {
        assert(names_of(Seq::<(&'static str, bool)>::empty()) =~= Seq::<&'static str>::empty());
        assert(names_of(s4) =~= names_of(s3).push("schema mismatch rejected"));
        assert(forall|j: int| 0 <= j < 7 ==> s3[j] == s4[j]);
        assert(s3[0].1 && s3[1].1 && s3[2].1 && s3[3].1 && s3[4].1 && s3[5].1 && s3[6].1);
        assert(forall|j: int| 0 <= j < 8 ==> #[trigger] s5[j] == s4[j]) by {
            assert forall|j: int| 0 <= j < 8 implies #[trigger] s5[j] == s4[j] by {
                assert(s5.subrange(0, s4.len() as int)[j] == s5[j]);
            }
        }
        assert(s5[9].1 && s5[10].1);
        assert(s6 == s5.push(s6[11]));
        assert(forall|j: int| 0 <= j < 11 ==> s6[j] == s5[j]);
        assert(forall|j: int| 0 <= j < 12 ==> #[trigger] s7[j] == s6[j]) by {
            assert forall|j: int| 0 <= j < 12 implies #[trigger] s7[j] == s6[j] by {
                assert(s7.subrange(0, s6.len() as int)[j] == s7[j]);
            }
        }
        assert(forall|j: int| 0 <= j < 16 ==> checks@[j] == s7[j]);
        assert(checks@[16].1);
        assert(names_of(s1) =~= seq!["zero-length state", "one-byte grow", "identical update"]);
        assert(names_of(s2) =~= seq!["zero-length state", "one-byte grow", "identical update", "middle insertion", "shrink/delete"]);
        assert(names_of(s3) =~= seq!["zero-length state", "one-byte grow", "identical update", "middle insertion", "shrink/delete", "all smart delta strategies reconstruct", "malformed smart delta rejected"]);
        assert(names_of(s4) =~= seq!["zero-length state", "one-byte grow", "identical update", "middle insertion", "shrink/delete", "all smart delta strategies reconstruct", "malformed smart delta rejected", "schema mismatch rejected"]);
        assert(names_of(s5) =~= seq!["zero-length state", "one-byte grow", "identical update", "middle insertion", "shrink/delete", "all smart delta strategies reconstruct", "malformed smart delta rejected", "schema mismatch rejected", "future delta requires recovery", "publisher restart requires explicit reset", "late old snapshot suppressed"]);
        assert(names_of(s6) =~= seq!["zero-length state", "one-byte grow", "identical update", "middle insertion", "shrink/delete", "all smart delta strategies reconstruct", "malformed smart delta rejected", "schema mismatch rejected", "future delta requires recovery", "publisher restart requires explicit reset", "late old snapshot suppressed", "corrupted compressed packet rejected"]);
        assert(names_of(s7) =~= seq!["zero-length state", "one-byte grow", "identical update", "middle insertion", "shrink/delete", "all smart delta strategies reconstruct", "malformed smart delta rejected", "schema mismatch rejected", "future delta requires recovery", "publisher restart requires explicit reset", "late old snapshot suppressed", "corrupted compressed packet rejected", "small recovery gap can replay", "large recovery gap falls back snapshot", "bounded reorder buffers future packet", "reorder drains without rollback"]);
        if include_large_limits {
            assert(names_of(checks@) =~= names_of(s7) + seq![
                "u64::MAX sequence roundtrip",
                "64 MiB exact wire payload accepted",
                "64 MiB + 1 rejected",
                "decompression limit enforced",
            ]);
        } else {
            assert(names_of(checks@) =~= names_of(s7).push("u64::MAX sequence roundtrip"));
        }
        assert(names_of(checks@) =~= check_names(include_large_limits));
    }
    Ok(EdgeCaseReport { checks })
}

} // verus!
