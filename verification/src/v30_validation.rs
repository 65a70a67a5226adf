//! The fast-path validation suite: the bounded selector, partial repair,
//! backpressure, the fast-path simulation, and the byte-engine release checks.
use crate::buf::{bytes_equal, copy_bytes};
use crate::byte_sync::{ByteApplyResult, ByteStateDecoder};
use crate::edge_cases::{all_ok, checks_pass};
use crate::error::DeltaError;
use crate::partial_repair::{lemma_repair_payload_bounded, PartialRepair};
use crate::runtime::{backpressure_decision, BackpressureDecision, RuntimeLimits};
use crate::smart_delta::SmartDeltaKind;
use crate::state::AgentState;
use crate::v30_sync::{FastByteStateEncoder, V30EncodeMode};
use vstd::prelude::*;

verus! {

/// Named checks of the fast-path validation suite and whether each passed.
#[derive(Debug, Default)]
pub struct V30ValidationReport {
    pub checks: Vec<(&'static str, bool)>,
}

impl V30ValidationReport {
    /// Whether every check passed.
    pub fn all_passed(&self) -> (b: bool)
        ensures
            b == all_ok(self.checks@),
    {
        checks_pass(&self.checks)
    }
}

fn is_applied(r: &ByteApplyResult) -> (b: bool)
    ensures
        b == (*r is Applied),
{
    match r {
        ByteApplyResult::Applied { .. } => true,
        _ => false,
    }
}

fn fast_path_checks(r: &mut V30ValidationReport) -> (res: Result<(), DeltaError>)
    ensures
        res is Ok ==> final(r).checks@.len() == old(r).checks@.len() + 4,
{
    let mut enc = FastByteStateEncoder::new("v30/validate");
    let mut dec = ByteStateDecoder::new("v30/validate");
    let mut state: Vec<u8> = vec![0xA5u8; 16 * 1024];
    let p1 = enc.encode(state.as_slice())?;
    let a1 = dec.apply(p1)?;
    r.checks.push(("V30 initial snapshot", is_applied(&a1)));
    if state.len() > 777 {
        let x = state[777] ^ 0x5A;
        state.set(777, x);
    }
    let p2 = enc.encode(state.as_slice())?;
    let a2 = dec.apply(p2)?;
    r.checks.push(("V30 fast delta applies", is_applied(&a2)));
    let bounded = match enc.last_decision() {
        Some(d) => d.candidates_considered <= 5,
        None => false,
    };
    r.checks.push(("V30 selector bounded candidates", bounded));
    let sparse = match enc.last_decision() {
        Some(d) => match d.mode {
            V30EncodeMode::Delta(SmartDeltaKind::Sparse) | V30EncodeMode::DeltaZstd(SmartDeltaKind::Sparse)
            | V30EncodeMode::Delta(SmartDeltaKind::Ranges) | V30EncodeMode::DeltaZstd(
                SmartDeltaKind::Ranges,
            ) => true,
            _ => false,
        },
        None => false,
    };
    r.checks.push(("V30 sparse workload classified", sparse));
    Ok(())
}

fn fill(v: &mut Vec<u8>, start: usize, end: usize, value: u8)
    ensures
        final(v)@.len() == old(v)@.len(),
        forall|j: int|
            0 <= j < old(v)@.len() ==> #[trigger] final(v)@[j] == if start <= j < end {
                value
            } else {
                old(v)@[j]
            },
{
    let mut i = start;
    while i < end && i < v.len()
        invariant
            v@.len() == old(v)@.len(),
            start <= i,
            i <= end || i == start,
            forall|j: int|
                0 <= j < old(v)@.len() ==> #[trigger] v@[j] == if start <= j < i {
                    value
                } else {
                    old(v)@[j]
                },
        decreases end - i,
    {
        v.set(i, value);
        i = i + 1;
    }
    assert(i >= end || i >= v@.len());
}

fn repair_checks(r: &mut V30ValidationReport) -> (res: Result<(), DeltaError>)
    ensures
        res is Ok ==> final(r).checks@.len() == old(r).checks@.len() + 2,
{
    let receiver: Vec<u8> = vec![0x11u8; 256 * 1024];
    let mut authoritative = copy_bytes(receiver.as_slice());
    fill(&mut authoritative, 1024, 2048, 0x22);
    fill(&mut authoritative, 200_000, 201_024, 0x33);
    let repair = PartialRepair::build(receiver.as_slice(), authoritative.as_slice(), 1024);
    let repaired = repair.apply(receiver.as_slice())?;
    r.checks.push(("V30 partial repair exact", bytes_equal(repaired.as_slice(), authoritative.as_slice())));
    proof {
        lemma_repair_payload_bounded(receiver@, authoritative@, 1024);
    }
    r.checks.push(("V30 partial repair smaller than snapshot", repair.payload_bytes() < authoritative.len()));
    Ok(())
}

/// Runs the fast-path validation suite. `advanced` holds the demo agent
/// advanced one, two, ... times, for the release checks it repeats.
pub fn run(advanced: &[AgentState]) -> (res: Result<V30ValidationReport, DeltaError>)
    requires
        6 <= advanced@.len() <= 1_000_000,
    ensures
        res matches Ok(r) ==> r.checks@.len() == 12,
{
    let mut r = V30ValidationReport { checks: Vec::new() };
    fast_path_checks(&mut r)?;
    repair_checks(&mut r)?;
    let limits = RuntimeLimits { max_client_lag: 100, ..RuntimeLimits::default() };
    r.checks.push((
        "V30 backpressure accepts healthy client",
        backpressure_decision(Some(950), 1_000, limits) == BackpressureDecision::Accept,
    ));
    r.checks.push((
        "V30 backpressure snapshots slow client",
        backpressure_decision(Some(500), 1_000, limits) == BackpressureDecision::SnapshotAndCatchUp,
    ));
    r.checks.push((
        "V30 backpressure drops pathological lag",
        backpressure_decision(Some(0), 100_000, limits) == BackpressureDecision::DropClient,
    ));
    let fast_hard = crate::v30_torture::run(128, 2_000)?;
    r.checks.push(("V30 fast-path multiclient convergence", fast_hard.all_converged()));
    r.checks.push((
        "V30 fast-path faults exercised",
        fast_hard.drops > 0 && fast_hard.reorders > 0 && fast_hard.corruptions > 0,
    ));
    let old = crate::v25_validation::run_release_validation(advanced)?;
    r.checks.push(("V25 regression suite preserved", old.all_passed()));
    Ok(r)
}

} // verus!
