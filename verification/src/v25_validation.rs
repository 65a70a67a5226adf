//! The byte-engine release checks: exact smart deltas, the adaptive byte
//! engine, the edge-case suite, recovery planning and the hard simulation.
use crate::buf::{bytes_equal, copy_bytes};
use crate::byte_sync::{ByteApplyResult, ByteStateDecoder, ByteStateEncoder};
use crate::edge_cases::{self, all_ok, checks_pass};
use crate::error::DeltaError;
use crate::recovery_history::{RecoveryHistory, RecoveryPlan};
use crate::smart_delta::{self, SmartDeltaPolicy};
use crate::state::AgentState;
use crate::sync::Encoder;
use crate::torture;
use vstd::prelude::*;

verus! {

/// Named release checks and whether each passed.
#[derive(Debug, Default)]
pub struct ValidationReport {
    pub checks: Vec<(&'static str, bool)>,
}

impl ValidationReport {
    /// Whether every check passed.
    pub fn all_passed(&self) -> (b: bool)
        ensures
            b == all_ok(self.checks@),
    {
        checks_pass(&self.checks)
    }
}

fn smart_delta_exact() -> (res: Result<(bool, bool), DeltaError>) {
    let previous: Vec<u8> = vec![0x55u8; 16 * 1024];
    let mut current = copy_bytes(previous.as_slice());
    let mut i: usize = 0;
    let n = current.len();
    while i < current.len()
        invariant
            current@.len() == n,
            i <= n,
        decreases n - i,
    {
        let x = current[i] ^ 0x7f;
        current.set(i, x);
        i = if n - i <= 257 {
            n
        } else {
            i + 257
        };
    }
    let candidates = smart_delta::encode_candidates(
        previous.as_slice(),
        current.as_slice(),
        SmartDeltaPolicy::default(),
    )?;
    let mut exact = true;
    let mut k: usize = 0;
    while k < candidates.len()
        decreases candidates@.len() - k,
    {
        let ok = match smart_delta::apply(previous.as_slice(), candidates[k].payload.as_slice()) {
            Ok(out) => bytes_equal(out.as_slice(), current.as_slice()),
            Err(_) => false,
        };
        exact = exact && ok;
        k = k + 1;
    }
    let mut encoder = ByteStateEncoder::new("validation/bytes/v25");
    let mut decoder = ByteStateDecoder::new("validation/bytes/v25");
    let p1 = encoder.encode(previous.as_slice())?;
    let p2 = encoder.encode(current.as_slice())?;
    let _ = decoder.apply(p1)?;
    let applies = match decoder.apply(p2)? {
        ByteApplyResult::Applied { state, .. } => bytes_equal(state.as_slice(), current.as_slice()),
        _ => false,
    };
    Ok((exact, applies))
}

/// Runs the byte-engine release checks. `advanced` holds the demo agent
/// advanced one, two, ... times; its length is the number of updates of the
/// hard simulation (at least six).
pub fn run_release_validation(advanced: &[AgentState]) -> (res: Result<ValidationReport, DeltaError>)
    requires
        6 <= advanced@.len() <= 1_000_000,
    ensures
        res matches Ok(r) ==> r.checks@.len() == 8,
{
    let mut report = ValidationReport { checks: Vec::new() };
    let (exact, applies) = smart_delta_exact()?;
    report.checks.push(("V25 smart delta strategies exact", exact));
    report.checks.push(("V25 adaptive byte engine applies", applies));

    let edges = edge_cases::run(false, advanced)?;
    report.checks.push(("V25 edge-case suite", edges.all_passed()));

    let mut history = RecoveryHistory::new(32, 1024 * 1024);
    let mut agent_encoder = Encoder::default();
    let mut k: usize = 0;
    while k < 6
        invariant
            advanced@.len() >= 6,
        decreases 6 - k,
    {
        let p = agent_encoder.encode(&advanced[k])?;
        history.record(p);
        k = k + 1;
    }
    let snapshot = agent_encoder.recovery_snapshot(&advanced[5])?;
    let replays = match history.plan(Some(4), snapshot)? {
        RecoveryPlan::Replay(_) => true,
        _ => false,
    };
    report.checks.push(("V25 recovery planner replays small gap", replays));

    let hard = torture::run(128, advanced)?;
    report.checks.push(("V25 torture convergence", hard.all_converged()));
    report.checks.push(("V25 torture exercised late joins", hard.late_joins > 0));
    report.checks.push(("V25 torture exercised resync storm", hard.resync_storm_clients > 0));
    report.checks.push((
        "V25 shared storm snapshot",
        hard.resync_storm_clients > 1 && hard.resync_storm_snapshots_built == 1,
    ));
    Ok(report)
}

} // verus!
