//! Recovery planning that also weighs a partial repair against replay or snapshot.
use crate::packet::wire_len;
use crate::error::DeltaError;
use crate::packet::{Packet, PacketView};
use crate::partial_repair::{
    at_least_one, lemma_repair_payload_bounded, patch_bytes_total, patch_views, patches_for,
    repair_indices, PartialRepair,
};
use crate::recovery_history::{
    packet_views, plan_choice, replay_bytes, PlanChoice, RecoveryHistory, RecoveryPlan,
};
use crate::sync::spec_fnv1a64;
use vstd::prelude::*;

verus! {

/// How to bring a lagging receiver up to date.
#[derive(Debug, Clone, PartialEq, Eq)]
pub enum V30RecoveryPlan {
    Replay(Vec<Packet>),
    Partial(PartialRepair),
    Snapshot(Packet),
}

/// Encoded bytes of the first `n` packets.
pub open spec fn packets_total(r: Seq<PacketView>, n: int) -> int
    decreases n,
{
    if n <= 0 {
        0
    } else {
        packets_total(r, n - 1) + wire_len(r[n - 1])
    }
}

/// The bytes a plan would send.
pub open spec fn plan_bytes(plan: V30RecoveryPlan) -> int {
    match plan {
        V30RecoveryPlan::Replay(ps) => packets_total(packet_views(ps@), ps@.len() as int),
        V30RecoveryPlan::Partial(r) => patch_bytes_total(patch_views(r.patches@), r.patches@.len() as int),
        V30RecoveryPlan::Snapshot(p) => wire_len(p@),
    }
}

impl V30RecoveryPlan {
    /// The bytes this plan would send.
    pub fn estimated_payload_bytes(&self) -> (n: usize)
        requires
            plan_bytes(*self) <= usize::MAX,
        ensures
            n == plan_bytes(*self),
    {
        match self {
            V30RecoveryPlan::Replay(packets) => {
                let ghost r = packet_views(packets@);
                let mut total: usize = 0;
                let mut k: usize = 0;
                while k < packets.len()
                    invariant
                        r == packet_views(packets@),
                        k <= r.len(),
                        total == packets_total(r, k as int),
                        packets_total(r, r.len() as int) <= usize::MAX,
                    decreases r.len() - k,
                {
                    proof {
                        lemma_packets_total_monotone(r, k + 1, r.len() as int);
                    }
                    assert(r[k as int] == packets@[k as int]@);
                    total = total + packets[k].encoded_len();
                    k = k + 1;
                }
                total
            },
            V30RecoveryPlan::Partial(repair) => repair.payload_bytes(),
            V30RecoveryPlan::Snapshot(packet) => packet.encoded_len(),
        }
    }
}

proof fn lemma_packets_total_monotone(r: Seq<PacketView>, j: int, k: int)
    requires
        0 <= j <= k,
    ensures
        packets_total(r, j) <= packets_total(r, k),
    decreases k - j,
{
    if j < k {
        lemma_packets_total_monotone(r, j, k - 1);
    }
}

/// A saturating byte count that stayed below the limit is the exact count.
proof fn lemma_replay_bytes_exact(r: Seq<PacketView>, n: int)
    requires
        0 <= n,
        replay_bytes(r, n) < usize::MAX,
    ensures
        replay_bytes(r, n) == packets_total(r, n),
    decreases n,
{
    if n > 0 {
        assert(replay_bytes(r, n - 1) < usize::MAX);
        lemma_replay_bytes_exact(r, n - 1);
    }
}

/// The repair a receiver holding `receiver` would be sent.
pub open spec fn repair_plan_ok(
    repair: PartialRepair,
    receiver: Seq<u8>,
    authoritative: Seq<u8>,
    chunk_size: usize,
) -> bool {
    let cs = at_least_one(chunk_size);
    let idx = repair_indices(receiver, authoritative, cs);
    &&& repair.target_len == authoritative.len()
    &&& repair.chunk_size == cs
    &&& repair.target_hash == spec_fnv1a64(authoritative)
    &&& patch_views(repair.patches@) == patches_for(idx, authoritative, cs, idx.len() as int)
}

/// The plan the history alone yields, in the v30 plan type.
pub open spec fn history_plan_ok(plan: V30RecoveryPlan, choice: PlanChoice, snapshot: PacketView) -> bool {
    match choice {
        PlanChoice::Snapshot => plan matches V30RecoveryPlan::Snapshot(p) && p@ == snapshot,
        PlanChoice::Replay(r) => plan matches V30RecoveryPlan::Replay(v) && packet_views(v@) == r,
    }
}

/// Plans a recovery: replay or snapshot as the history decides, replaced by a
/// partial repair of the receiver's state when that sends strictly fewer bytes.
pub fn plan_recovery(
    history: &RecoveryHistory,
    local_sequence: Option<u64>,
    receiver_state: Option<&[u8]>,
    authoritative_state: &[u8],
    snapshot: Packet,
    chunk_size: usize,
) -> (res: Result<V30RecoveryPlan, DeltaError>)
    ensures
        res matches Ok(plan) && ({
            let choice = plan_choice(history@, local_sequence, snapshot@);
            match receiver_state {
                None => history_plan_ok(plan, choice, snapshot@),
                Some(receiver) => if plan is Partial {
                    &&& repair_plan_ok(plan->Partial_0, receiver@, authoritative_state@, chunk_size)
                    &&& plan_bytes(plan) < match choice {
                        PlanChoice::Snapshot => wire_len(snapshot@),
                        PlanChoice::Replay(r) => packets_total(r, r.len() as int),
                    }
                } else {
                    &&& history_plan_ok(plan, choice, snapshot@)
                    &&& forall|rep: PartialRepair|
                        repair_plan_ok(rep, receiver@, authoritative_state@, chunk_size)
                            ==> #[trigger] plan_bytes(V30RecoveryPlan::Partial(rep)) >= plan_bytes(plan)
                },
            }
        }),
{
    let ghost choice = plan_choice(history@, local_sequence, snapshot@);
    let history_plan = history.plan(local_sequence, snapshot.duplicate());
    let history_plan = match history_plan {
        Ok(p) => p,
        Err(e) => return Err(e),
    };
    let mut best = match history_plan {
        RecoveryPlan::Replay(p) => V30RecoveryPlan::Replay(p),
        RecoveryPlan::Snapshot(p) => V30RecoveryPlan::Snapshot(p),
    };
    match receiver_state {
        None => {},
        Some(receiver) => {
            let repair = PartialRepair::build(receiver, authoritative_state, chunk_size);
            proof {
                assert(authoritative_state@.len() == authoritative_state.len());
                assert(receiver@.len() == receiver.len());
                lemma_repair_payload_bounded(receiver@, authoritative_state@, at_least_one(chunk_size));
                match choice {
                    PlanChoice::Replay(r) => {
                        assert(replay_bytes(r, r.len() as int) < wire_len(snapshot@));
                        lemma_replay_bytes_exact(r, r.len() as int);
                        assert(plan_bytes(best) == packets_total(r, r.len() as int));
                    },
                    PlanChoice::Snapshot => {
                        assert(plan_bytes(best) == wire_len(snapshot@));
                    },
                }
            }
            let repair_bytes = repair.payload_bytes();
            let best_bytes = best.estimated_payload_bytes();
            if repair_bytes < best_bytes {
                best = V30RecoveryPlan::Partial(repair);
            }
        },
    }
    Ok(best)
}

} // verus!
