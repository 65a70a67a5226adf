//! A deterministic many-client simulation of the fast encoder with drops,
//! reordering, duplicates, corruption and late joins, ending with a shared
//! snapshot that brings every client to the publisher's state.
use crate::byte_sync::{
    apply_post, base_state, byte_consistent, byte_genuine, decode_step, lemma_byte_apply_consistent, represents,
    uniform_states, ByteApplyResult, ByteDecoderView, ByteEncodeMode, ByteStateDecoder,
};
use crate::sync::spec_fnv1a64;
use crate::error::DeltaError;
use crate::packet::{snapshot_packet, Packet, PacketView, KNOWN_FLAGS, MAX_WIRE_PAYLOAD};
use crate::smart_delta::SmartDeltaPolicy;
use crate::v30_sync::{fast_wf, FastByteStateEncoder};
use vstd::prelude::*;
use vstd::string::*;

verus! {

/// Counters of the simulation.
#[derive(Debug, Clone, Default)]
pub struct V30TortureReport {
    pub clients: usize,
    pub updates: usize,
    pub drops: u64,
    pub duplicates: u64,
    pub corruptions: u64,
    pub reorders: u64,
    pub recoveries: u64,
    pub shared_recovery_snapshots: u64,
    pub late_joins: u64,
    pub converged: usize,
}

impl V30TortureReport {
    /// Whether every client ended in the publisher's state.
    pub fn all_converged(&self) -> (b: bool)
        ensures
            b == (self.converged == self.clients),
    {
        self.converged == self.clients
    }
}

/// One simulated client.
struct Client {
    decoder: ByteStateDecoder,
    delayed: Option<Packet>,
    joined: bool,
}

/// Whether two byte strings are equal.
fn same_state(a: &[u8], b: &[u8]) -> (r: bool)
    ensures
        r == (a@ == b@),
{
    if a.len() != b.len() {
        return false;
    }
    let mut i: usize = 0;
    while i < a.len()
        invariant
            a@.len() == b@.len(),
            i <= a@.len(),
            forall|j: int| 0 <= j < i ==> a@[j] == b@[j],
        decreases a@.len() - i,
    {
        if a[i] != b[i] {
            return false;
        }
        i = i + 1;
    }
    assert(a@ =~= b@);
    true
}

/// Publishing one more state keeps decoders holding published states and
/// genuine packets genuine.
proof fn lemma_extend_history(
    d: ByteDecoderView,
    delayed: Option<Packet>,
    hist: Seq<Seq<u8>>,
    next: Seq<u8>,
    schema: u64,
    policy: SmartDeltaPolicy,
)
    requires
        byte_consistent(d, hist, schema),
        delayed matches Some(p) ==> byte_genuine(p@, hist, schema, policy),
    ensures
        byte_consistent(d, hist.push(next), schema),
        delayed matches Some(p) ==> byte_genuine(p@, hist.push(next), schema, policy),
{
    let h2 = hist.push(next);
    if let Some(l) = d.sequence {
        assert(h2[l - 1] == hist[l - 1]);
    }
    if let Some(p) = delayed {
        let s = p@.sequence as int;
        assert(h2[s - 1] == hist[s - 1]);
        assert(base_state(h2, s) == base_state(hist, s)) by {
            if s > 1 {
                assert(h2[s - 2] == hist[s - 2]);
            }
        }
    }
}

/// A decoder that holds published states ends at the last published sequence
/// and state once it takes a snapshot of that state.
proof fn lemma_final_snapshot(
    old: ByteDecoderView,
    p: PacketView,
    new: ByteDecoderView,
    res: Result<ByteApplyResult, DeltaError>,
    hist: Seq<Seq<u8>>,
    schema: u64,
)
    requires
        byte_consistent(old, hist, schema),
        hist.len() >= 1,
        hist.len() <= u64::MAX,
        uniform_states(hist, 4096),
        p == snapshot_packet(hist.len() as u64, schema, hist[hist.len() - 1]),
        apply_post(old, p, new, res),
        res is Ok,
    ensures
        new.sequence == Some(hist.len() as u64),
        new.state == Some(hist[hist.len() - 1]),
{
    assert(0u16 & 1u16 == 0) by (bit_vector);
    assert(!p.is_compressed());
    assert(hist[hist.len() - 1].len() == 4096);
}

/// Offers the latest packet to a client, a second copy when `twice`, then the
/// packet it held back; a client that needs recovery is listed for the shared
/// snapshot.
#[verifier::rlimit(40)]
fn deliver_peer(
    peer: &mut Client,
    packet: &Packet,
    twice: bool,
    id: usize,
    report: &mut V30TortureReport,
    need_recovery: &mut Vec<usize>,
    Ghost(hist): Ghost<Seq<Seq<u8>>>,
    Ghost(schema): Ghost<u64>,
    Ghost(policy): Ghost<SmartDeltaPolicy>,
) -> (res: Result<(), DeltaError>)
    requires
        byte_consistent(old(peer).decoder@, hist, schema),
        byte_genuine(packet@, hist, schema, policy),
        old(peer).delayed matches Some(p) ==> byte_genuine(p@, hist, schema, policy),
        uniform_states(hist, 4096),
        old(report).recoveries < u64::MAX,
        old(report).duplicates < u64::MAX,
    ensures
        res is Ok,
        byte_consistent(final(peer).decoder@, hist, schema),
        final(peer).delayed is None,
        final(peer).joined == old(peer).joined,
        decode_step(old(peer).decoder@, packet@) is NeedRecovery ==> final(report).recoveries == old(
            report,
        ).recoveries + 1 && final(need_recovery)@ == old(need_recovery)@.push(id),
        !(decode_step(old(peer).decoder@, packet@) is NeedRecovery) ==> final(report).recoveries == old(
            report,
        ).recoveries && final(need_recovery)@ == old(need_recovery)@,
        final(report).duplicates == old(report).duplicates + if twice {
            1int
        } else {
            0int
        },
        final(report).drops == old(report).drops,
        final(report).corruptions == old(report).corruptions,
        final(report).reorders == old(report).reorders,
        final(report).late_joins == old(report).late_joins,
        final(report).shared_recovery_snapshots == old(report).shared_recovery_snapshots,
        final(report).clients == old(report).clients,
        final(report).updates == old(report).updates,
        final(report).converged == old(report).converged,
{
    let ghost d0 = peer.decoder@;
    let first = peer.decoder.apply(packet.duplicate());
    proof {
        lemma_byte_apply_consistent(d0, packet@, peer.decoder@, first, hist, 4096, schema, policy);
    }
    match first {
        Ok(ByteApplyResult::NeedRecovery { .. }) => {
            report.recoveries = report.recoveries + 1;
            need_recovery.push(id);
        },
        Ok(_) => {},
        Err(e) => return Err(e),
    }
    if twice {
        report.duplicates = report.duplicates + 1;
        let ghost d1 = peer.decoder@;
        let r = peer.decoder.apply(packet.duplicate());
        proof {
            lemma_byte_apply_consistent(d1, packet@, peer.decoder@, r, hist, 4096, schema, policy);
        }
        if let Err(e) = r {
            return Err(e);
        }
    }
    let delayed = peer.delayed.take();
    if let Some(d) = delayed {
        let ghost d2 = peer.decoder@;
        let ghost dv = d@;
        let r = peer.decoder.apply(d);
        proof {
            lemma_byte_apply_consistent(d2, dv, peer.decoder@, r, hist, 4096, schema, policy);
        }
        if let Err(e) = r {
            return Err(e);
        }
    }
    Ok(())
}

/// The encoder's packet for the state it just published is genuine for the
/// history extended by that state.
proof fn lemma_advance(
    h0: Seq<Seq<u8>>,
    state: Seq<u8>,
    previous: Option<Seq<u8>>,
    p: PacketView,
    mode: ByteEncodeMode,
    sequence: u64,
    schema: u64,
    policy: SmartDeltaPolicy,
)
    requires
        previous == base_state(h0.push(state), (h0.len() + 1) as int),
        sequence == h0.len() + 1,
        represents(p, mode, previous, state, sequence, schema, policy),
    ensures
        byte_genuine(p, h0.push(state), schema, policy),
{
    reveal(represents);
    let h = h0.push(state);
    assert(h[h.len() - 1] == state);
    assert(base_state(h, p.sequence as int) == previous);
}

/// One client's share of an update: it may not have joined yet, lose the
/// packet, hold it back, see it corrupted, or be served it.
#[verifier::rlimit(60)]
#[verifier::spinoff_prover]
fn step_peer(
    peers: &mut Vec<Client>,
    id: usize,
    update: usize,
    join_window: usize,
    packet: &Packet,
    report: &mut V30TortureReport,
    need_recovery: &mut Vec<usize>,
    Ghost(hist): Ghost<Seq<Seq<u8>>>,
    Ghost(schema): Ghost<u64>,
    Ghost(policy): Ghost<SmartDeltaPolicy>,
) -> (res: Result<(), DeltaError>)
    requires
        id < old(peers)@.len(),
        1 <= join_window,
        update <= 10_000_000,
        id <= 100_000,
        uniform_states(hist, 4096),
        byte_genuine(packet@, hist, schema, policy),
        byte_consistent(old(peers)@[id as int].decoder@, hist, schema),
        old(peers)@[id as int].delayed matches Some(p) ==> byte_genuine(p@, hist, schema, policy),
        old(report).drops < u64::MAX,
        old(report).duplicates < u64::MAX,
        old(report).corruptions < u64::MAX,
        old(report).reorders < u64::MAX,
        old(report).recoveries < u64::MAX,
        old(report).late_joins < u64::MAX,
    ensures
        final(peers)@.len() == old(peers)@.len(),
        forall|j: int| 0 <= j < old(peers)@.len() && j != id ==> final(peers)@[j] == old(peers)@[j],
        packet@.flags & !KNOWN_FLAGS == 0 && packet@.payload.len() <= MAX_WIRE_PAYLOAD ==> res is Ok,
        res is Ok ==> byte_consistent(final(peers)@[id as int].decoder@, hist, schema),
        res is Ok ==> (final(peers)@[id as int].delayed matches Some(p) ==> byte_genuine(p@, hist, schema, policy)),
        final(report).drops <= old(report).drops + 1,
        final(report).duplicates <= old(report).duplicates + 1,
        final(report).corruptions <= old(report).corruptions + 1,
        final(report).reorders <= old(report).reorders + 1,
        final(report).recoveries <= old(report).recoveries + 1,
        final(report).late_joins <= old(report).late_joins + 1,
        final(report).clients == old(report).clients,
        final(report).updates == old(report).updates,
        final(report).converged == old(report).converged,
        final(report).shared_recovery_snapshots == old(report).shared_recovery_snapshots,
        final(need_recovery)@ == old(need_recovery)@ || final(need_recovery)@ == old(need_recovery)@.push(id),
{
    let join_at = 1 + (id % join_window);
    let ghost before = peers@;
    let mut peer = peers.remove(id);
    assert(peer == before[id as int]);
    let mut done = false;
    if !peer.joined {
        if update < join_at {
            done = true;
        } else {
            peer.joined = true;
            if join_at > 1 {
                report.late_joins = report.late_joins + 1;
                need_recovery.push(id);
                done = true;
            }
        }
    }
    if !done && (update + id * 17) % 211 == 0 {
        report.drops = report.drops + 1;
        done = true;
    }
    if !done && (update + id * 13) % 509 == 0 && peer.delayed.is_none() {
        peer.delayed = Some(packet.duplicate());
        report.reorders = report.reorders + 1;
        done = true;
    }
    let mut res: Result<(), DeltaError> = Ok(());
    if !done && (update + id * 19) % 997 == 0 {
        match packet.encode() {
            Ok(mut wire) => {
                let n = wire.len();
                if n > 0 {
                    let last = wire[n - 1];
                    wire.set(n - 1, last ^ 0xA5);
                }
                report.corruptions = report.corruptions + 1;
                if Packet::decode(wire.as_slice()).is_err() {
                    need_recovery.push(id);
                    done = true;
                }
            },
            Err(e) => {
                res = Err(e);
                done = true;
            },
        }
    }
    if !done {
        let twice = (update + id * 23) % 701 == 0;
        res = deliver_peer(
            &mut peer,
            packet,
            twice,
            id,
            report,
            need_recovery,
            Ghost(hist),
            Ghost(schema),
            Ghost(policy),
        );
    }
    peers.insert(id, peer);
    assert(peers@ =~= before.update(id as int, peer));
    res
}

/// Offers one update's packet to every client in turn and returns the clients
/// that need the shared recovery snapshot.
#[verifier::rlimit(40)]
fn serve_clients(
    peers: &mut Vec<Client>,
    clients: usize,
    update: usize,
    join_window: usize,
    packet: &Packet,
    report: &mut V30TortureReport,
    Ghost(hist): Ghost<Seq<Seq<u8>>>,
    Ghost(schema): Ghost<u64>,
    Ghost(policy): Ghost<SmartDeltaPolicy>,
) -> (res: Result<Vec<usize>, DeltaError>)
    requires
        old(peers)@.len() == clients,
        clients <= 100_000,
        1 <= update <= 10_000_000,
        1 <= join_window,
        uniform_states(hist, 4096),
        byte_genuine(packet@, hist, schema, policy),
        forall|j: int|
            0 <= j < clients ==> byte_consistent((#[trigger] old(peers)@[j]).decoder@, hist, schema) && (
            old(peers)@[j].delayed matches Some(p) ==> byte_genuine(p@, hist, schema, policy)),
        old(report).drops <= (update - 1) * clients,
        old(report).duplicates <= (update - 1) * clients,
        old(report).corruptions <= (update - 1) * clients,
        old(report).reorders <= (update - 1) * clients,
        old(report).recoveries <= (update - 1) * clients,
        old(report).late_joins <= (update - 1) * clients,
    ensures
        final(peers)@.len() == clients,
        res matches Ok(v) ==> forall|k: int| 0 <= k < v@.len() ==> #[trigger] v@[k] < clients,
        res is Ok ==> forall|j: int|
            0 <= j < clients ==> byte_consistent((#[trigger] final(peers)@[j]).decoder@, hist, schema) && (
            final(peers)@[j].delayed matches Some(p) ==> byte_genuine(p@, hist, schema, policy)),
        final(report).drops <= update * clients,
        final(report).duplicates <= update * clients,
        final(report).corruptions <= update * clients,
        final(report).reorders <= update * clients,
        final(report).recoveries <= update * clients,
        final(report).late_joins <= update * clients,
        final(report).clients == old(report).clients,
        final(report).updates == old(report).updates,
        final(report).converged == old(report).converged,
        final(report).shared_recovery_snapshots == old(report).shared_recovery_snapshots,
{
    let mut need_recovery: Vec<usize> = Vec::new();
    let mut id: usize = 0;
    while id < clients
        invariant
            id <= clients,
            clients <= 100_000,
            1 <= update <= 10_000_000,
            peers@.len() == clients,
            need_recovery@.len() <= id,
            forall|k: int| 0 <= k < need_recovery@.len() ==> #[trigger] need_recovery@[k] < clients,
            1 <= join_window,
            uniform_states(hist, 4096),
            byte_genuine(packet@, hist, schema, policy),
            forall|j: int|
                0 <= j < clients ==> byte_consistent((#[trigger] peers@[j]).decoder@, hist, schema) && (
                peers@[j].delayed matches Some(p) ==> byte_genuine(p@, hist, schema, policy)),
            report.drops <= (update - 1) * clients + id,
            report.duplicates <= (update - 1) * clients + id,
            report.corruptions <= (update - 1) * clients + id,
            report.reorders <= (update - 1) * clients + id,
            report.recoveries <= (update - 1) * clients + id,
            report.late_joins <= (update - 1) * clients + id,
            report.clients == old(report).clients,
            report.updates == old(report).updates,
            report.converged == old(report).converged,
            report.shared_recovery_snapshots == old(report).shared_recovery_snapshots,
        decreases clients - id,
    {
        proof {
            assert((update - 1) * clients + id < update * clients) by (nonlinear_arith)
                requires
                    id < clients,
                    update >= 1,
            ;
            assert(update * clients <= 10_000_000 * 100_000) by (nonlinear_arith)
                requires
                    update <= 10_000_000,
                    clients <= 100_000,
            ;
        }
        let ghost nr0 = need_recovery@;
        step_peer(
            peers,
            id,
            update,
            join_window,
            packet,
            report,
            &mut need_recovery,
            Ghost(hist),
            Ghost(schema),
            Ghost(policy),
        )?;
        proof {
            assert forall|k: int| 0 <= k < need_recovery@.len() implies #[trigger] need_recovery@[k] < clients by {
                if k < nr0.len() {
                    assert(need_recovery@[k] == nr0[k]);
                }
            }
        }
        id = id + 1;
    }
    proof {
        assert((update - 1) * clients + clients == update * clients) by (nonlinear_arith);
    }
    Ok(need_recovery)
}

/// Applies the shared recovery snapshot to each listed client.
fn share_recovery(
    peers: &mut Vec<Client>,
    clients: usize,
    need_recovery: &Vec<usize>,
    shared: &Packet,
    Ghost(hist): Ghost<Seq<Seq<u8>>>,
    Ghost(schema): Ghost<u64>,
    Ghost(policy): Ghost<SmartDeltaPolicy>,
) -> (res: Result<(), DeltaError>)
    requires
        old(peers)@.len() == clients,
        forall|j: int| 0 <= j < need_recovery@.len() ==> #[trigger] need_recovery@[j] < clients,
        uniform_states(hist, 4096),
        byte_genuine(shared@, hist, schema, policy),
        shared@.kind is Snapshot,
        forall|j: int|
            0 <= j < clients ==> byte_consistent((#[trigger] old(peers)@[j]).decoder@, hist, schema) && (
            old(peers)@[j].delayed matches Some(p) ==> byte_genuine(p@, hist, schema, policy)),
    ensures
        res is Ok,
        final(peers)@.len() == clients,
        forall|j: int|
            0 <= j < clients && !need_recovery@.contains(j as usize) ==> #[trigger] final(peers)@[j] == old(
                peers,
            )@[j],
        forall|j: int|
            0 <= j < clients ==> byte_consistent((#[trigger] final(peers)@[j]).decoder@, hist, schema) && (
            final(peers)@[j].delayed matches Some(p) ==> byte_genuine(p@, hist, schema, policy)),
{
    let mut k: usize = 0;
    while k < need_recovery.len()
        invariant
            k <= need_recovery@.len(),
            peers@.len() == clients,
            forall|j: int| 0 <= j < need_recovery@.len() ==> #[trigger] need_recovery@[j] < clients,
            uniform_states(hist, 4096),
            byte_genuine(shared@, hist, schema, policy),
            shared@.kind is Snapshot,
            forall|j: int|
                0 <= j < clients ==> byte_consistent((#[trigger] peers@[j]).decoder@, hist, schema) && (
                peers@[j].delayed matches Some(p) ==> byte_genuine(p@, hist, schema, policy)),
            forall|j: int|
                0 <= j < clients && !need_recovery@.subrange(0, k as int).contains(j as usize)
                    ==> #[trigger] peers@[j] == old(peers)@[j],
        decreases need_recovery@.len() - k,
    {
        let id = need_recovery[k];
        let ghost before = peers@;
        let mut peer = peers.remove(id);
        proof {
            assert(peer == before[id as int]);
        }
        let ghost d0 = peer.decoder@;
        let r = peer.decoder.apply(shared.duplicate());
        proof {
            lemma_byte_apply_consistent(d0, shared@, peer.decoder@, r, hist, 4096, schema, policy);
        }
        peers.insert(id, peer);
        proof {
            assert(peers@ =~= before.update(id as int, peer));
        }
        match r {
            Ok(ByteApplyResult::NeedRecovery { .. }) => {
                return Err(DeltaError::InvalidState("V30 shared recovery failed"));
            },
            Ok(_) => {},
            Err(e) => return Err(e),
        }
        proof {
            assert forall|j: int|
                0 <= j < clients && !need_recovery@.subrange(0, k + 1).contains(j as usize) implies #[trigger] peers@[j]
                == old(peers)@[j] by {
                assert(need_recovery@.subrange(0, k + 1)[k as int] == id);
                if !need_recovery@.subrange(0, k as int).contains(j as usize) {
                } else {
                    let w = choose|w: int|
                        0 <= w < k && need_recovery@.subrange(0, k as int)[w] == j as usize;
                    assert(need_recovery@.subrange(0, k + 1)[w] == j as usize);
                }
            }
        }
        k = k + 1;
    }
    assert(need_recovery@.subrange(0, need_recovery@.len() as int) =~= need_recovery@);
    Ok(())
}

/// Bounds under which the simulation's index arithmetic cannot overflow.
pub open spec fn torture_bounds(clients: usize, updates: usize) -> bool {
    clients <= 100_000 && updates <= 10_000_000
}

/// Runs the simulation with `clients` clients (at least one) over `updates`
/// updates (at least two) of a 4 KiB state, and reports how many clients end
/// at the publisher's sequence and state: all of them.
#[verifier::rlimit(80)]
#[verifier::spinoff_prover]
pub fn run(clients: usize, updates: usize) -> (res: Result<V30TortureReport, DeltaError>)
    requires
        torture_bounds(clients, updates),
    ensures
        res matches Ok(r) ==> r.clients == (if clients == 0 {
            1
        } else {
            clients
        }) && r.updates == (if updates < 2 {
            2
        } else {
            updates
        }) && r.converged == r.clients,
{
    let clients = if clients == 0 {
        1
    } else {
        clients
    };
    let updates = if updates < 2 {
        2
    } else {
        updates
    };
    let mut report = V30TortureReport {
        clients,
        updates,
        drops: 0,
        duplicates: 0,
        corruptions: 0,
        reorders: 0,
        recoveries: 0,
        shared_recovery_snapshots: 0,
        late_joins: 0,
        converged: 0,
    };
    let name = "v30/torture";
    let mut encoder = FastByteStateEncoder::new(name);
    let ghost schema = encoder@.schema_hash;
    let ghost policy = encoder@.policy.smart_delta;
    let ghost mut hist: Seq<Seq<u8>> = Seq::empty();
    let mut state: Vec<u8> = vec![0x5Au8; 4096];
    let mut peers: Vec<Client> = Vec::new();
    let mut c: usize = 0;
    while c < clients
        invariant
            c <= clients,
            peers@.len() == c,
            hist.len() == 0,
            schema == spec_fnv1a64(name.spec_bytes()),
            forall|j: int|
                0 <= j < c ==> byte_consistent((#[trigger] peers@[j]).decoder@, hist, schema)
                    && peers@[j].delayed is None,
        decreases clients - c,
    {
        peers.push(Client { decoder: ByteStateDecoder::new(name), delayed: None, joined: false });
        c = c + 1;
    }
    let join_window: usize = if updates < 97 {
        updates
    } else {
        97
    };
    let mut update: usize = 1;
    while update <= updates
        invariant
            1 <= update <= updates + 1,
            updates <= 10_000_000,
            clients <= 100_000,
            peers@.len() == clients,
            state@.len() == 4096,
            fast_wf(encoder@),
            encoder@.sequence == update - 1,
            encoder@.schema_hash == schema,
            encoder@.policy.smart_delta == policy,
            hist.len() == update - 1,
            uniform_states(hist, 4096),
            encoder@.previous == base_state(hist.push(state@), (hist.len() + 1) as int),
            hist.len() > 0 ==> state@ == hist[hist.len() - 1],
            forall|j: int|
                0 <= j < clients ==> byte_consistent((#[trigger] peers@[j]).decoder@, hist, schema) && (
                peers@[j].delayed matches Some(p) ==> byte_genuine(p@, hist, schema, policy)),
            report.clients == clients,
            report.updates == updates,
            report.converged == 0,
            1 <= join_window <= 97,
            report.drops <= (update - 1) * clients,
            report.duplicates <= (update - 1) * clients,
            report.corruptions <= (update - 1) * clients,
            report.reorders <= (update - 1) * clients,
            report.recoveries <= (update - 1) * clients,
            report.late_joins <= (update - 1) * clients,
            report.shared_recovery_snapshots <= update - 1,
        decreases updates + 1 - update,
    {
        if update > 1 {
            let i = (update * 97) % state.len();
            let bump = (update as u8).wrapping_add(1);
            let old = state[i];
            state.set(i, old ^ bump);
        }
        let ghost e0 = encoder@;
        let packet = encoder.encode(state.as_slice())?;
        let ghost h0 = hist;
        proof {
            assert forall|j: int| 0 <= j < clients implies byte_consistent(
                (#[trigger] peers@[j]).decoder@,
                h0.push(state@),
                schema,
            ) && (peers@[j].delayed matches Some(p) ==> byte_genuine(p@, h0.push(state@), schema, policy)) by {
                lemma_extend_history(peers@[j].decoder@, peers@[j].delayed, h0, state@, schema, policy);
            }
            let mode = crate::v30_sync::as_byte_mode(encoder@.last_decision->0.mode);
            lemma_advance(h0, state@, e0.previous, packet@, mode, encoder@.sequence, schema, policy);
            hist = h0.push(state@);
            assert(hist[hist.len() - 1] == state@);
            assert forall|i: int| 0 <= i < hist.len() implies (#[trigger] hist[i]).len() == 4096 by {
                if i < h0.len() {
                    assert(hist[i] == h0[i]);
                }
            }
        }
        let need_recovery = serve_clients(
            &mut peers,
            clients,
            update,
            join_window,
            &packet,
            &mut report,
            Ghost(hist),
            Ghost(schema),
            Ghost(policy),
        )?;
        if need_recovery.len() > 0 {
            let shared = encoder.recovery_snapshot(state.as_slice())?;
            proof {
                assert(hist[hist.len() - 1] == state@);
                assert(byte_genuine(shared@, hist, schema, policy));
            }
            report.shared_recovery_snapshots = report.shared_recovery_snapshots + 1;
            share_recovery(&mut peers, clients, &need_recovery, &shared, Ghost(hist), Ghost(schema), Ghost(policy))?;
        }
        proof {
            assert(base_state(hist.push(state@), (hist.len() + 1) as int) == Some(state@));
        }
        update = update + 1;
    }
    let final_snapshot = encoder.recovery_snapshot(state.as_slice())?;
    let mut id: usize = 0;
    while id < clients
        invariant
            id <= clients,
            peers@.len() == clients,
            report.clients == clients,
            report.updates == updates,
            report.converged == id,
            hist.len() == updates,
            hist.len() >= 1,
            uniform_states(hist, 4096),
            state@ == hist[hist.len() - 1],
            encoder@.sequence == updates,
            final_snapshot@ == snapshot_packet(hist.len() as u64, schema, hist[hist.len() - 1]),
            forall|j: int| id <= j < clients ==> byte_consistent((#[trigger] peers@[j]).decoder@, hist, schema),
        decreases clients - id,
    {
        let ghost before = peers@;
        let mut peer = peers.remove(id);
        proof {
            assert(peer == before[id as int]);
        }
        peer.delayed = None;
        let ghost d0 = peer.decoder@;
        let r = peer.decoder.apply(final_snapshot.duplicate());
        if let Err(e) = r {
            return Err(e);
        }
        proof {
            lemma_final_snapshot(d0, final_snapshot@, peer.decoder@, r, hist, schema);
        }
        let matches = match peer.decoder.state() {
            Some(s) => same_state(s, state.as_slice()),
            None => false,
        };
        if matches && peer.decoder.sequence() == Some(encoder.sequence()) {
            report.converged = report.converged + 1;
        }
        peers.insert(id, peer);
        proof {
            assert(peers@ =~= before.update(id as int, peer));
        }
        id = id + 1;
    }
    Ok(report)
}

} // verus!
