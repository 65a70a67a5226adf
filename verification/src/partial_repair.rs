//! Chunk-hash manifests and partial repairs: a receiver whose state drifted is
//! sent only the chunks whose hashes differ from the authoritative state.
use crate::buf::{copy_bytes, write_at};
use crate::error::{invalid_packet, DeltaError};
use crate::smart_delta::{chunk_end, lemma_chunk_bounds, lemma_chunk_of, num_chunks, resized};
use crate::sync::{fnv1a64, spec_fnv1a64};
use vstd::prelude::*;

verus! {

/// Hashes of the fixed-size chunks of a state.
#[derive(Debug, Clone, PartialEq, Eq)]
pub struct ChunkManifest {
    pub state_len: usize,
    pub chunk_size: usize,
    pub hashes: Vec<u64>,
}

/// The chunk size actually used for a requested one: at least one.
pub open spec fn at_least_one(n: usize) -> int {
    if n == 0 {
        1
    } else {
        n as int
    }
}

/// Chunk `c` of `state`.
pub open spec fn chunk_of(state: Seq<u8>, cs: int, c: int) -> Seq<u8> {
    state.subrange(c * cs, chunk_end(state.len() as int, cs, c))
}

/// Hashes of the first `n` chunks of `state`.
pub open spec fn chunk_hashes(state: Seq<u8>, cs: int, n: int) -> Seq<u64>
    decreases n,
{
    if n <= 0 {
        seq![]
    } else {
        chunk_hashes(state, cs, n - 1).push(spec_fnv1a64(chunk_of(state, cs, n - 1)))
    }
}

/// The entry at `i`, if any.
pub open spec fn entry_at(s: Seq<u64>, i: int) -> Option<u64> {
    if 0 <= i < s.len() {
        Some(s[i])
    } else {
        None
    }
}

/// Indices below `n` at which the two hash lists disagree (one of them missing counts).
pub open spec fn differing_upto(a: Seq<u64>, b: Seq<u64>, n: int) -> Seq<usize>
    decreases n,
{
    if n <= 0 {
        seq![]
    } else {
        differing_upto(a, b, n - 1) + if entry_at(a, n - 1) != entry_at(b, n - 1) {
            seq![(n - 1) as usize]
        } else {
            seq![]
        }
    }
}

impl ChunkManifest {
    /// The manifest of `state` in chunks of `chunk_size` bytes (at least one).
    pub fn build(state: &[u8], chunk_size: usize) -> (m: Self)
        ensures
            m.state_len == state@.len(),
            m.chunk_size == at_least_one(chunk_size),
            m.hashes@ == chunk_hashes(
                state@,
                at_least_one(chunk_size),
                num_chunks(state@.len() as int, at_least_one(chunk_size)),
            ),
    {
        let cs = if chunk_size == 0 {
            1
        } else {
            chunk_size
        };
        let len = state.len();
        assert(len % cs != 0 ==> len / cs < usize::MAX) by (nonlinear_arith)
            requires
                cs > 0,
                len <= usize::MAX,
        {
            if len % cs != 0 {
                assert(cs != 1);
                assert(len / cs <= len / 2);
            }
        }
        let chunks = len / cs + if len % cs != 0 {
            1
        } else {
            0
        };
        let mut hashes: Vec<u64> = Vec::new();
        let mut c: usize = 0;
        while c < chunks
            invariant
                cs > 0,
                len == state@.len(),
                chunks == num_chunks(len as int, cs as int),
                c <= chunks,
                hashes@ == chunk_hashes(state@, cs as int, c as int),
            decreases chunks - c,
        {
            proof {
                lemma_chunk_bounds(len as int, cs as int, c as int);
            }
            let start = c * cs;
            let end = if len - start <= cs {
                len
            } else {
                start + cs
            };
            let h = fnv1a64(&state[start..end]);
            hashes.push(h);
            c = c + 1;
        }
        ChunkManifest { state_len: len, chunk_size: cs, hashes }
    }

    /// Indices of the chunks whose hashes differ between the two manifests,
    /// counting a chunk present in only one of them as differing.
    pub fn differing_chunks(&self, other: &Self) -> (v: Vec<usize>)
        ensures
            v@ == differing_upto(
                self.hashes@,
                other.hashes@,
                if self.hashes@.len() >= other.hashes@.len() {
                    self.hashes@.len() as int
                } else {
                    other.hashes@.len() as int
                },
            ),
    {
        let max = if self.hashes.len() >= other.hashes.len() {
            self.hashes.len()
        } else {
            other.hashes.len()
        };
        let mut out: Vec<usize> = Vec::new();
        let mut i: usize = 0;
        while i < max
            invariant
                max == if self.hashes@.len() >= other.hashes@.len() {
                    self.hashes@.len()
                } else {
                    other.hashes@.len()
                },
                i <= max,
                out@ == differing_upto(self.hashes@, other.hashes@, i as int),
            decreases max - i,
        {
            let a = if i < self.hashes.len() {
                Some(self.hashes[i])
            } else {
                None
            };
            let b = if i < other.hashes.len() {
                Some(other.hashes[i])
            } else {
                None
            };
            let differs = match (a, b) {
                (Some(x), Some(y)) => x != y,
                (None, None) => false,
                _ => true,
            };
            if differs {
                out.push(i);
            }
            i = i + 1;
            assert(out@ =~= differing_upto(self.hashes@, other.hashes@, i as int));
        }
        out
    }
}

/// The replacement bytes of one chunk.
#[derive(Debug, Clone, PartialEq, Eq)]
pub struct ChunkPatch {
    pub index: usize,
    pub bytes: Vec<u8>,
}

/// The contents of a patch.
pub struct PatchView {
    pub index: usize,
    pub bytes: Seq<u8>,
}

/// The contents of a list of patches.
pub open spec fn patch_views(ps: Seq<ChunkPatch>) -> Seq<PatchView> {
    ps.map_values(|p: ChunkPatch| PatchView { index: p.index, bytes: p.bytes@ })
}

/// A repair that turns a drifted state into the authoritative one.
#[derive(Debug, Clone, PartialEq, Eq)]
pub struct PartialRepair {
    pub target_len: usize,
    pub chunk_size: usize,
    pub target_hash: u64,
    pub patches: Vec<ChunkPatch>,
}

/// The patch for chunk `index` of `authoritative`: its bytes, or nothing when the
/// chunk starts past the end; `None` when its offset overflows.
pub open spec fn patch_for(index: usize, authoritative: Seq<u8>, cs: int) -> Option<PatchView> {
    let start = index * cs;
    if start > usize::MAX {
        None
    } else if start >= authoritative.len() {
        Some(PatchView { index, bytes: seq![] })
    } else {
        Some(PatchView { index, bytes: chunk_of(authoritative, cs, index as int) })
    }
}

/// The patches for the first `k` of the given chunk indices.
pub open spec fn patches_for(idx: Seq<usize>, authoritative: Seq<u8>, cs: int, k: int) -> Seq<PatchView>
    decreases k,
{
    if k <= 0 {
        seq![]
    } else {
        patches_for(idx, authoritative, cs, k - 1) + match patch_for(idx[k - 1], authoritative, cs) {
            Some(p) => seq![p],
            None => seq![],
        }
    }
}

/// The indices of the chunks a repair from `receiver` to `authoritative` replaces.
pub open spec fn repair_indices(receiver: Seq<u8>, authoritative: Seq<u8>, cs: int) -> Seq<usize> {
    let a = chunk_hashes(receiver, cs, num_chunks(receiver.len() as int, cs));
    let b = chunk_hashes(authoritative, cs, num_chunks(authoritative.len() as int, cs));
    differing_upto(a, b, if a.len() >= b.len() {
        a.len() as int
    } else {
        b.len() as int
    })
}

/// Why applying a repair failed.
pub enum RepairFailure {
    IndexOverflow,
    LengthOverflow,
    OutOfBounds,
    HashMismatch,
}

/// Writing the first `k` patches into `out0`.
pub open spec fn repair_fold(patches: Seq<PatchView>, cs: int, out0: Seq<u8>, k: int) -> Result<
    Seq<u8>,
    RepairFailure,
>
    decreases k,
{
    if k <= 0 {
        Ok(out0)
    } else {
        match repair_fold(patches, cs, out0, k - 1) {
            Err(f) => Err(f),
            Ok(out) => {
                let p = patches[k - 1];
                let start = p.index * cs;
                let end = start + p.bytes.len();
                if start > usize::MAX {
                    Err(RepairFailure::IndexOverflow)
                } else if p.bytes.len() == 0 && start >= out.len() {
                    Ok(out)
                } else if end > usize::MAX {
                    Err(RepairFailure::LengthOverflow)
                } else if end > out.len() {
                    Err(RepairFailure::OutOfBounds)
                } else {
                    Ok(out.take(start) + p.bytes + out.skip(end))
                }
            },
        }
    }
}

/// Applying a repair to `base`: resize to the target length, write every patch
/// in order, then require the target hash.
pub open spec fn repair_apply(
    target_len: usize,
    cs: usize,
    target_hash: u64,
    patches: Seq<PatchView>,
    base: Seq<u8>,
) -> Result<Seq<u8>, RepairFailure> {
    match repair_fold(patches, cs as int, resized(base, target_len as int), patches.len() as int) {
        Err(f) => Err(f),
        Ok(out) => if spec_fnv1a64(out) != target_hash {
            Err(RepairFailure::HashMismatch)
        } else {
            Ok(out)
        },
    }
}

/// Total replacement bytes of the first `k` patches.
pub open spec fn patch_bytes_total(patches: Seq<PatchView>, k: int) -> int
    decreases k,
{
    if k <= 0 {
        0
    } else {
        patch_bytes_total(patches, k - 1) + patches[k - 1].bytes.len()
    }
}

impl PartialRepair {
    /// The repair from `receiver_state` to `authoritative`: one patch per chunk
    /// whose hash differs, carrying the authoritative bytes of that chunk.
    pub fn build(receiver_state: &[u8], authoritative: &[u8], chunk_size: usize) -> (r: Self)
        ensures
            r.target_len == authoritative@.len(),
            r.chunk_size == at_least_one(chunk_size),
            r.target_hash == spec_fnv1a64(authoritative@),
            ({
                let cs = at_least_one(chunk_size);
                let idx = repair_indices(receiver_state@, authoritative@, cs);
                patch_views(r.patches@) == patches_for(idx, authoritative@, cs, idx.len() as int)
            }),
    {
        let cs = if chunk_size == 0 {
            1
        } else {
            chunk_size
        };
        let receiver = ChunkManifest::build(receiver_state, cs);
        let target = ChunkManifest::build(authoritative, cs);
        let indices = receiver.differing_chunks(&target);
        let ghost idx = indices@;
        let len = authoritative.len();
        let mut patches: Vec<ChunkPatch> = Vec::new();
        let mut k: usize = 0;
        while k < indices.len()
            invariant
                cs > 0,
                len == authoritative@.len(),
                idx == indices@,
                k <= idx.len(),
                patch_views(patches@) == patches_for(idx, authoritative@, cs as int, k as int),
            decreases idx.len() - k,
        {
            let index = indices[k];
            let ghost before = patches@;
            match index.checked_mul(cs) {
                None => {},
                Some(start) => {
                    if start >= len {
                        patches.push(ChunkPatch { index, bytes: Vec::new() });
                    } else {
                        let end = if len - start <= cs {
                            len
                        } else {
                            start + cs
                        };
                        patches.push(ChunkPatch { index, bytes: copy_bytes(&authoritative[start..end]) });
                    }
                },
            }
            k = k + 1;
            assert(patch_views(patches@) =~= patches_for(idx, authoritative@, cs as int, k as int));
        }
        PartialRepair { target_len: len, chunk_size: cs, target_hash: fnv1a64(authoritative), patches }
    }

    /// Applies the repair to `base`.
    pub fn apply(&self, base: &[u8]) -> (res: Result<Vec<u8>, DeltaError>)
        ensures
            match repair_apply(
                self.target_len,
                self.chunk_size,
                self.target_hash,
                patch_views(self.patches@),
                base@,
            ) {
                Ok(out) => res matches Ok(v) && v@ == out,
                Err(RepairFailure::OutOfBounds) => res matches Err(e) && e is InvalidPacket,
                Err(_) => res matches Err(e) && e is InvalidState,
            },
    {
        let ghost ps = patch_views(self.patches@);
        let mut out = copy_bytes(base);
        out.resize(self.target_len, 0u8);
        assert(out@ =~= resized(base@, self.target_len as int));
        let ghost out0 = out@;
        let mut k: usize = 0;
        while k < self.patches.len()
            invariant
                ps == patch_views(self.patches@),
                k <= self.patches@.len(),
                out0 == resized(base@, self.target_len as int),
                repair_fold(ps, self.chunk_size as int, out0, k as int) == Ok::<
                    Seq<u8>,
                    RepairFailure,
                >(out@),
            decreases self.patches@.len() - k,
        {
            let patch = &self.patches[k];
            assert(ps[k as int] == PatchView { index: patch.index, bytes: patch.bytes@ });
            let start = match patch.index.checked_mul(self.chunk_size) {
                Some(s) => s,
                None => {
                    proof {
                        lemma_repair_fold_err(ps, self.chunk_size as int, out0, k + 1, ps.len() as int);
                    }
                    return Err(DeltaError::InvalidState("chunk index overflow"));
                },
            };
            if patch.bytes.len() == 0 && start >= out.len() {
                k = k + 1;
            } else {
                let end = match start.checked_add(patch.bytes.len()) {
                    Some(e) => e,
                    None => {
                        proof {
                            lemma_repair_fold_err(ps, self.chunk_size as int, out0, k + 1, ps.len() as int);
                        }
                        return Err(DeltaError::InvalidState("chunk length overflow"));
                    },
                };
                if end > out.len() {
                    proof {
                        lemma_repair_fold_err(ps, self.chunk_size as int, out0, k + 1, ps.len() as int);
                    }
                    return Err(invalid_packet("partial repair chunk out of bounds"));
                }
                write_at(&mut out, start, patch.bytes.as_slice());
                k = k + 1;
            }
        }
        if fnv1a64(out.as_slice()) != self.target_hash {
            return Err(DeltaError::InvalidState("partial repair hash mismatch"));
        }
        Ok(out)
    }

    /// Total bytes the patches carry.
    pub fn payload_bytes(&self) -> (n: usize)
        requires
            patch_bytes_total(patch_views(self.patches@), self.patches@.len() as int) <= usize::MAX,
        ensures
            n == patch_bytes_total(patch_views(self.patches@), self.patches@.len() as int),
    {
        let ghost ps = patch_views(self.patches@);
        let mut total: usize = 0;
        let mut k: usize = 0;
        while k < self.patches.len()
            invariant
                ps == patch_views(self.patches@),
                k <= self.patches@.len(),
                total == patch_bytes_total(ps, k as int),
                patch_bytes_total(ps, self.patches@.len() as int) <= usize::MAX,
            decreases self.patches@.len() - k,
        {
            proof {
                lemma_total_monotone(ps, k + 1, self.patches@.len() as int);
            }
            assert(ps[k as int].bytes == self.patches@[k as int].bytes@);
            total = total + self.patches[k].bytes.len();
            k = k + 1;
        }
        total
    }
}

proof fn lemma_repair_fold_err(ps: Seq<PatchView>, cs: int, out0: Seq<u8>, m: int, n: int)
    requires
        0 <= m <= n,
        repair_fold(ps, cs, out0, m) is Err,
    ensures
        repair_fold(ps, cs, out0, n) == repair_fold(ps, cs, out0, m),
    decreases n - m,
{
    if m < n {
        lemma_repair_fold_err(ps, cs, out0, m, n - 1);
    }
}

proof fn lemma_total_monotone(ps: Seq<PatchView>, j: int, k: int)
    requires
        0 <= j <= k,
    ensures
        patch_bytes_total(ps, j) <= patch_bytes_total(ps, k),
    decreases k - j,
{
    if j < k {
        lemma_total_monotone(ps, j, k - 1);
    }
}


proof fn lemma_differing_sorted(a: Seq<u64>, b: Seq<u64>, n: int)
    requires
        0 <= n <= usize::MAX,
    ensures
        forall|i: int|
            0 <= i < differing_upto(a, b, n).len() ==> #[trigger] differing_upto(a, b, n)[i] < n,
        forall|i: int, j: int|
            0 <= i < j < differing_upto(a, b, n).len() ==> #[trigger] differing_upto(a, b, n)[i]
                < #[trigger] differing_upto(a, b, n)[j],
    decreases n,
{
    if n > 0 {
        lemma_differing_sorted(a, b, n - 1);
        let d0 = differing_upto(a, b, n - 1);
        let d = differing_upto(a, b, n);
        assert forall|i: int| 0 <= i < d.len() implies #[trigger] d[i] < n by {
            if i < d0.len() {
                assert(d[i] == d0[i]);
            }
        }
        assert forall|i: int, j: int| 0 <= i < j < d.len() implies #[trigger] d[i] < #[trigger] d[j] by {
            assert(d[i] == d0[i]);
            assert(d0[i] < n - 1);
            if j < d0.len() {
                assert(d[j] == d0[j]);
            } else {
                assert(d[j] == (n - 1) as usize);
            }
        }
    }
}

proof fn lemma_total_same(s1: Seq<PatchView>, s2: Seq<PatchView>, n: int)
    requires
        0 <= n <= s1.len(),
        n <= s2.len(),
        forall|i: int| 0 <= i < n ==> s1[i] == s2[i],
    ensures
        patch_bytes_total(s1, n) == patch_bytes_total(s2, n),
    decreases n,
{
    if n > 0 {
        lemma_total_same(s1, s2, n - 1);
    }
}

/// Upper end of the chunk holding the `k`-th index, capped at `len`.
spec fn total_bound(idx: Seq<usize>, len: int, cs: int, k: int) -> int {
    if k <= 0 {
        0
    } else if idx[k - 1] * cs + cs <= len {
        idx[k - 1] * cs + cs
    } else {
        len
    }
}

proof fn lemma_patches_total(idx: Seq<usize>, a: Seq<u8>, cs: int, k: int)
    requires
        cs > 0,
        0 <= k <= idx.len(),
        forall|i: int, j: int| 0 <= i < j < idx.len() ==> #[trigger] idx[i] < #[trigger] idx[j],
    ensures
        patch_bytes_total(patches_for(idx, a, cs, k), patches_for(idx, a, cs, k).len() as int)
            <= total_bound(idx, a.len() as int, cs, k),
        0 <= total_bound(idx, a.len() as int, cs, k) <= a.len(),
    decreases k,
{
    if k > 0 {
        lemma_patches_total(idx, a, cs, k - 1);
        let p0 = patches_for(idx, a, cs, k - 1);
        let p = patches_for(idx, a, cs, k);
        let c = idx[k - 1] as int;
        let len = a.len() as int;
        let b0 = total_bound(idx, len, cs, k - 1);
        assert(b0 <= len && b0 <= c * cs) by {
            if k > 1 {
                let prev = idx[k - 2] as int;
                assert(prev < c);
                assert(prev * cs + cs <= c * cs) by (nonlinear_arith)
                    requires
                        prev < c,
                        cs > 0,
                ;
            }
            assert(0 <= c * cs) by (nonlinear_arith)
                requires
                    c >= 0,
                    cs > 0,
            ;
        }
        match patch_for(idx[k - 1], a, cs) {
            None => {
                assert(p =~= p0);
            },
            Some(q) => {
                assert(p =~= p0.push(q));
                lemma_total_same(p, p0, p0.len() as int);
                if c * cs < len {
                    let e = chunk_end(len, cs, c);
                    assert(q.bytes.len() == e - c * cs);
                }
            },
        }
    }
}

proof fn lemma_chunk_hashes_len(state: Seq<u8>, cs: int, n: int)
    requires
        n >= 0,
    ensures
        chunk_hashes(state, cs, n).len() == n,
    decreases n,
{
    if n > 0 {
        lemma_chunk_hashes_len(state, cs, n - 1);
    }
}

proof fn lemma_num_chunks_le(len: int, cs: int)
    requires
        len >= 0,
        cs > 0,
    ensures
        0 <= num_chunks(len, cs) <= len,
{
    assert(0 <= len / cs && len / cs * cs <= len && len % cs == len - len / cs * cs) by (nonlinear_arith)
        requires
            len >= 0,
            cs > 0,
    ;
    if len % cs != 0 {
        assert(len / cs < len) by (nonlinear_arith)
            requires
                len >= 0,
                cs > 0,
                len % cs != 0,
                len / cs * cs <= len,
                len % cs == len - len / cs * cs,
        {
            if cs == 1 {
                assert(len % cs == 0);
            }
        }
    } else {
        assert(len / cs <= len) by (nonlinear_arith)
            requires
                len >= 0,
                cs > 0,
        ;
    }
}

/// A partial repair never carries more bytes than the authoritative state.
pub proof fn lemma_repair_payload_bounded(receiver: Seq<u8>, authoritative: Seq<u8>, cs: int)
    requires
        cs > 0,
        receiver.len() <= usize::MAX,
        authoritative.len() <= usize::MAX,
    ensures
        ({
            let idx = repair_indices(receiver, authoritative, cs);
            let ps = patches_for(idx, authoritative, cs, idx.len() as int);
            patch_bytes_total(ps, ps.len() as int) <= authoritative.len()
        }),
{
    let a = chunk_hashes(receiver, cs, num_chunks(receiver.len() as int, cs));
    let b = chunk_hashes(authoritative, cs, num_chunks(authoritative.len() as int, cs));
    let n = if a.len() >= b.len() {
        a.len() as int
    } else {
        b.len() as int
    };
    lemma_num_chunks_le(receiver.len() as int, cs);
    lemma_num_chunks_le(authoritative.len() as int, cs);
    lemma_chunk_hashes_len(receiver, cs, num_chunks(receiver.len() as int, cs));
    lemma_chunk_hashes_len(authoritative, cs, num_chunks(authoritative.len() as int, cs));
    lemma_differing_sorted(a, b, n);
    let idx = repair_indices(receiver, authoritative, cs);
    lemma_patches_total(idx, authoritative, cs, idx.len() as int);
}


/// Chunks at the same index of the two states that hash alike are the same bytes.
pub open spec fn no_chunk_collisions(receiver: Seq<u8>, authoritative: Seq<u8>, cs: int) -> bool {
    forall|c: int|
        #![trigger chunk_of(receiver, cs, c), chunk_of(authoritative, cs, c)]
        0 <= c < num_chunks(receiver.len() as int, cs) && c < num_chunks(authoritative.len() as int, cs)
            && spec_fnv1a64(chunk_of(receiver, cs, c)) == spec_fnv1a64(chunk_of(authoritative, cs, c))
            ==> chunk_of(receiver, cs, c) == chunk_of(authoritative, cs, c)
}

proof fn lemma_chunk_hashes_at(state: Seq<u8>, cs: int, n: int, c: int)
    requires
        0 <= c < n,
    ensures
        chunk_hashes(state, cs, n)[c] == spec_fnv1a64(chunk_of(state, cs, c)),
    decreases n,
{
    lemma_chunk_hashes_len(state, cs, n - 1);
    if c < n - 1 {
        lemma_chunk_hashes_at(state, cs, n - 1, c);
    }
}

proof fn lemma_differing_contains(a: Seq<u64>, b: Seq<u64>, n: int, c: int)
    requires
        0 <= c < n <= usize::MAX,
    ensures
        differing_upto(a, b, n).contains(c as usize) <==> entry_at(a, c) != entry_at(b, c),
    decreases n,
{
    let d0 = differing_upto(a, b, n - 1);
    let d = differing_upto(a, b, n);
    lemma_differing_sorted(a, b, n - 1);
    if c < n - 1 {
        lemma_differing_contains(a, b, n - 1, c);
        if d.contains(c as usize) {
            let j = choose|j: int| 0 <= j < d.len() && d[j] == c as usize;
            if j >= d0.len() {
                assert(d[j] == (n - 1) as usize);
            } else {
                assert(d0[j] == d[j]);
            }
        }
        if d0.contains(c as usize) {
            let j = choose|j: int| 0 <= j < d0.len() && d0[j] == c as usize;
            assert(d[j] == d0[j]);
        }
    } else {
        if d.contains(c as usize) {
            let j = choose|j: int| 0 <= j < d.len() && d[j] == c as usize;
            if j < d0.len() {
                assert(d0[j] == d[j]);
                assert(d0[j] < n - 1);
            }
        }
        if entry_at(a, c) != entry_at(b, c) {
            assert(d[d0.len() as int] == c as usize);
        }
    }
}

proof fn lemma_fold_prefix(ps: Seq<PatchView>, qs: Seq<PatchView>, cs: int, out0: Seq<u8>, j: int)
    requires
        0 <= j <= ps.len(),
        j <= qs.len(),
        forall|i: int| 0 <= i < j ==> ps[i] == qs[i],
    ensures
        repair_fold(ps, cs, out0, j) == repair_fold(qs, cs, out0, j),
    decreases j,
{
    if j > 0 {
        lemma_fold_prefix(ps, qs, cs, out0, j - 1);
    }
}

proof fn lemma_in_chunk(cs: int, c: int, i: int)
    requires
        cs > 0,
        c >= 0,
        c * cs <= i < c * cs + cs,
    ensures
        i / cs == c,
{
    assert(i / cs == c) by (nonlinear_arith)
        requires
            cs > 0,
            c >= 0,
            c * cs <= i < c * cs + cs,
    ;
}

/// Writing the patches of the first `k` chunk indices over `out0` gives the
/// authoritative bytes in exactly the chunks listed so far.
proof fn lemma_fold_patches(idx: Seq<usize>, a: Seq<u8>, cs: int, out0: Seq<u8>, k: int) -> (o: Seq<u8>)
    requires
        cs > 0,
        a.len() <= usize::MAX,
        out0.len() == a.len(),
        0 <= k <= idx.len(),
    ensures
        repair_fold(patches_for(idx, a, cs, k), cs, out0, patches_for(idx, a, cs, k).len() as int) == Ok::<
            Seq<u8>,
            RepairFailure,
        >(o),
        o.len() == a.len(),
        forall|i: int|
            0 <= i < a.len() ==> #[trigger] o[i] == if idx.take(k).contains((i / cs) as usize) {
                a[i]
            } else {
                out0[i]
            },
    decreases k,
{
    if k == 0 {
        assert(idx.take(0) =~= Seq::<usize>::empty());
        out0
    } else {
        let prev = lemma_fold_patches(idx, a, cs, out0, k - 1);
        let p0 = patches_for(idx, a, cs, k - 1);
        let p = patches_for(idx, a, cs, k);
        let c = idx[k - 1];
        assert(idx.take(k) =~= idx.take(k - 1).push(c));
        assert forall|x: usize| #[trigger] idx.take(k).contains(x) <==> (idx.take(k - 1).contains(x) || x == c) by {
            let t1 = idx.take(k);
            let t0 = idx.take(k - 1);
            if t1.contains(x) {
                let j = choose|j: int| 0 <= j < t1.len() && t1[j] == x;
                if j < k - 1 {
                    assert(t0[j] == x);
                }
            }
            if t0.contains(x) {
                let j = choose|j: int| 0 <= j < t0.len() && t0[j] == x;
                assert(t1[j] == x);
            }
            if x == c {
                assert(t1[k - 1] == x);
            }
        }
        match patch_for(c, a, cs) {
            None => {
                assert(p =~= p0);
                assert forall|i: int| 0 <= i < a.len() implies #[trigger] prev[i] == if idx.take(k).contains(
                    (i / cs) as usize,
                ) {
                    a[i]
                } else {
                    out0[i]
                } by {
                    lemma_chunk_of(a.len() as int, cs, i);
                    assert((i / cs) * cs <= i);
                    if (i / cs) as usize == c {
                        assert(c * cs <= i);
                    }
                }
                prev
            },
            Some(q) => {
                assert(p =~= p0.push(q));
                let m = p0.len() as int;
                lemma_fold_prefix(p, p0, cs, out0, m);
                assert(p[m] == q);
                assert(0 <= c * cs) by (nonlinear_arith)
                    requires
                        cs > 0,
                ;
                if c * cs >= a.len() {
                    assert forall|i: int| 0 <= i < a.len() implies #[trigger] prev[i] == if idx.take(k).contains(
                        (i / cs) as usize,
                    ) {
                        a[i]
                    } else {
                        out0[i]
                    } by {
                        lemma_chunk_of(a.len() as int, cs, i);
                        if (i / cs) as usize == c {
                            assert((i / cs) * cs <= i);
                        }
                    }
                    prev
                } else {
                    let start = c * cs;
                    let end = chunk_end(a.len() as int, cs, c as int);
                    assert(q.bytes == a.subrange(start, end));
                    assert(start < end <= a.len());
                    let o = prev.take(start) + q.bytes + prev.skip(end);
                    assert(repair_fold(p, cs, out0, m + 1) == Ok::<Seq<u8>, RepairFailure>(o));
                    assert forall|i: int| 0 <= i < a.len() implies #[trigger] o[i] == if idx.take(k).contains(
                        (i / cs) as usize,
                    ) {
                        a[i]
                    } else {
                        out0[i]
                    } by {
                        lemma_chunk_of(a.len() as int, cs, i);
                        if start <= i < end {
                            assert(end <= start + cs);
                            lemma_in_chunk(cs, c as int, i);
                            assert(o[i] == q.bytes[i - start]);
                        } else {
                            if (i / cs) as usize == c {
                                assert((i / cs) * cs <= i < chunk_end(a.len() as int, cs, i / cs));
                            }
                            if i < start {
                                assert(o[i] == prev[i]);
                            } else {
                                assert(o[i] == prev.skip(end)[i - end]);
                            }
                        }
                    }
                    o
                }
            },
        }
    }
}

/// Exact repair: applying the repair built from a receiver's state to the
/// authoritative state, on that receiver's state, gives the authoritative
/// state, whenever no chunk of the receiver collides in hash with a different
/// chunk of the authoritative state at the same index.
pub proof fn lemma_repair_exact(receiver: Seq<u8>, authoritative: Seq<u8>, cs: int)
    requires
        0 < cs <= usize::MAX,
        receiver.len() <= usize::MAX,
        authoritative.len() <= usize::MAX,
        no_chunk_collisions(receiver, authoritative, cs),
    ensures
        ({
            let idx = repair_indices(receiver, authoritative, cs);
            repair_apply(
                authoritative.len() as usize,
                cs as usize,
                spec_fnv1a64(authoritative),
                patches_for(idx, authoritative, cs, idx.len() as int),
                receiver,
            ) == Ok::<Seq<u8>, RepairFailure>(authoritative)
        }),
{
    let r = receiver;
    let a = authoritative;
    let ra = chunk_hashes(r, cs, num_chunks(r.len() as int, cs));
    let aa = chunk_hashes(a, cs, num_chunks(a.len() as int, cs));
    lemma_num_chunks_le(r.len() as int, cs);
    lemma_num_chunks_le(a.len() as int, cs);
    lemma_chunk_hashes_len(r, cs, num_chunks(r.len() as int, cs));
    lemma_chunk_hashes_len(a, cs, num_chunks(a.len() as int, cs));
    let n = if ra.len() >= aa.len() {
        ra.len() as int
    } else {
        aa.len() as int
    };
    let idx = repair_indices(r, a, cs);
    let out0 = resized(r, a.len() as int);
    let o = lemma_fold_patches(idx, a, cs, out0, idx.len() as int);
    assert(idx.take(idx.len() as int) =~= idx);
    assert forall|i: int| 0 <= i < a.len() implies #[trigger] o[i] == a[i] by {
        lemma_chunk_of(a.len() as int, cs, i);
        let c = i / cs;
        if !idx.contains(c as usize) {
            lemma_differing_contains(ra, aa, n, c);
            lemma_chunk_hashes_at(a, cs, num_chunks(a.len() as int, cs), c);
            assert(entry_at(ra, c) == entry_at(aa, c));
            assert(c < ra.len());
            lemma_chunk_hashes_at(r, cs, num_chunks(r.len() as int, cs), c);
            assert(chunk_of(r, cs, c) == chunk_of(a, cs, c));
            lemma_chunk_bounds(r.len() as int, cs, c);
            lemma_chunk_bounds(a.len() as int, cs, c);
            assert(chunk_of(r, cs, c).len() == chunk_of(a, cs, c).len());
            assert(i < r.len());
            assert(chunk_of(r, cs, c)[i - c * cs] == r[i]);
            assert(chunk_of(a, cs, c)[i - c * cs] == a[i]);
            assert(out0[i] == r[i]);
        }
    }
    assert(o =~= a);
}


/// Writing patches never changes the length: every write stays within bounds.
proof fn lemma_repair_fold_len(patches: Seq<PatchView>, cs: int, out0: Seq<u8>, k: int)
    requires
        cs >= 0,
    ensures
        repair_fold(patches, cs, out0, k) matches Ok(out) ==> out.len() == out0.len(),
    decreases k,
{
    if k > 0 {
        lemma_repair_fold_len(patches, cs, out0, k - 1);
        if let Ok(out) = repair_fold(patches, cs, out0, k - 1) {
            let p = patches[k - 1];
            let start = p.index * cs;
            let end = start + p.bytes.len();
            if start <= usize::MAX && !(p.bytes.len() == 0 && start >= out.len()) && end <= usize::MAX && end
                <= out.len() {
                assert(p.index * cs >= 0) by (nonlinear_arith)
                    requires
                        p.index >= 0,
                        cs >= 0,
                ;
                assert((out.take(start) + p.bytes + out.skip(end)).len() == out.len());
            }
        }
    }
}

/// Any repaired state has the repair's target length.
pub proof fn lemma_repair_output_len(
    target_len: usize,
    cs: usize,
    target_hash: u64,
    patches: Seq<PatchView>,
    base: Seq<u8>,
)
    ensures
        repair_apply(target_len, cs, target_hash, patches, base) matches Ok(out) ==> out.len() == target_len,
{
    lemma_repair_fold_len(patches, cs as int, resized(base, target_len as int), patches.len() as int);
}

} // verus!
