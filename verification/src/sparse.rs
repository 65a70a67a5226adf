//! The plain sparse byte delta used as a benchmark baseline: the number of
//! changed positions, then for each the distance from the previous changed
//! position and the new byte.
use crate::error::{invalid_packet, DeltaError};
use crate::packet::{logical_of, logical_payload_matches, DecodeConfig, Packet, PacketKind};
use crate::varint::{lemma_varint_roundtrip, put_var_u64, read_var_u64, read_varint, varint_bytes};
use vstd::prelude::*;

verus! {

/// The positions below `n` where `prev` and `cur` differ, with the new bytes.
pub open spec fn changes_upto(prev: Seq<u8>, cur: Seq<u8>, n: nat) -> Seq<(int, u8)>
    decreases n,
{
    if n == 0 {
        Seq::empty()
    } else {
        let c = changes_upto(prev, cur, (n - 1) as nat);
        if prev[n - 1] != cur[n - 1] {
            c.push((n - 1, cur[n - 1]))
        } else {
            c
        }
    }
}

/// The shorter of the two lengths.
pub open spec fn common_len(prev: Seq<u8>, cur: Seq<u8>) -> nat {
    if prev.len() < cur.len() {
        prev.len()
    } else {
        cur.len()
    }
}

/// Distance of the `j`-th change from the previous one (from zero for the first).
pub open spec fn gap(ch: Seq<(int, u8)>, j: int) -> int {
    if j == 0 {
        ch[0].0
    } else {
        ch[j].0 - ch[j - 1].0
    }
}

/// The encoding of the first `k` changes.
pub open spec fn entries_bytes(ch: Seq<(int, u8)>, k: nat) -> Seq<u8>
    decreases k,
{
    if k == 0 {
        Seq::empty()
    } else {
        entries_bytes(ch, (k - 1) as nat) + varint_bytes(gap(ch, k - 1) as u64) + seq![ch[k - 1].1]
    }
}

/// The sparse delta from `prev` to `cur` over their common length.
pub open spec fn sparse_bytes(prev: Seq<u8>, cur: Seq<u8>) -> Seq<u8> {
    let ch = changes_upto(prev, cur, common_len(prev, cur));
    varint_bytes(ch.len() as u64) + entries_bytes(ch, ch.len())
}

/// `a + b` saturating at `usize::MAX`.
pub open spec fn sat_usize(a: int, b: int) -> int {
    if a + b > usize::MAX {
        usize::MAX as int
    } else {
        a + b
    }
}

/// Applies `remaining` entries starting at `cursor` (the `n`-th entry next,
/// after position `prev_idx`): the state after the entries that applied, and
/// whether every entry applied and the payload ended exactly after them.
pub open spec fn apply_from(
    s: Seq<u8>,
    p: Seq<u8>,
    cursor: int,
    remaining: nat,
    n: nat,
    prev_idx: int,
) -> (Seq<u8>, bool)
    decreases remaining,
{
    if remaining == 0 {
        (s, cursor == p.len())
    } else {
        match read_varint(p, cursor) {
            None => (s, false),
            Some((d, c1)) => {
                let idx = if n == 0 {
                    d as usize as int
                } else {
                    sat_usize(prev_idx, d as usize as int)
                };
                if c1 >= p.len() || idx >= s.len() {
                    (s, false)
                } else {
                    apply_from(s.update(idx, p[c1]), p, c1 + 1, (remaining - 1) as nat, n + 1, idx)
                }
            },
        }
    }
}

/// Applying a sparse delta to `s`: the resulting state (partly updated when
/// the payload turns out bad) and whether it was well formed.
pub open spec fn sparse_apply(s: Seq<u8>, p: Seq<u8>) -> (Seq<u8>, bool) {
    match read_varint(p, 0) {
        None => (s, false),
        Some((count, c0)) => apply_from(s, p, c0, count as usize as nat, 0, 0),
    }
}

proof fn lemma_changes_props(prev: Seq<u8>, cur: Seq<u8>, n: nat)
    requires
        n <= prev.len(),
        n <= cur.len(),
    ensures
        changes_upto(prev, cur, n).len() <= n,
        forall|j: int|
            0 <= j < changes_upto(prev, cur, n).len() ==> 0 <= #[trigger] changes_upto(prev, cur, n)[j].0
                < n,
        forall|j: int, k: int|
            0 <= j < k < changes_upto(prev, cur, n).len() ==> #[trigger] changes_upto(prev, cur, n)[j].0
                < #[trigger] changes_upto(prev, cur, n)[k].0,
        forall|j: int|
            0 <= j < changes_upto(prev, cur, n).len() ==> cur[#[trigger] changes_upto(prev, cur, n)[j].0]
                == changes_upto(prev, cur, n)[j].1,
        forall|i: int|
            0 <= i < n && prev[i] != cur[i] ==> exists|j: int|
                0 <= j < changes_upto(prev, cur, n).len() && #[trigger] changes_upto(prev, cur, n)[j].0 == i,
    decreases n,
{
    if n > 0 {
        lemma_changes_props(prev, cur, (n - 1) as nat);
        let c = changes_upto(prev, cur, (n - 1) as nat);
        if prev[n - 1] != cur[n - 1] {
            let d = c.push((n - 1, cur[n - 1]));
            assert forall|i: int| 0 <= i < n && prev[i] != cur[i] implies exists|j: int|
                0 <= j < d.len() && #[trigger] d[j].0 == i by {
                if i == n - 1 {
                    assert(d[c.len() as int].0 == i);
                } else {
                    let j = choose|j: int| 0 <= j < c.len() && #[trigger] c[j].0 == i;
                    assert(d[j].0 == i);
                }
            }
        }
    }
}

/// Encodes the sparse delta from `previous` to `current` over their common length.
pub fn encode_sparse_byte_delta(previous: &[u8], current: &[u8]) -> (out: Vec<u8>)
    ensures
        out@ == sparse_bytes(previous@, current@),
{
    let n = if previous.len() < current.len() {
        previous.len()
    } else {
        current.len()
    };
    let mut changes: Vec<(usize, u8)> = Vec::new();
    let mut i: usize = 0;
    while i < n
        invariant
            n == common_len(previous@, current@),
            n <= previous@.len(),
            n <= current@.len(),
            i <= n,
            changes@.len() == changes_upto(previous@, current@, i as nat).len(),
            forall|j: int|
                0 <= j < changes@.len() ==> (#[trigger] changes@[j]).0 as int == changes_upto(
                    previous@,
                    current@,
                    i as nat,
                )[j].0 && changes@[j].1 == changes_upto(previous@, current@, i as nat)[j].1,
        decreases n - i,
    {
        if previous[i] != current[i] {
            changes.push((i, current[i]));
        }
        i = i + 1;
    }
    let ghost ch = changes_upto(previous@, current@, n as nat);
    proof {
        lemma_changes_props(previous@, current@, n as nat);
    }
    let mut out: Vec<u8> = Vec::new();
    put_var_u64(&mut out, changes.len() as u64);
    let mut previous_index: usize = 0;
    let mut k: usize = 0;
    while k < changes.len()
        invariant
            ch == changes_upto(previous@, current@, n as nat),
            changes@.len() == ch.len(),
            forall|j: int| 0 <= j < changes@.len() ==> (#[trigger] changes@[j]).0 as int == ch[j].0 && changes@[j].1 == ch[j].1,
            forall|j: int, l: int| 0 <= j < l < ch.len() ==> #[trigger] ch[j].0 < #[trigger] ch[l].0,
            forall|j: int| 0 <= j < ch.len() ==> 0 <= #[trigger] ch[j].0,
            k <= changes@.len(),
            k > 0 ==> previous_index as int == ch[k - 1].0,
            out@ == varint_bytes(ch.len() as u64) + entries_bytes(ch, k as nat),
        decreases changes@.len() - k,
    {
        let (index, value) = changes[k];
        let index_delta = if k == 0 {
            index
        } else {
            index - previous_index
        };
        put_var_u64(&mut out, index_delta as u64);
        out.push(value);
        proof {
            assert(out@ =~= varint_bytes(ch.len() as u64) + entries_bytes(ch, (k + 1) as nat));
        }
        previous_index = index;
        k = k + 1;
    }
    out
}

/// Applies a sparse delta to `state` in place. Entries apply one by one, so a
/// malformed payload may leave the earlier entries applied.
pub fn apply_sparse_byte_delta(state: &mut Vec<u8>, payload: &[u8]) -> (res: Result<(), DeltaError>)
    ensures
        final(state)@ == sparse_apply(old(state)@, payload@).0,
        res is Ok <==> sparse_apply(old(state)@, payload@).1,
        res matches Err(e) ==> e is InvalidPacket,
{
    let mut cursor: usize = 0;
    let count = read_var_u64(payload, &mut cursor)?;
    let total = count as usize;
    let ghost c0 = cursor as int;
    let mut previous_index: usize = 0;
    let mut n: usize = 0;
    while n < total
        invariant
            cursor <= payload@.len(),
            n <= total,
            read_varint(payload@, 0) == Some((count, c0)),
            total == count as usize,
            sparse_apply(old(state)@, payload@) == apply_from(
                state@,
                payload@,
                cursor as int,
                (total - n) as nat,
                n as nat,
                previous_index as int,
            ),
        decreases total - n,
    {
        let index_delta = read_var_u64(payload, &mut cursor)? as usize;
        let index = if n == 0 {
            index_delta
        } else {
            previous_index.saturating_add(index_delta)
        };
        if cursor >= payload.len() {
            return Err(invalid_packet("truncated sparse delta"));
        }
        let value = payload[cursor];
        cursor = cursor + 1;
        if index >= state.len() {
            return Err(invalid_packet("sparse delta index out of range"));
        }
        state.set(index, value);
        previous_index = index;
        n = n + 1;
    }
    if cursor != payload.len() {
        return Err(invalid_packet("trailing sparse delta bytes"));
    }
    Ok(())
}

/// Applies a packet of the sparse stream: a snapshot replaces the state, a delta
/// is applied in place.
pub fn apply_sparse_packet(state: &mut Vec<u8>, packet: Packet) -> (res: Result<(), DeltaError>)
    ensures
        match logical_of(packet@, DecodeConfig::spec_default()) {
            None => {
                &&& final(state)@ == old(state)@
                &&& res matches Err(e) && logical_payload_matches(
                    Err::<Vec<u8>, DeltaError>(e),
                    packet@,
                    DecodeConfig::spec_default(),
                )
            },
            Some(x) => match packet@.kind {
                PacketKind::Snapshot => res is Ok && final(state)@ == x,
                PacketKind::Delta => {
                    &&& final(state)@ == sparse_apply(old(state)@, x).0
                    &&& (res is Ok <==> sparse_apply(old(state)@, x).1)
                },
            },
        },
{
    let payload = packet.logical_payload()?;
    match packet.kind {
        PacketKind::Snapshot => {
            *state = payload;
        },
        PacketKind::Delta => {
            apply_sparse_byte_delta(state, payload.as_slice())?;
        },
    }
    Ok(())
}


/// `s` with the first `k` changes written.
pub open spec fn apply_changes(s: Seq<u8>, ch: Seq<(int, u8)>, k: nat) -> Seq<u8>
    decreases k,
{
    if k == 0 {
        s
    } else {
        apply_changes(s, ch, (k - 1) as nat).update(ch[k - 1].0, ch[k - 1].1)
    }
}

proof fn lemma_entries_prefix(ch: Seq<(int, u8)>, k: nat, m: nat)
    requires
        k <= m,
    ensures
        entries_bytes(ch, k).len() <= entries_bytes(ch, m).len(),
        entries_bytes(ch, m).subrange(0, entries_bytes(ch, k).len() as int) == entries_bytes(ch, k),
    decreases m,
{
    if k < m {
        lemma_entries_prefix(ch, k, (m - 1) as nat);
        let e = entries_bytes(ch, (m - 1) as nat);
        let ek = entries_bytes(ch, k);
        assert(entries_bytes(ch, m).subrange(0, ek.len() as int) =~= e.subrange(0, ek.len() as int));
    } else {
        assert(entries_bytes(ch, m).subrange(0, entries_bytes(ch, k).len() as int) =~= entries_bytes(ch, k));
    }
}

proof fn lemma_apply_changes_at(prev: Seq<u8>, cur: Seq<u8>, ch: Seq<(int, u8)>, k: nat, i: int)
    requires
        k <= ch.len(),
        0 <= i < prev.len(),
        forall|j: int| 0 <= j < ch.len() ==> 0 <= #[trigger] ch[j].0 < prev.len(),
        forall|j: int| 0 <= j < ch.len() ==> cur[#[trigger] ch[j].0] == ch[j].1,
    ensures
        apply_changes(prev, ch, k).len() == prev.len(),
        apply_changes(prev, ch, k)[i] == if exists|j: int| 0 <= j < k && #[trigger] ch[j].0 == i {
            cur[i]
        } else {
            prev[i]
        },
    decreases k,
{
    if k > 0 {
        lemma_apply_changes_at(prev, cur, ch, (k - 1) as nat, i);
        if exists|j: int| 0 <= j < k && #[trigger] ch[j].0 == i {
            if ch[k - 1].0 != i {
                let j = choose|j: int| 0 <= j < k && #[trigger] ch[j].0 == i;
                assert(j < k - 1);
            }
        } else {
            assert(!(exists|j: int| 0 <= j < k - 1 && #[trigger] ch[j].0 == i)) by {
                if exists|j: int| 0 <= j < k - 1 && #[trigger] ch[j].0 == i {
                    let j = choose|j: int| 0 <= j < k - 1 && #[trigger] ch[j].0 == i;
                    assert(0 <= j < k && ch[j].0 == i);
                }
            }
            assert(ch[k - 1].0 != i) by {
                if ch[k - 1].0 == i {
                    assert(0 <= k - 1 < k && ch[k - 1].0 == i);
                }
            }
        }
    }
}

proof fn lemma_apply_entries(prev: Seq<u8>, cur: Seq<u8>, k: nat)
    requires
        prev.len() == cur.len(),
        cur.len() <= usize::MAX,
        k <= changes_upto(prev, cur, prev.len()).len(),
    ensures
        ({
            let ch = changes_upto(prev, cur, prev.len());
            let p = sparse_bytes(prev, cur);
            let h = varint_bytes(ch.len() as u64).len() as int;
            apply_from(
                apply_changes(prev, ch, k),
                p,
                h + entries_bytes(ch, k).len(),
                (ch.len() - k) as nat,
                k,
                if k == 0 {
                    0
                } else {
                    ch[k - 1].0
                },
            ) == (apply_changes(prev, ch, ch.len()), true)
        }),
    decreases changes_upto(prev, cur, prev.len()).len() - k,
{
    let ch = changes_upto(prev, cur, prev.len());
    let p = sparse_bytes(prev, cur);
    let hb = varint_bytes(ch.len() as u64);
    let h = hb.len() as int;
    lemma_changes_props(prev, cur, prev.len());
    if k < ch.len() {
        let ek = entries_bytes(ch, k);
        let ek1 = entries_bytes(ch, k + 1);
        let g = gap(ch, k as int);
        let gb = varint_bytes(g as u64);
        let cursor = h + ek.len();
        lemma_entries_prefix(ch, k + 1, ch.len());
        assert(ek1 == ek + gb + seq![ch[k as int].1]);
        let all = entries_bytes(ch, ch.len());
        assert(p == hb + all);
        assert(p.subrange(cursor, cursor + gb.len()) =~= gb) by {
            assert forall|t: int| 0 <= t < gb.len() implies p.subrange(cursor, cursor + gb.len())[t] == gb[t] by {
                assert(all.subrange(0, ek1.len() as int)[ek.len() + t] == ek1[ek.len() + t]);
            }
        }
        lemma_varint_roundtrip(g as u64, p, cursor);
        let c1 = cursor + gb.len();
        assert(p[c1] == ch[k as int].1) by {
            assert(all.subrange(0, ek1.len() as int)[(ek.len() + gb.len()) as int] == ek1[(ek.len() + gb.len()) as int]);
        }
        if k == 0 {
            assert(g == ch[0].0);
        } else {
            assert(ch[k - 1].0 < ch[k as int].0);
        }
        assert(0 <= g <= usize::MAX);
        lemma_apply_changes_at(prev, cur, ch, k, 0);
        assert(apply_changes(prev, ch, k + 1) == apply_changes(prev, ch, k).update(ch[k as int].0, p[c1]));
        assert(ek1.len() == ek.len() + gb.len() + 1);
        lemma_apply_entries(prev, cur, k + 1);
    } else {
        assert(p.len() == h + entries_bytes(ch, k).len());
    }
}

/// Roundtrip: the sparse delta from `previous` to `current`, applied to
/// `previous`, gives `current` and is well formed, when the two have the same
/// length.
pub proof fn lemma_sparse_delta_roundtrip(previous: Seq<u8>, current: Seq<u8>)
    requires
        previous.len() == current.len(),
        current.len() <= usize::MAX,
    ensures
        sparse_apply(previous, sparse_bytes(previous, current)) == (current, true),
{
    let ch = changes_upto(previous, current, previous.len());
    let p = sparse_bytes(previous, current);
    let hb = varint_bytes(ch.len() as u64);
    lemma_changes_props(previous, current, previous.len());
    assert(p.subrange(0, hb.len() as int) =~= hb);
    lemma_varint_roundtrip(ch.len() as u64, p, 0);
    assert(entries_bytes(ch, 0) =~= Seq::<u8>::empty());
    lemma_apply_entries(previous, current, 0);
    let out = apply_changes(previous, ch, ch.len());
    assert forall|i: int| 0 <= i < previous.len() implies out[i] == current[i] by {
        lemma_apply_changes_at(previous, current, ch, ch.len(), i);
        if previous[i] != current[i] {
            let j = choose|j: int| 0 <= j < ch.len() && #[trigger] ch[j].0 == i;
            assert(0 <= j < ch.len() && ch[j].0 == i);
        }
    }
    if previous.len() > 0 {
        lemma_apply_changes_at(previous, current, ch, ch.len(), 0);
    }
    assert(out =~= current);
}

} // verus!
