use crate::buf::{append_bytes, copy_bytes, write_at};
use crate::error::{invalid_packet, DeltaError};
use crate::varint::{
    lemma_varint_len, lemma_varint_roundtrip, put_var_u64, read_var_u64, read_varint,
    varint_bytes,
};
use vstd::prelude::*;

verus! {

pub const TAG_SPARSE: u8 = 1;

pub const TAG_RANGES: u8 = 2;

pub const TAG_XOR: u8 = 3;

pub const TAG_SPLICE: u8 = 4;

pub const TAG_CHUNKS: u8 = 5;

/// The byte-level delta strategies.
#[derive(Debug, Clone, Copy, PartialEq, Eq, Structural, Hash)]
pub enum SmartDeltaKind {
    Sparse,
    Ranges,
    Xor,
    Splice,
    Chunks,
}

/// A delta payload together with the strategy that produced it.
#[derive(Debug, Clone, PartialEq, Eq)]
pub struct SmartDeltaCandidate {
    pub kind: SmartDeltaKind,
    pub payload: Vec<u8>,
}

/// Tuning knobs for the chunk and range strategies.
#[derive(Debug, Clone, Copy, PartialEq, Eq)]
pub struct SmartDeltaPolicy {
    pub chunk_size: usize,
    pub max_range_gap: usize,
}

impl Default for SmartDeltaPolicy {
    fn default() -> (p: Self)
        ensures
            p.chunk_size == 1024 && p.max_range_gap == 0,
    {
        SmartDeltaPolicy { chunk_size: 1024, max_range_gap: 0 }
    }
}

/// Succeeds exactly when `cursor` has reached the end of `bytes`.
fn ensure_consumed(bytes: &[u8], cursor: usize) -> (res: Result<(), DeltaError>)
    ensures
        res is Ok <==> cursor == bytes@.len(),
        res matches Err(e) ==> e is InvalidPacket,
{
    if cursor == bytes.len() {
        Ok(())
    } else {
        Err(invalid_packet("trailing smart delta bytes"))
    }
}

/// `a - b` saturating at zero.
pub open spec fn sat_sub(a: int, b: int) -> int {
    if a >= b {
        a - b
    } else {
        0
    }
}

/// `s[pos..pos + x.len()]` is `x`.
pub open spec fn holds_at(s: Seq<u8>, pos: int, x: Seq<u8>) -> bool {
    0 <= pos && pos + x.len() <= s.len() && s.subrange(pos, pos + x.len()) == x
}

proof fn lemma_holds_at_concat(s: Seq<u8>, pos: int, x: Seq<u8>, y: Seq<u8>)
    requires
        holds_at(s, pos, x + y),
    ensures
        holds_at(s, pos, x),
        holds_at(s, pos + x.len(), y),
{
    let w = s.subrange(pos, pos + (x + y).len());
    assert(w == x + y);
    assert(s.subrange(pos, pos + x.len()) =~= w.subrange(0, x.len() as int));
    assert(w.subrange(0, x.len() as int) =~= x);
    assert(s.subrange(pos + x.len(), pos + x.len() + y.len()) =~= w.subrange(
        x.len() as int,
        (x.len() + y.len()) as int,
    ));
    assert(w.subrange(x.len() as int, (x.len() + y.len()) as int) =~= y);
}

/// Reading a varint that is known to sit at `pos`.
proof fn lemma_read_at(s: Seq<u8>, pos: int, v: u64)
    requires
        holds_at(s, pos, varint_bytes(v)),
    ensures
        read_varint(s, pos) == Some((v, pos + varint_bytes(v).len())),
{
    lemma_varint_roundtrip(v, s, pos);
}

// ---------------------------------------------------------------- xor

/// Body of an xor delta: the new length, then `previous[i] ^ current[i]` for each byte.
pub open spec fn xor_body(previous: Seq<u8>, current: Seq<u8>) -> Seq<u8> {
    varint_bytes(current.len() as u64) + Seq::new(current.len(), |i: int| previous[i] ^ current[i])
}

/// Applying an xor body to `base`.
pub open spec fn xor_apply(base: Seq<u8>, bytes: Seq<u8>) -> Option<Seq<u8>> {
    match read_varint(bytes, 0) {
        None => None,
        Some((n, cursor)) => {
            let len = (n as usize) as int;
            if len != base.len() || sat_sub(bytes.len() as int, cursor) != len {
                None
            } else {
                Some(Seq::new(base.len(), |i: int| base[i] ^ bytes[cursor + i]))
            }
        },
    }
}

fn encode_xor(previous: &[u8], current: &[u8]) -> (out: Vec<u8>)
    requires
        previous@.len() == current@.len(),
    ensures
        out@ == seq![TAG_XOR] + xor_body(previous@, current@),
{
    let mut out: Vec<u8> = Vec::new();
    out.push(TAG_XOR);
    put_var_u64(&mut out, current.len() as u64);
    let ghost head = out@;
    let mut i: usize = 0;
    while i < current.len()
        invariant
            previous@.len() == current@.len(),
            i <= current@.len(),
            out@ == head + Seq::new(i as nat, |j: int| previous@[j] ^ current@[j]),
        decreases current@.len() - i,
    {
        out.push(previous[i] ^ current[i]);
        i = i + 1;
        assert(out@ =~= head + Seq::new(i as nat, |j: int| previous@[j] ^ current@[j]));
    }
    assert(out@ =~= seq![TAG_XOR] + xor_body(previous@, current@));
    out
}

fn apply_xor(base: &[u8], bytes: &[u8]) -> (res: Result<Vec<u8>, DeltaError>)
    ensures
        match xor_apply(base@, bytes@) {
            Some(out) => res matches Ok(v) && v@ == out,
            None => res matches Err(e) && e is InvalidPacket,
        },
{
    let mut cursor: usize = 0;
    let len = read_var_u64(bytes, &mut cursor)? as usize;
    if len != base.len() || bytes.len().saturating_sub(cursor) != len {
        return Err(invalid_packet("xor delta length mismatch"));
    }
    let mut out: Vec<u8> = Vec::with_capacity(len);
    let mut i: usize = 0;
    let _ = bytes.len();
    while i < len
        invariant
            len == base@.len(),
            cursor + len == bytes@.len(),
            bytes@.len() <= usize::MAX,
            i <= len,
            out@ == Seq::new(i as nat, |j: int| base@[j] ^ bytes@[cursor + j]),
        decreases len - i,
    {
        out.push(base[i] ^ bytes[cursor + i]);
        i = i + 1;
        assert(out@ =~= Seq::new(i as nat, |j: int| base@[j] ^ bytes@[cursor + j]));
    }
    Ok(out)
}

/// An xor body applied to the state it was computed from gives the new state.
pub proof fn lemma_xor_roundtrip(previous: Seq<u8>, current: Seq<u8>)
    requires
        previous.len() == current.len(),
        current.len() <= usize::MAX,
    ensures
        xor_apply(previous, xor_body(previous, current)) == Some(current),
{
    let body = xor_body(previous, current);
    let v = current.len() as u64;
    assert(holds_at(body, 0, varint_bytes(v))) by {
        assert(body.subrange(0, varint_bytes(v).len() as int) =~= varint_bytes(v));
    }
    lemma_read_at(body, 0, v);
    let c = varint_bytes(v).len() as int;
    let out = Seq::new(previous.len(), |i: int| previous[i] ^ body[c + i]);
    assert forall|i: int| 0 <= i < current.len() implies out[i] == current[i] by {
        let a = previous[i];
        let b = current[i];
        assert(body[c + i] == a ^ b);
        assert(a ^ (a ^ b) == b) by (bit_vector);
    }
    assert(out =~= current);
}

// ---------------------------------------------------------------- splice

/// Length of the longest common prefix of `a` and `b` that starts at or after `i`.
pub open spec fn common_prefix_from(a: Seq<u8>, b: Seq<u8>, i: int) -> int
    decreases a.len() - i,
{
    if 0 <= i < a.len() && i < b.len() && a[i] == b[i] {
        common_prefix_from(a, b, i + 1)
    } else {
        i
    }
}

/// Length of the longest common suffix of `a` and `b`, capped at `limit`, counting from `j`.
pub open spec fn common_suffix_from(a: Seq<u8>, b: Seq<u8>, limit: int, j: int) -> int
    decreases limit - j,
{
    if 0 <= j < limit && a[a.len() - 1 - j] == b[b.len() - 1 - j] {
        common_suffix_from(a, b, limit, j + 1)
    } else {
        j
    }
}

/// The splice decomposition of `current` against `previous`: shared prefix
/// length, shared suffix length (not overlapping the prefix) and the middle.
pub open spec fn splice_parts(previous: Seq<u8>, current: Seq<u8>) -> (int, int) {
    let prefix = common_prefix_from(previous, current, 0);
    let limit = if previous.len() - prefix <= current.len() - prefix {
        previous.len() - prefix
    } else {
        current.len() - prefix
    };
    (prefix, common_suffix_from(previous, current, limit, 0))
}

/// Body of a splice delta: new length, prefix, suffix and middle lengths, then the middle.
pub open spec fn splice_body(previous: Seq<u8>, current: Seq<u8>) -> Seq<u8> {
    let (prefix, suffix) = splice_parts(previous, current);
    let middle = current.subrange(prefix, current.len() - suffix);
    varint_bytes(current.len() as u64) + varint_bytes(prefix as u64) + varint_bytes(suffix as u64)
        + varint_bytes(middle.len() as u64) + middle
}

/// Applying a splice body to `base`.
pub open spec fn splice_apply(base: Seq<u8>, bytes: Seq<u8>) -> Option<Seq<u8>> {
    match read_varint(bytes, 0) {
        None => None,
        Some((n, c1)) => match read_varint(bytes, c1) {
            None => None,
            Some((p, c2)) => match read_varint(bytes, c2) {
                None => None,
                Some((s, c3)) => match read_varint(bytes, c3) {
                    None => None,
                    Some((m, c4)) => {
                        let new_len = (n as usize) as int;
                        let prefix = (p as usize) as int;
                        let suffix = (s as usize) as int;
                        let middle_len = (m as usize) as int;
                        if prefix > base.len() || suffix > sat_sub(base.len() as int, prefix) {
                            None
                        } else if c4 + middle_len > usize::MAX {
                            None
                        } else if c4 + middle_len > bytes.len() {
                            None
                        } else if c4 + middle_len != bytes.len() {
                            None
                        } else if prefix + middle_len + suffix > usize::MAX {
                            None
                        } else if prefix + middle_len + suffix != new_len {
                            None
                        } else {
                            Some(
                                base.take(prefix) + bytes.subrange(c4, c4 + middle_len) + base.skip(
                                    base.len() - suffix,
                                ),
                            )
                        }
                    },
                },
            },
        },
    }
}

#[verifier::rlimit(40)]
fn encode_splice(previous: &[u8], current: &[u8]) -> (out: Vec<u8>)
    ensures
        out@ == seq![TAG_SPLICE] + splice_body(previous@, current@),
{
    let max_prefix = if previous.len() < current.len() {
        previous.len()
    } else {
        current.len()
    };
    let mut prefix: usize = 0;
    while prefix < max_prefix && previous[prefix] == current[prefix]
        invariant
            max_prefix <= previous@.len(),
            max_prefix <= current@.len(),
            max_prefix == previous@.len() || max_prefix == current@.len(),
            prefix <= max_prefix,
            common_prefix_from(previous@, current@, prefix as int) == common_prefix_from(
                previous@,
                current@,
                0,
            ),
        decreases max_prefix - prefix,
    {
        prefix = prefix + 1;
    }
    let a = previous.len() - prefix;
    let b = current.len() - prefix;
    let max_suffix = if a <= b {
        a
    } else {
        b
    };
    let mut suffix: usize = 0;
    while suffix < max_suffix && previous[previous.len() - 1 - suffix] == current[current.len() - 1
        - suffix]
        invariant
            max_suffix <= previous@.len() - prefix,
            max_suffix <= current@.len() - prefix,
            suffix <= max_suffix,
            common_suffix_from(previous@, current@, max_suffix as int, suffix as int)
                == common_suffix_from(previous@, current@, max_suffix as int, 0),
        decreases max_suffix - suffix,
    {
        suffix = suffix + 1;
    }
    let middle_end = current.len() - suffix;
    let ghost middle = current@.subrange(prefix as int, middle_end as int);
    let mut out: Vec<u8> = Vec::new();
    out.push(TAG_SPLICE);
    put_var_u64(&mut out, current.len() as u64);
    put_var_u64(&mut out, prefix as u64);
    put_var_u64(&mut out, suffix as u64);
    put_var_u64(&mut out, (middle_end - prefix) as u64);
    append_bytes(&mut out, &current[prefix..middle_end]);
    proof {
        assert(splice_parts(previous@, current@) == (prefix as int, suffix as int));
        assert(out@ =~= seq![TAG_SPLICE] + (varint_bytes(current@.len() as u64) + varint_bytes(
            prefix as u64,
        ) + varint_bytes(suffix as u64) + varint_bytes(middle.len() as u64) + middle));
    }
    out
}

fn apply_splice(base: &[u8], bytes: &[u8]) -> (res: Result<Vec<u8>, DeltaError>)
    ensures
        match splice_apply(base@, bytes@) {
            Some(out) => res matches Ok(v) && v@ == out,
            None => res matches Err(e) && e is InvalidPacket,
        },
{
    let mut cursor: usize = 0;
    let new_len = read_var_u64(bytes, &mut cursor)? as usize;
    let prefix = read_var_u64(bytes, &mut cursor)? as usize;
    let suffix = read_var_u64(bytes, &mut cursor)? as usize;
    let middle_len = read_var_u64(bytes, &mut cursor)? as usize;
    if prefix > base.len() || suffix > base.len().saturating_sub(prefix) {
        return Err(invalid_packet("splice base bounds invalid"));
    }
    let middle_end = match cursor.checked_add(middle_len) {
        Some(v) => v,
        None => return Err(invalid_packet("splice overflow")),
    };
    if middle_end > bytes.len() {
        return Err(invalid_packet("truncated splice payload"));
    }
    ensure_consumed(bytes, middle_end)?;
    let expected_len = match prefix.checked_add(middle_len) {
        Some(v) => match v.checked_add(suffix) {
            Some(w) => w,
            None => return Err(invalid_packet("splice length overflow")),
        },
        None => return Err(invalid_packet("splice length overflow")),
    };
    if expected_len != new_len {
        return Err(invalid_packet("splice new length mismatch"));
    }
    let mut out: Vec<u8> = Vec::with_capacity(new_len);
    append_bytes(&mut out, &base[0..prefix]);
    append_bytes(&mut out, &bytes[cursor..middle_end]);
    append_bytes(&mut out, &base[base.len() - suffix..base.len()]);
    assert(base@.subrange(0, prefix as int) =~= base@.take(prefix as int));
    assert(base@.subrange(base@.len() - suffix, base@.len() as int) =~= base@.skip(
        base@.len() - suffix,
    ));
    Ok(out)
}

proof fn lemma_common_prefix(a: Seq<u8>, b: Seq<u8>, i: int)
    requires
        0 <= i <= a.len(),
        i <= b.len(),
        forall|k: int| 0 <= k < i ==> a[k] == b[k],
    ensures
        i <= common_prefix_from(a, b, i) <= a.len(),
        common_prefix_from(a, b, i) <= b.len(),
        forall|k: int| 0 <= k < common_prefix_from(a, b, i) ==> a[k] == b[k],
    decreases a.len() - i,
{
    if 0 <= i < a.len() && i < b.len() && a[i] == b[i] {
        lemma_common_prefix(a, b, i + 1);
    }
}

proof fn lemma_common_suffix(a: Seq<u8>, b: Seq<u8>, limit: int, j: int)
    requires
        0 <= j <= limit,
        limit <= a.len(),
        limit <= b.len(),
        forall|k: int| #![trigger a[a.len() - 1 - k]] 0 <= k < j ==> a[a.len() - 1 - k] == b[b.len() - 1 - k],
    ensures
        j <= common_suffix_from(a, b, limit, j) <= limit,
        forall|k: int|
            #![trigger a[a.len() - 1 - k]]
            0 <= k < common_suffix_from(a, b, limit, j) ==> a[a.len() - 1 - k] == b[b.len() - 1 - k],
    decreases limit - j,
{
    if 0 <= j < limit && a[a.len() - 1 - j] == b[b.len() - 1 - j] {
        lemma_common_suffix(a, b, limit, j + 1);
    }
}

/// A splice body applied to the state it was computed from gives the new state.
pub proof fn lemma_splice_roundtrip(previous: Seq<u8>, current: Seq<u8>)
    requires
        previous.len() <= usize::MAX,
        current.len() <= usize::MAX,
        splice_body(previous, current).len() <= usize::MAX,
    ensures
        splice_apply(previous, splice_body(previous, current)) == Some(current),
{
    lemma_common_prefix(previous, current, 0);
    let (prefix, suffix) = splice_parts(previous, current);
    let limit = if previous.len() - prefix <= current.len() - prefix {
        previous.len() - prefix
    } else {
        current.len() - prefix
    };
    lemma_common_suffix(previous, current, limit, 0);
    let middle = current.subrange(prefix, current.len() - suffix);
    let v1 = varint_bytes(current.len() as u64);
    let v2 = varint_bytes(prefix as u64);
    let v3 = varint_bytes(suffix as u64);
    let v4 = varint_bytes(middle.len() as u64);
    let body = splice_body(previous, current);
    assert(body == v1 + v2 + v3 + v4 + middle);
    assert(holds_at(body, 0, body)) by {
        assert(body.subrange(0, body.len() as int) =~= body);
    }
    lemma_holds_at_concat(body, 0, v1 + v2 + v3 + v4, middle);
    lemma_holds_at_concat(body, 0, v1 + v2 + v3, v4);
    lemma_holds_at_concat(body, 0, v1 + v2, v3);
    lemma_holds_at_concat(body, 0, v1, v2);
    lemma_read_at(body, 0, current.len() as u64);
    lemma_read_at(body, v1.len() as int, prefix as u64);
    lemma_read_at(body, (v1.len() + v2.len()) as int, suffix as u64);
    lemma_read_at(body, (v1.len() + v2.len() + v3.len()) as int, middle.len() as u64);
    lemma_varint_len(current.len() as u64);
    lemma_varint_len(prefix as u64);
    lemma_varint_len(suffix as u64);
    lemma_varint_len(middle.len() as u64);
    let c1 = v1.len() as int;
    let c2 = (v1.len() + v2.len()) as int;
    let c3 = (v1.len() + v2.len() + v3.len()) as int;
    let c4 = (v1.len() + v2.len() + v3.len() + v4.len()) as int;
    assert(body.len() == c4 + middle.len());
    assert(body.subrange(c4, c4 + middle.len()) =~= middle);
    assert((current.len() as u64) as usize == current.len());
    assert((prefix as u64) as usize == prefix);
    assert((suffix as u64) as usize == suffix);
    assert((middle.len() as u64) as usize == middle.len());
    assert(read_varint(body, 0) == Some((current.len() as u64, c1)));
    assert(read_varint(body, c1) == Some((prefix as u64, c2)));
    assert(read_varint(body, c2) == Some((suffix as u64, c3)));
    assert(read_varint(body, c3) == Some((middle.len() as u64, c4)));
    let out = previous.take(prefix) + middle + previous.skip(previous.len() - suffix);
    assert forall|k: int| 0 <= k < current.len() implies out[k] == current[k] by {
        if k < prefix {
        } else if k < current.len() - suffix {
        } else {
            let j = current.len() - 1 - k;
            assert(previous[previous.len() - 1 - j] == current[current.len() - 1 - j]);
        }
    }
    assert(out =~= current);
    assert(prefix + middle.len() + suffix == current.len());
    assert(suffix <= sat_sub(previous.len() as int, prefix));
    assert(splice_apply(previous, body) == Some(out));
}

// ---------------------------------------------------------------- sparse

/// Indices below `n` at which `previous` and `current` differ, in increasing order.
pub open spec fn diff_indices(previous: Seq<u8>, current: Seq<u8>, n: int) -> Seq<usize>
    decreases n,
{
    if n <= 0 {
        seq![]
    } else {
        diff_indices(previous, current, n - 1) + if previous[n - 1] != current[n - 1] {
            seq![(n - 1) as usize]
        } else {
            seq![]
        }
    }
}

/// The gap stored for the `k`-th entry: the first index itself, then the distance
/// from the previous index.
pub open spec fn index_gap(idx: Seq<usize>, k: int) -> int {
    if k == 0 {
        idx[0] as int
    } else {
        idx[k] - idx[k - 1]
    }
}

/// The first `k` sparse entries: each a varint gap followed by the new byte.
pub open spec fn sparse_entries(idx: Seq<usize>, current: Seq<u8>, k: int) -> Seq<u8>
    decreases k,
{
    if k <= 0 {
        seq![]
    } else {
        sparse_entries(idx, current, k - 1) + varint_bytes(index_gap(idx, k - 1) as u64) + seq![
            current[idx[k - 1] as int],
        ]
    }
}

/// Body of a sparse delta: length, number of changed bytes, then the entries.
pub open spec fn sparse_body(previous: Seq<u8>, current: Seq<u8>) -> Seq<u8> {
    let idx = diff_indices(previous, current, current.len() as int);
    varint_bytes(current.len() as u64) + varint_bytes(idx.len() as u64) + sparse_entries(
        idx,
        current,
        idx.len() as int,
    )
}

/// Reads entries `n..count` of a sparse body starting at `cursor`, writing into `out`.
pub open spec fn sparse_parse(
    bytes: Seq<u8>,
    n: int,
    count: int,
    cursor: int,
    prev_index: int,
    out: Seq<u8>,
) -> Option<Seq<u8>>
    decreases count - n,
{
    if n >= count {
        if cursor == bytes.len() {
            Some(out)
        } else {
            None
        }
    } else {
        match read_varint(bytes, cursor) {
            None => None,
            Some((d, c1)) => {
                let delta = (d as usize) as int;
                let index = if n == 0 {
                    delta
                } else {
                    prev_index + delta
                };
                if index > usize::MAX || c1 >= bytes.len() || index >= out.len() {
                    None
                } else {
                    sparse_parse(bytes, n + 1, count, c1 + 1, index, out.update(index, bytes[c1]))
                }
            },
        }
    }
}

/// Applying a sparse body to `base`.
pub open spec fn sparse_apply(base: Seq<u8>, bytes: Seq<u8>) -> Option<Seq<u8>> {
    match read_varint(bytes, 0) {
        None => None,
        Some((len, c1)) => if (len as usize) as int != base.len() {
            None
        } else {
            match read_varint(bytes, c1) {
                None => None,
                Some((count, c2)) => sparse_parse(bytes, 0, (count as usize) as int, c2, 0, base),
            }
        },
    }
}

proof fn lemma_diff_indices(previous: Seq<u8>, current: Seq<u8>, n: int)
    requires
        0 <= n <= previous.len(),
        previous.len() == current.len(),
        current.len() <= usize::MAX,
    ensures
        diff_indices(previous, current, n).len() <= n,
        forall|a: int, b: int|
            0 <= a < b < diff_indices(previous, current, n).len() ==> #[trigger] diff_indices(
                previous,
                current,
                n,
            )[a] < #[trigger] diff_indices(previous, current, n)[b],
        forall|a: int|
            0 <= a < diff_indices(previous, current, n).len() ==> #[trigger] diff_indices(
                previous,
                current,
                n,
            )[a] < n,
        forall|a: int|
            0 <= a < diff_indices(previous, current, n).len() ==> previous[#[trigger] diff_indices(
                previous,
                current,
                n,
            )[a] as int] != current[diff_indices(previous, current, n)[a] as int],
        forall|i: int|
            0 <= i < n && previous[i] != current[i] ==> exists|a: int|
                0 <= a < diff_indices(previous, current, n).len() && #[trigger] diff_indices(
                    previous,
                    current,
                    n,
                )[a] == i,
    decreases n,
{
    if n > 0 {
        lemma_diff_indices(previous, current, n - 1);
        let d = diff_indices(previous, current, n - 1);
        let e = diff_indices(previous, current, n);
        assert forall|i: int| 0 <= i < n && previous[i] != current[i] implies exists|a: int|
            0 <= a < e.len() && #[trigger] e[a] == i by {
            if i < n - 1 {
                let a = choose|a: int| 0 <= a < d.len() && #[trigger] d[a] == i;
                assert(e[a] == d[a]);
            } else {
                assert(e[d.len() as int] == i);
            }
        }
    }
}

/// `previous` with the first `k` listed positions overwritten from `current`.
pub open spec fn sparse_partial(previous: Seq<u8>, current: Seq<u8>, idx: Seq<usize>, k: int) -> Seq<u8>
    decreases k,
{
    if k <= 0 {
        previous
    } else {
        sparse_partial(previous, current, idx, k - 1).update(
            idx[k - 1] as int,
            current[idx[k - 1] as int],
        )
    }
}

proof fn lemma_sparse_partial(previous: Seq<u8>, current: Seq<u8>, idx: Seq<usize>, k: int)
    requires
        0 <= k <= idx.len(),
        previous.len() == current.len(),
        forall|a: int| 0 <= a < idx.len() ==> #[trigger] idx[a] < previous.len(),
    ensures
        sparse_partial(previous, current, idx, k).len() == previous.len(),
        forall|i: int|
            0 <= i < previous.len() ==> #[trigger] sparse_partial(previous, current, idx, k)[i] == if exists|a: int|
                0 <= a < k && idx[a] == i {
                current[i]
            } else {
                previous[i]
            },
    decreases k,
{
    if k > 0 {
        lemma_sparse_partial(previous, current, idx, k - 1);
        let p = sparse_partial(previous, current, idx, k);
        assert forall|i: int| 0 <= i < previous.len() implies #[trigger] p[i] == if exists|a: int|
            0 <= a < k && idx[a] == i {
            current[i]
        } else {
            previous[i]
        } by {
            if i == idx[k - 1] {
                assert(exists|a: int| 0 <= a < k && idx[a] == i) by {
                    assert(idx[k - 1] == i);
                }
            } else {
                if exists|a: int| 0 <= a < k && idx[a] == i {
                    let a = choose|a: int| 0 <= a < k && idx[a] == i;
                    assert(a != k - 1);
                    assert(exists|b: int| 0 <= b < k - 1 && idx[b] == i);
                }
            }
        }
    }
}

proof fn lemma_sparse_entries_prefix(idx: Seq<usize>, current: Seq<u8>, j: int, m: int)
    requires
        0 <= j <= m,
    ensures
        sparse_entries(idx, current, j).len() <= sparse_entries(idx, current, m).len(),
        sparse_entries(idx, current, m).subrange(0, sparse_entries(idx, current, j).len() as int)
            == sparse_entries(idx, current, j),
    decreases m,
{
    if j < m {
        lemma_sparse_entries_prefix(idx, current, j, m - 1);
        let a = sparse_entries(idx, current, j);
        let b = sparse_entries(idx, current, m - 1);
        let c = sparse_entries(idx, current, m);
        assert(c.subrange(0, b.len() as int) =~= b);
        assert(c.subrange(0, a.len() as int) =~= b.subrange(0, a.len() as int));
    } else {
        assert(sparse_entries(idx, current, m).subrange(0, sparse_entries(idx, current, m).len() as int)
            =~= sparse_entries(idx, current, m));
    }
}

proof fn lemma_sparse_parse(
    previous: Seq<u8>,
    current: Seq<u8>,
    idx: Seq<usize>,
    body: Seq<u8>,
    head: int,
    k: int,
)
    requires
        previous.len() == current.len(),
        current.len() <= usize::MAX,
        idx == diff_indices(previous, current, current.len() as int),
        0 <= k <= idx.len(),
        0 <= head,
        body.len() == head + sparse_entries(idx, current, idx.len() as int).len(),
        body.subrange(head, body.len() as int) == sparse_entries(idx, current, idx.len() as int),
    ensures
        sparse_parse(
            body,
            k,
            idx.len() as int,
            head + sparse_entries(idx, current, k).len(),
            if k == 0 {
                0
            } else {
                idx[k - 1] as int
            },
            sparse_partial(previous, current, idx, k),
        ) == Some(current),
    decreases idx.len() - k,
{
    lemma_diff_indices(previous, current, current.len() as int);
    lemma_sparse_partial(previous, current, idx, k);
    let n = idx.len() as int;
    let cursor = head + sparse_entries(idx, current, k).len();
    let out = sparse_partial(previous, current, idx, k);
    if k == n {
        assert forall|i: int| 0 <= i < current.len() implies out[i] == current[i] by {
            if !(exists|a: int| 0 <= a < k && idx[a] == i) {
                if previous[i] != current[i] {
                    let a = choose|a: int| 0 <= a < idx.len() && #[trigger] idx[a] == i;
                    assert(false);
                }
            }
        }
        assert(out =~= current);
    } else {
        let gap = index_gap(idx, k);
        let v = varint_bytes(gap as u64);
        lemma_sparse_entries_prefix(idx, current, k + 1, n);
        let e1 = sparse_entries(idx, current, k + 1);
        let e = sparse_entries(idx, current, n);
        assert(e1 == sparse_entries(idx, current, k) + v + seq![current[idx[k] as int]]);
        if k > 0 {
            assert(idx[k - 1] < idx[k]);
        }
        assert(0 <= gap <= usize::MAX);
        let ek = sparse_entries(idx, current, k);
        let x = ek.len() as int;
        assert(e1.subrange(x, x + v.len()) =~= v);
        assert(e.subrange(0, e1.len() as int) == e1);
        assert(e.subrange(x, x + v.len()) =~= e1.subrange(x, x + v.len()));
        assert(body.subrange(head, body.len() as int) == e);
        assert(body.subrange(cursor, cursor + v.len()) =~= e.subrange(x, x + v.len()));
        assert(holds_at(body, cursor, v));
        lemma_read_at(body, cursor, gap as u64);
        let c1 = cursor + v.len();
        assert(body[c1] == e[c1 - head]);
        assert(e[c1 - head] == e1[c1 - head]);
        assert(body[c1] == current[idx[k] as int]);
        assert((gap as u64) as usize == gap);
        lemma_sparse_parse(previous, current, idx, body, head, k + 1);
    }
}

/// A sparse body applied to the state it was computed from gives the new state.
pub proof fn lemma_sparse_roundtrip(previous: Seq<u8>, current: Seq<u8>)
    requires
        previous.len() == current.len(),
        current.len() <= usize::MAX,
    ensures
        sparse_apply(previous, sparse_body(previous, current)) == Some(current),
{
    lemma_diff_indices(previous, current, current.len() as int);
    let idx = diff_indices(previous, current, current.len() as int);
    let v1 = varint_bytes(current.len() as u64);
    let v2 = varint_bytes(idx.len() as u64);
    let e = sparse_entries(idx, current, idx.len() as int);
    let body = sparse_body(previous, current);
    assert(body == v1 + v2 + e);
    assert(holds_at(body, 0, body)) by {
        assert(body.subrange(0, body.len() as int) =~= body);
    }
    lemma_holds_at_concat(body, 0, v1 + v2, e);
    lemma_holds_at_concat(body, 0, v1, v2);
    lemma_read_at(body, 0, current.len() as u64);
    lemma_read_at(body, v1.len() as int, idx.len() as u64);
    assert((current.len() as u64) as usize == current.len());
    assert((idx.len() as u64) as usize == idx.len());
    let head = (v1.len() + v2.len()) as int;
    assert(body.subrange(head, body.len() as int) =~= e);
    lemma_sparse_parse(previous, current, idx, body, head, 0);
    assert(sparse_entries(idx, current, 0) == Seq::<u8>::empty());
}

fn encode_sparse(previous: &[u8], current: &[u8]) -> (out: Vec<u8>)
    requires
        previous@.len() == current@.len(),
    ensures
        out@ == seq![TAG_SPARSE] + sparse_body(previous@, current@),
{
    let mut idx: Vec<usize> = Vec::new();
    let mut i: usize = 0;
    while i < current.len()
        invariant
            previous@.len() == current@.len(),
            i <= current@.len(),
            idx@ == diff_indices(previous@, current@, i as int),
        decreases current@.len() - i,
    {
        if previous[i] != current[i] {
            idx.push(i);
        }
        i = i + 1;
        assert(idx@ =~= diff_indices(previous@, current@, i as int));
    }
    proof {
        lemma_diff_indices(previous@, current@, current@.len() as int);
    }
    let mut out: Vec<u8> = Vec::new();
    out.push(TAG_SPARSE);
    put_var_u64(&mut out, current.len() as u64);
    put_var_u64(&mut out, idx.len() as u64);
    let ghost head = out@;
    let mut k: usize = 0;
    while k < idx.len()
        invariant
            previous@.len() == current@.len(),
            idx@ == diff_indices(previous@, current@, current@.len() as int),
            forall|a: int, b: int| 0 <= a < b < idx@.len() ==> #[trigger] idx@[a] < #[trigger] idx@[b],
            forall|a: int| 0 <= a < idx@.len() ==> #[trigger] idx@[a] < current@.len(),
            k <= idx@.len(),
            out@ == head + sparse_entries(idx@, current@, k as int),
        decreases idx@.len() - k,
    {
        let gap = if k == 0 {
            idx[0]
        } else {
            idx[k] - idx[k - 1]
        };
        put_var_u64(&mut out, gap as u64);
        out.push(current[idx[k]]);
        k = k + 1;
        assert(out@ =~= head + sparse_entries(idx@, current@, k as int));
    }
    assert(out@ =~= seq![TAG_SPARSE] + sparse_body(previous@, current@));
    out
}

fn apply_sparse(base: &[u8], bytes: &[u8]) -> (res: Result<Vec<u8>, DeltaError>)
    ensures
        match sparse_apply(base@, bytes@) {
            Some(out) => res matches Ok(v) && v@ == out,
            None => res matches Err(e) && e is InvalidPacket,
        },
{
    let mut cursor: usize = 0;
    let new_len = read_var_u64(bytes, &mut cursor)? as usize;
    if new_len != base.len() {
        return Err(invalid_packet("sparse delta length mismatch"));
    }
    let count = read_var_u64(bytes, &mut cursor)? as usize;
    let ghost start = cursor as int;
    let mut out = copy_bytes(base);
    let mut previous_index: usize = 0;
    let mut n: usize = 0;
    while n < count
        invariant
            n <= count,
            cursor <= bytes@.len(),
            sparse_apply(base@, bytes@) == sparse_parse(bytes@, 0, count as int, start, 0, base@),
            sparse_parse(bytes@, n as int, count as int, cursor as int, previous_index as int, out@)
                == sparse_parse(bytes@, 0, count as int, start, 0, base@),
        decreases count - n,
    {
        let delta = read_var_u64(bytes, &mut cursor)? as usize;
        let index = if n == 0 {
            delta
        } else {
            match previous_index.checked_add(delta) {
                Some(v) => v,
                None => return Err(invalid_packet("sparse index overflow")),
            }
        };
        if cursor >= bytes.len() {
            return Err(invalid_packet("truncated sparse value"));
        }
        let value = bytes[cursor];
        cursor = cursor + 1;
        if index >= out.len() {
            return Err(invalid_packet("sparse index out of range"));
        }
        out.set(index, value);
        previous_index = index;
        n = n + 1;
    }
    ensure_consumed(bytes, cursor)?;
    Ok(out)
}

// ---------------------------------------------------------------- chunks

/// Number of `chunk_size`-byte chunks needed to cover `len` bytes.
pub open spec fn num_chunks(len: int, chunk_size: int) -> int {
    len / chunk_size + if len % chunk_size != 0 {
        1int
    } else {
        0int
    }
}

/// End of chunk `c` of a `len`-byte state.
pub open spec fn chunk_end(len: int, chunk_size: int, c: int) -> int {
    if c * chunk_size + chunk_size <= len {
        c * chunk_size + chunk_size
    } else {
        len
    }
}

/// Chunk `c` of `current` is not the same bytes at the same place in `previous`.
pub open spec fn chunk_changed(previous: Seq<u8>, current: Seq<u8>, chunk_size: int, c: int) -> bool {
    let start = c * chunk_size;
    let end = chunk_end(current.len() as int, chunk_size, c);
    end > previous.len() || previous.subrange(start, end) != current.subrange(start, end)
}

/// Changed chunk indices below `n`, in increasing order.
pub open spec fn changed_chunks(previous: Seq<u8>, current: Seq<u8>, chunk_size: int, n: int) -> Seq<usize>
    decreases n,
{
    if n <= 0 {
        seq![]
    } else {
        changed_chunks(previous, current, chunk_size, n - 1) + if chunk_changed(
            previous,
            current,
            chunk_size,
            n - 1,
        ) {
            seq![(n - 1) as usize]
        } else {
            seq![]
        }
    }
}

/// The first `k` chunk entries: varint gap, varint length, then the chunk's bytes.
pub open spec fn chunk_entries(ch: Seq<usize>, current: Seq<u8>, chunk_size: int, k: int) -> Seq<u8>
    decreases k,
{
    if k <= 0 {
        seq![]
    } else {
        let c = ch[k - 1] as int;
        let start = c * chunk_size;
        let end = chunk_end(current.len() as int, chunk_size, c);
        chunk_entries(ch, current, chunk_size, k - 1) + varint_bytes(index_gap(ch, k - 1) as u64)
            + varint_bytes((end - start) as u64) + current.subrange(start, end)
    }
}

/// Body of a chunk delta: new length, chunk size, number of changed chunks, then the entries.
pub open spec fn chunks_body(previous: Seq<u8>, current: Seq<u8>, chunk_size: int) -> Seq<u8> {
    let ch = changed_chunks(previous, current, chunk_size, num_chunks(current.len() as int, chunk_size));
    varint_bytes(current.len() as u64) + varint_bytes(chunk_size as u64) + varint_bytes(
        ch.len() as u64,
    ) + chunk_entries(ch, current, chunk_size, ch.len() as int)
}

/// `base` cut or zero-extended to `len` bytes.
pub open spec fn resized(base: Seq<u8>, len: int) -> Seq<u8> {
    if len <= base.len() {
        base.take(len)
    } else {
        base + Seq::new((len - base.len()) as nat, |i: int| 0u8)
    }
}

/// Reads chunk entries `n..count` starting at `cursor`, writing into `out`.
pub open spec fn chunks_parse(
    bytes: Seq<u8>,
    chunk_size: int,
    n: int,
    count: int,
    cursor: int,
    prev_chunk: int,
    out: Seq<u8>,
) -> Option<Seq<u8>>
    decreases count - n,
{
    if n >= count {
        if cursor == bytes.len() {
            Some(out)
        } else {
            None
        }
    } else {
        match read_varint(bytes, cursor) {
            None => None,
            Some((d, c1)) => {
                let delta = (d as usize) as int;
                let chunk = if n == 0 {
                    delta
                } else {
                    prev_chunk + delta
                };
                match read_varint(bytes, c1) {
                    None => None,
                    Some((l, c2)) => {
                        let len = (l as usize) as int;
                        let start = chunk * chunk_size;
                        let end = start + len;
                        let src_end = c2 + len;
                        if chunk > usize::MAX || start > usize::MAX || end > usize::MAX || src_end
                            > usize::MAX || src_end > bytes.len() || end > out.len() {
                            None
                        } else {
                            chunks_parse(
                                bytes,
                                chunk_size,
                                n + 1,
                                count,
                                src_end,
                                chunk,
                                out.take(start) + bytes.subrange(c2, src_end) + out.skip(end),
                            )
                        }
                    },
                }
            },
        }
    }
}

/// Applying a chunk body to `base`.
pub open spec fn chunks_apply(base: Seq<u8>, bytes: Seq<u8>) -> Option<Seq<u8>> {
    match read_varint(bytes, 0) {
        None => None,
        Some((len, c1)) => match read_varint(bytes, c1) {
            None => None,
            Some((cs, c2)) => if (cs as usize) == 0 {
                None
            } else {
                match read_varint(bytes, c2) {
                    None => None,
                    Some((count, c3)) => chunks_parse(
                        bytes,
                        (cs as usize) as int,
                        0,
                        (count as usize) as int,
                        c3,
                        0,
                        resized(base, (len as usize) as int),
                    ),
                }
            },
        },
    }
}

/// Chunk `c` of a `len`-byte state starts inside it and is at most `cs` long.
pub proof fn lemma_chunk_bounds(len: int, cs: int, c: int)
    requires
        cs > 0,
        0 <= len,
        0 <= c < num_chunks(len, cs),
    ensures
        0 <= c * cs < len,
        c * cs < chunk_end(len, cs, c) <= len,
        chunk_end(len, cs, c) - c * cs <= cs,
{
    let q = len / cs;
    let r = len % cs;
    assert(len == q * cs + r && 0 <= r < cs) by (nonlinear_arith)
        requires
            cs > 0,
            q == len / cs,
            r == len % cs,
    ;
    if r == 0 {
        assert(c <= q - 1);
        assert(c * cs <= (q - 1) * cs) by (nonlinear_arith)
            requires
                c <= q - 1,
                cs > 0,
        ;
        assert((q - 1) * cs == q * cs - cs) by (nonlinear_arith);
    } else {
        assert(c <= q);
        assert(c * cs <= q * cs) by (nonlinear_arith)
            requires
                c <= q,
                cs > 0,
        ;
    }
    assert(0 <= c * cs) by (nonlinear_arith)
        requires
            c >= 0,
            cs > 0,
    ;
}

/// Every position of a state lies in exactly the chunk `i / chunk_size`.
pub proof fn lemma_chunk_of(len: int, cs: int, i: int)
    requires
        cs > 0,
        0 <= i < len,
    ensures
        0 <= i / cs < num_chunks(len, cs),
        (i / cs) * cs <= i < chunk_end(len, cs, i / cs),
{
    let c = i / cs;
    let q = len / cs;
    let r = len % cs;
    assert(len == q * cs + r && 0 <= r < cs) by (nonlinear_arith)
        requires
            cs > 0,
            q == len / cs,
            r == len % cs,
    ;
    assert(i == c * cs + i % cs && 0 <= i % cs < cs && c >= 0) by (nonlinear_arith)
        requires
            cs > 0,
            c == i / cs,
            i >= 0,
    ;
    assert(c <= q) by (nonlinear_arith)
        requires
            cs > 0,
            c == i / cs,
            q == len / cs,
            i < len,
            0 <= i,
    ;
    if c == q {
        assert(r > 0) by (nonlinear_arith)
            requires
                i == c * cs + i % cs,
                len == q * cs + r,
                c == q,
                i < len,
                0 <= i % cs,
        ;
    }
}

proof fn lemma_changed_chunks(previous: Seq<u8>, current: Seq<u8>, cs: int, n: int)
    requires
        0 <= n <= usize::MAX + 1,
    ensures
        changed_chunks(previous, current, cs, n).len() <= n,
        forall|a: int, b: int|
            0 <= a < b < changed_chunks(previous, current, cs, n).len() ==> #[trigger] changed_chunks(
                previous,
                current,
                cs,
                n,
            )[a] < #[trigger] changed_chunks(previous, current, cs, n)[b],
        forall|a: int|
            0 <= a < changed_chunks(previous, current, cs, n).len() ==> #[trigger] changed_chunks(
                previous,
                current,
                cs,
                n,
            )[a] < n,
        forall|c: int|
            0 <= c < n && chunk_changed(previous, current, cs, c) ==> exists|a: int|
                0 <= a < changed_chunks(previous, current, cs, n).len() && #[trigger] changed_chunks(
                    previous,
                    current,
                    cs,
                    n,
                )[a] == c,
    decreases n,
{
    if n > 0 {
        lemma_changed_chunks(previous, current, cs, n - 1);
        let d = changed_chunks(previous, current, cs, n - 1);
        let e = changed_chunks(previous, current, cs, n);
        assert forall|c: int| 0 <= c < n && chunk_changed(previous, current, cs, c) implies exists|a: int|
            0 <= a < e.len() && #[trigger] e[a] == c by {
            if c < n - 1 {
                let a = choose|a: int| 0 <= a < d.len() && #[trigger] d[a] == c;
                assert(e[a] == d[a]);
            } else {
                assert(e[d.len() as int] == c);
            }
        }
    }
}

/// `out0` with the first `k` listed chunks copied from `current`.
pub open spec fn chunk_partial(out0: Seq<u8>, current: Seq<u8>, ch: Seq<usize>, cs: int, k: int) -> Seq<u8>
    decreases k,
{
    if k <= 0 {
        out0
    } else {
        let p = chunk_partial(out0, current, ch, cs, k - 1);
        let start = ch[k - 1] * cs;
        let end = chunk_end(current.len() as int, cs, ch[k - 1] as int);
        p.take(start) + current.subrange(start, end) + p.skip(end)
    }
}

proof fn lemma_chunk_partial(out0: Seq<u8>, current: Seq<u8>, ch: Seq<usize>, cs: int, k: int)
    requires
        cs > 0,
        out0.len() == current.len(),
        0 <= k <= ch.len(),
        forall|a: int| 0 <= a < ch.len() ==> #[trigger] ch[a] < num_chunks(current.len() as int, cs),
    ensures
        chunk_partial(out0, current, ch, cs, k).len() == current.len(),
        forall|i: int|
            0 <= i < current.len() ==> #[trigger] chunk_partial(out0, current, ch, cs, k)[i] == if exists|a: int|
                #![trigger ch[a]] 0 <= a < k && ch[a] * cs <= i < chunk_end(current.len() as int, cs, ch[a] as int) {
                current[i]
            } else {
                out0[i]
            },
    decreases k,
{
    if k > 0 {
        lemma_chunk_partial(out0, current, ch, cs, k - 1);
        let len = current.len() as int;
        let c = ch[k - 1] as int;
        lemma_chunk_bounds(len, cs, c);
        let p = chunk_partial(out0, current, ch, cs, k - 1);
        let q = chunk_partial(out0, current, ch, cs, k);
        let start = c * cs;
        let end = chunk_end(len, cs, c);
        assert(q.len() == len);
        assert forall|i: int| 0 <= i < len implies #[trigger] q[i] == if exists|a: int|
            #![trigger ch[a]] 0 <= a < k && ch[a] * cs <= i < chunk_end(len, cs, ch[a] as int) {
            current[i]
        } else {
            out0[i]
        } by {
            if start <= i < end {
                assert(q[i] == current[i]);
                assert(ch[k - 1] * cs <= i < chunk_end(len, cs, ch[k - 1] as int));
            } else {
                assert(q[i] == p[i]);
                if exists|a: int| #![trigger ch[a]] 0 <= a < k && ch[a] * cs <= i < chunk_end(len, cs, ch[a] as int) {
                    let a = choose|a: int|
                        #![trigger ch[a]] 0 <= a < k && ch[a] * cs <= i < chunk_end(len, cs, ch[a] as int);
                    assert(a != k - 1);
                }
            }
        }
    }
}

proof fn lemma_chunk_entries_prefix(ch: Seq<usize>, current: Seq<u8>, cs: int, j: int, m: int)
    requires
        0 <= j <= m,
    ensures
        chunk_entries(ch, current, cs, j).len() <= chunk_entries(ch, current, cs, m).len(),
        chunk_entries(ch, current, cs, m).subrange(0, chunk_entries(ch, current, cs, j).len() as int)
            == chunk_entries(ch, current, cs, j),
    decreases m,
{
    if j < m {
        lemma_chunk_entries_prefix(ch, current, cs, j, m - 1);
        let a = chunk_entries(ch, current, cs, j);
        let b = chunk_entries(ch, current, cs, m - 1);
        let c = chunk_entries(ch, current, cs, m);
        assert(c.subrange(0, b.len() as int) =~= b);
        assert(c.subrange(0, a.len() as int) =~= b.subrange(0, a.len() as int));
    } else {
        assert(chunk_entries(ch, current, cs, m).subrange(0, chunk_entries(ch, current, cs, m).len() as int)
            =~= chunk_entries(ch, current, cs, m));
    }
}

#[verifier::rlimit(60)]
proof fn lemma_chunks_parse(
    previous: Seq<u8>,
    current: Seq<u8>,
    cs: int,
    ch: Seq<usize>,
    body: Seq<u8>,
    head: int,
    k: int,
)
    requires
        cs > 0,
        cs <= usize::MAX,
        current.len() <= usize::MAX,
        ch == changed_chunks(previous, current, cs, num_chunks(current.len() as int, cs)),
        0 <= k <= ch.len(),
        0 <= head,
        body.len() <= usize::MAX,
        body.len() == head + chunk_entries(ch, current, cs, ch.len() as int).len(),
        body.subrange(head, body.len() as int) == chunk_entries(ch, current, cs, ch.len() as int),
    ensures
        chunks_parse(
            body,
            cs,
            k,
            ch.len() as int,
            head + chunk_entries(ch, current, cs, k).len(),
            if k == 0 {
                0
            } else {
                ch[k - 1] as int
            },
            chunk_partial(resized(previous, current.len() as int), current, ch, cs, k),
        ) == Some(current),
    decreases ch.len() - k,
{
    let len = current.len() as int;
    let nc = num_chunks(len, cs);
    assert(nc <= usize::MAX + 1) by {
        if nc > 0 {
            lemma_chunk_bounds(len, cs, nc - 1);
            assert((nc - 1) * cs >= nc - 1) by (nonlinear_arith)
                requires
                    cs >= 1,
                    nc >= 1,
            ;
        }
    }
    lemma_changed_chunks(previous, current, cs, nc);
    let out0 = resized(previous, len);
    lemma_chunk_partial(out0, current, ch, cs, k);
    let n = ch.len() as int;
    let cursor = head + chunk_entries(ch, current, cs, k).len();
    let out = chunk_partial(out0, current, ch, cs, k);
    if k == n {
        assert forall|i: int| 0 <= i < len implies out[i] == current[i] by {
            if !(exists|a: int| #![trigger ch[a]] 0 <= a < k && ch[a] * cs <= i < chunk_end(len, cs, ch[a] as int)) {
                lemma_chunk_of(len, cs, i);
                let c = i / cs;
                if chunk_changed(previous, current, cs, c) {
                    let a = choose|a: int| 0 <= a < ch.len() && #[trigger] ch[a] == c;
                    assert(ch[a] * cs <= i < chunk_end(len, cs, ch[a] as int));
                    assert(false);
                } else {
                    let start = c * cs;
                    let end = chunk_end(len, cs, c);
                    assert(previous.subrange(start, end)[i - start] == current.subrange(start, end)[i
                        - start]);
                    assert(out0[i] == previous[i]);
                }
            }
        }
        assert(out =~= current);
    } else {
        let c = ch[k] as int;
        lemma_chunk_bounds(len, cs, c);
        let start = c * cs;
        let end = chunk_end(len, cs, c);
        let gap = index_gap(ch, k);
        let v = varint_bytes(gap as u64);
        let w = varint_bytes((end - start) as u64);
        let data = current.subrange(start, end);
        lemma_chunk_entries_prefix(ch, current, cs, k + 1, n);
        let e1 = chunk_entries(ch, current, cs, k + 1);
        let e = chunk_entries(ch, current, cs, n);
        let ek = chunk_entries(ch, current, cs, k);
        assert(e1 == ek + v + w + data);
        if k > 0 {
            assert(ch[k - 1] < ch[k]);
        }
        let x = ek.len() as int;
        assert(e.subrange(0, e1.len() as int) == e1);
        assert(e1.subrange(x, x + v.len()) =~= v);
        assert(e.subrange(x, x + v.len()) =~= e1.subrange(x, x + v.len()));
        assert(body.subrange(cursor, cursor + v.len()) =~= e.subrange(x, x + v.len()));
        lemma_read_at(body, cursor, gap as u64);
        let y = x + v.len();
        assert(e1.subrange(y, y + w.len()) =~= w);
        assert(e.subrange(y, y + w.len()) =~= e1.subrange(y, y + w.len()));
        assert(body.subrange(cursor + v.len(), cursor + v.len() + w.len()) =~= e.subrange(
            y,
            y + w.len(),
        ));
        lemma_read_at(body, cursor + v.len(), (end - start) as u64);
        let z = y + w.len();
        let c2 = cursor + v.len() + w.len();
        assert(e1.subrange(z, z + data.len()) =~= data);
        assert(e.subrange(z, z + data.len()) =~= e1.subrange(z, z + data.len()));
        assert(body.subrange(c2, c2 + data.len()) =~= e.subrange(z, z + data.len()));
        assert((gap as u64) as usize == gap);
        assert(((end - start) as u64) as usize == end - start);
        let chunk = if k == 0 {
            gap
        } else {
            ch[k - 1] + gap
        };
        assert(chunk == c);
        assert(out.len() == len);
        let next = out.take(start) + body.subrange(c2, c2 + data.len()) + out.skip(end);
        assert(next =~= chunk_partial(out0, current, ch, cs, k + 1));
        lemma_chunks_parse(previous, current, cs, ch, body, head, k + 1);
    }
}

/// A chunk body applied to the state it was computed from gives the new state.
pub proof fn lemma_chunks_roundtrip(previous: Seq<u8>, current: Seq<u8>, chunk_size: usize)
    requires
        chunk_size > 0,
        current.len() <= usize::MAX,
        chunks_body(previous, current, chunk_size as int).len() <= usize::MAX,
    ensures
        chunks_apply(previous, chunks_body(previous, current, chunk_size as int)) == Some(current),
{
    let cs = chunk_size as int;
    let len = current.len() as int;
    let ch = changed_chunks(previous, current, cs, num_chunks(len, cs));
    let v1 = varint_bytes(current.len() as u64);
    let v2 = varint_bytes(chunk_size as u64);
    let v3 = varint_bytes(ch.len() as u64);
    let e = chunk_entries(ch, current, cs, ch.len() as int);
    let body = chunks_body(previous, current, cs);
    assert(body == v1 + v2 + v3 + e);
    assert(holds_at(body, 0, body)) by {
        assert(body.subrange(0, body.len() as int) =~= body);
    }
    lemma_holds_at_concat(body, 0, v1 + v2 + v3, e);
    lemma_holds_at_concat(body, 0, v1 + v2, v3);
    lemma_holds_at_concat(body, 0, v1, v2);
    lemma_read_at(body, 0, current.len() as u64);
    lemma_read_at(body, v1.len() as int, chunk_size as u64);
    lemma_read_at(body, (v1.len() + v2.len()) as int, ch.len() as u64);
    assert((current.len() as u64) as usize == current.len());
    assert((chunk_size as u64) as usize == chunk_size);
    assert(ch.len() <= usize::MAX) by {
        lemma_changed_chunks(previous, current, cs, 0);
        if num_chunks(len, cs) > 0 {
            lemma_chunk_bounds(len, cs, num_chunks(len, cs) - 1);
            assert((num_chunks(len, cs) - 1) * cs >= num_chunks(len, cs) - 1) by (nonlinear_arith)
                requires
                    cs >= 1,
                    num_chunks(len, cs) >= 1,
            ;
        }
        lemma_changed_chunks(previous, current, cs, num_chunks(len, cs));
    }
    assert((ch.len() as u64) as usize == ch.len());
    let head = (v1.len() + v2.len() + v3.len()) as int;
    assert(body.subrange(head, body.len() as int) =~= e);
    lemma_chunks_parse(previous, current, cs, ch, body, head, 0);
    assert(chunk_entries(ch, current, cs, 0) == Seq::<u8>::empty());
}

/// Whether `previous[start..end]` exists and equals `current[start..end]`.
fn same_bytes(previous: &[u8], current: &[u8], start: usize, end: usize) -> (b: bool)
    requires
        start <= end <= current@.len(),
    ensures
        b == (end <= previous@.len() && previous@.subrange(start as int, end as int)
            == current@.subrange(start as int, end as int)),
{
    if end > previous.len() {
        return false;
    }
    let mut i = start;
    while i < end
        invariant
            start <= i <= end,
            end <= previous@.len(),
            end <= current@.len(),
            previous@.subrange(start as int, i as int) == current@.subrange(start as int, i as int),
        decreases end - i,
    {
        if previous[i] != current[i] {
            assert(previous@.subrange(start as int, end as int)[i - start] != current@.subrange(
                start as int,
                end as int,
            )[i - start]);
            return false;
        }
        i = i + 1;
        assert(previous@.subrange(start as int, i as int) =~= current@.subrange(start as int, i as int));
    }
    true
}

fn encode_chunks(previous: &[u8], current: &[u8], chunk_size: usize) -> (out: Vec<u8>)
    requires
        chunk_size > 0,
    ensures
        out@ == seq![TAG_CHUNKS] + chunks_body(previous@, current@, chunk_size as int),
{
    let len = current.len();
    let q = len / chunk_size;
    let extra: usize = if len % chunk_size != 0 {
        1
    } else {
        0
    };
    proof {
        if len % chunk_size != 0 {
            assert(chunk_size >= 2);
            assert(q <= len / 2) by (nonlinear_arith)
                requires
                    chunk_size >= 2,
                    q == len / chunk_size,
            ;
        }
    }
    let chunks = q + extra;
    let ghost cs = chunk_size as int;
    let mut ch: Vec<usize> = Vec::new();
    let mut c: usize = 0;
    while c < chunks
        invariant
            len == current@.len(),
            chunk_size > 0,
            cs == chunk_size,
            chunks == num_chunks(len as int, cs),
            c <= chunks,
            ch@ == changed_chunks(previous@, current@, cs, c as int),
        decreases chunks - c,
    {
        proof {
            lemma_chunk_bounds(len as int, cs, c as int);
        }
        let start = c * chunk_size;
        let end = if chunk_size <= len - start {
            start + chunk_size
        } else {
            len
        };
        if !same_bytes(previous, current, start, end) {
            ch.push(c);
        }
        c = c + 1;
        assert(ch@ =~= changed_chunks(previous@, current@, cs, c as int));
    }
    proof {
        if chunks > 0 {
            lemma_chunk_bounds(len as int, cs, chunks - 1);
            assert((chunks - 1) * cs >= chunks - 1) by (nonlinear_arith)
                requires
                    cs >= 1,
                    chunks >= 1,
            ;
        }
        lemma_changed_chunks(previous@, current@, cs, chunks as int);
    }
    let mut out: Vec<u8> = Vec::new();
    out.push(TAG_CHUNKS);
    put_var_u64(&mut out, len as u64);
    put_var_u64(&mut out, chunk_size as u64);
    put_var_u64(&mut out, ch.len() as u64);
    let ghost head = out@;
    let mut k: usize = 0;
    while k < ch.len()
        invariant
            len == current@.len(),
            chunk_size > 0,
            cs == chunk_size,
            chunks == num_chunks(len as int, cs),
            ch@ == changed_chunks(previous@, current@, cs, chunks as int),
            forall|a: int, b: int| 0 <= a < b < ch@.len() ==> #[trigger] ch@[a] < #[trigger] ch@[b],
            forall|a: int| 0 <= a < ch@.len() ==> #[trigger] ch@[a] < chunks,
            k <= ch@.len(),
            out@ == head + chunk_entries(ch@, current@, cs, k as int),
        decreases ch@.len() - k,
    {
        let chunk = ch[k];
        proof {
            lemma_chunk_bounds(len as int, cs, chunk as int);
        }
        let gap = if k == 0 {
            chunk
        } else {
            chunk - ch[k - 1]
        };
        let start = chunk * chunk_size;
        let end = if chunk_size <= len - start {
            start + chunk_size
        } else {
            len
        };
        put_var_u64(&mut out, gap as u64);
        put_var_u64(&mut out, (end - start) as u64);
        append_bytes(&mut out, &current[start..end]);
        k = k + 1;
        assert(out@ =~= head + chunk_entries(ch@, current@, cs, k as int));
    }
    assert(out@ =~= seq![TAG_CHUNKS] + chunks_body(previous@, current@, cs));
    out
}

fn apply_chunks(base: &[u8], bytes: &[u8]) -> (res: Result<Vec<u8>, DeltaError>)
    ensures
        match chunks_apply(base@, bytes@) {
            Some(out) => res matches Ok(v) && v@ == out,
            None => res matches Err(e) && e is InvalidPacket,
        },
{
    let mut cursor: usize = 0;
    let new_len = read_var_u64(bytes, &mut cursor)? as usize;
    let chunk_size = read_var_u64(bytes, &mut cursor)? as usize;
    if chunk_size == 0 {
        return Err(invalid_packet("zero chunk size"));
    }
    let count = read_var_u64(bytes, &mut cursor)? as usize;
    let ghost start_cursor = cursor as int;
    let mut out = copy_bytes(base);
    out.resize(new_len, 0u8);
    assert(out@ =~= resized(base@, new_len as int));
    let mut previous_chunk: usize = 0;
    let mut n: usize = 0;
    while n < count
        invariant
            n <= count,
            chunk_size > 0,
            cursor <= bytes@.len(),
            chunks_apply(base@, bytes@) == chunks_parse(
                bytes@,
                chunk_size as int,
                0,
                count as int,
                start_cursor,
                0,
                resized(base@, new_len as int),
            ),
            chunks_parse(
                bytes@,
                chunk_size as int,
                n as int,
                count as int,
                cursor as int,
                previous_chunk as int,
                out@,
            ) == chunks_apply(base@, bytes@),
        decreases count - n,
    {
        let delta = read_var_u64(bytes, &mut cursor)? as usize;
        let chunk = if n == 0 {
            delta
        } else {
            match previous_chunk.checked_add(delta) {
                Some(v) => v,
                None => return Err(invalid_packet("chunk index overflow")),
            }
        };
        let len = read_var_u64(bytes, &mut cursor)? as usize;
        let start = match chunk.checked_mul(chunk_size) {
            Some(v) => v,
            None => return Err(invalid_packet("chunk offset overflow")),
        };
        let end = match start.checked_add(len) {
            Some(v) => v,
            None => return Err(invalid_packet("chunk length overflow")),
        };
        let src_end = match cursor.checked_add(len) {
            Some(v) => v,
            None => return Err(invalid_packet("chunk payload overflow")),
        };
        if src_end > bytes.len() {
            return Err(invalid_packet("truncated chunk payload"));
        }
        if end > out.len() {
            return Err(invalid_packet("chunk out of bounds"));
        }
        let ghost before = out@;
        write_at(&mut out, start, &bytes[cursor..src_end]);
        assert(out@ =~= before.take(start as int) + bytes@.subrange(cursor as int, src_end as int)
            + before.skip(end as int));
        cursor = src_end;
        previous_chunk = chunk;
        n = n + 1;
    }
    ensure_consumed(bytes, cursor)?;
    Ok(out)
}

// ---------------------------------------------------------------- ranges

/// End of the range before entry `k` (zero for the first entry).
pub open spec fn range_prev_end(ranges: Seq<(usize, usize)>, k: int) -> int {
    if k == 0 {
        0
    } else {
        ranges[k - 1].1 as int
    }
}

/// The first `k` range entries: varint gap from the previous end, varint length, then the bytes.
pub open spec fn range_entries(ranges: Seq<(usize, usize)>, current: Seq<u8>, k: int) -> Seq<u8>
    decreases k,
{
    if k <= 0 {
        seq![]
    } else {
        let (start, end) = ranges[k - 1];
        range_entries(ranges, current, k - 1) + varint_bytes(
            (start - range_prev_end(ranges, k - 1)) as u64,
        ) + varint_bytes((end - start) as u64) + current.subrange(start as int, end as int)
    }
}

/// Body of a range delta over the given ranges: length, number of ranges, then the entries.
pub open spec fn ranges_body(current: Seq<u8>, ranges: Seq<(usize, usize)>) -> Seq<u8> {
    varint_bytes(current.len() as u64) + varint_bytes(ranges.len() as u64) + range_entries(
        ranges,
        current,
        ranges.len() as int,
    )
}

/// Ranges in increasing, non-overlapping order, non-empty, inside `current`,
/// and together covering every position where `previous` and `current` differ.
pub open spec fn ranges_cover(previous: Seq<u8>, current: Seq<u8>, ranges: Seq<(usize, usize)>) -> bool {
    &&& previous.len() == current.len()
    &&& forall|a: int| 0 <= a < ranges.len() ==> #[trigger] ranges[a].0 < ranges[a].1 <= current.len()
    &&& forall|a: int| 0 < a < ranges.len() ==> ranges[a - 1].1 <= #[trigger] ranges[a].0
    &&& forall|i: int|
        0 <= i < current.len() && previous[i] != current[i] ==> exists|a: int|
            #![trigger ranges[a]]
            0 <= a < ranges.len() && ranges[a].0 <= i < ranges[a].1
}

/// The ranges chosen by a left-to-right scan from position `i`. `open` is the range
/// being grown, as its start and its last differing position: it grows over
/// differing bytes and over runs of equal bytes no longer than `max_gap`, and closes
/// at the first equal byte that lies more than `max_gap` past its last difference.
pub open spec fn range_scan_from(
    previous: Seq<u8>,
    current: Seq<u8>,
    max_gap: int,
    i: int,
    open: Option<(int, int)>,
) -> Seq<(usize, usize)>
    decreases current.len() - i, if open is Some { 1int } else { 0int },
{
    if i < 0 || i >= current.len() {
        match open {
            None => seq![],
            Some((s, l)) => seq![(s as usize, (l + 1) as usize)],
        }
    } else {
        match open {
            None => if previous[i] == current[i] {
                range_scan_from(previous, current, max_gap, i + 1, None)
            } else {
                range_scan_from(previous, current, max_gap, i + 1, Some((i, i)))
            },
            Some((s, l)) => if previous[i] != current[i] {
                range_scan_from(previous, current, max_gap, i + 1, Some((s, i)))
            } else if i - l > max_gap {
                seq![(s as usize, (l + 1) as usize)] + range_scan_from(
                    previous,
                    current,
                    max_gap,
                    i,
                    None,
                )
            } else {
                range_scan_from(previous, current, max_gap, i + 1, Some((s, l)))
            },
        }
    }
}

/// The ranges a range delta from `previous` to `current` carries.
pub open spec fn range_scan(previous: Seq<u8>, current: Seq<u8>, max_gap: int) -> Seq<(usize, usize)> {
    range_scan_from(previous, current, max_gap, 0, None)
}

/// The scan from `i` (with `open` grown so far) yields ordered, non-empty ranges
/// inside `current` that start no earlier than the open range (or `i`) and cover
/// every later differing position.
proof fn lemma_scan_props(
    previous: Seq<u8>,
    current: Seq<u8>,
    max_gap: int,
    i: int,
    open: Option<(int, int)>,
)
    requires
        previous.len() == current.len(),
        current.len() <= usize::MAX,
        0 <= i <= current.len(),
        max_gap >= 0,
        open matches Some((s, l)) ==> 0 <= s <= l < i && forall|j: int|
            s <= j < i && previous[j] != current[j] ==> j <= l,
    ensures
        ({
            let r = range_scan_from(previous, current, max_gap, i, open);
            let lo = match open {
                Some((s, l)) => s,
                None => i,
            };
            &&& forall|a: int| 0 <= a < r.len() ==> lo <= #[trigger] r[a].0 < r[a].1 <= current.len()
            &&& forall|a: int| 0 < a < r.len() ==> r[a - 1].1 <= #[trigger] r[a].0
            &&& forall|j: int|
                lo <= j < current.len() && previous[j] != current[j] ==> exists|a: int|
                    #![trigger r[a]]
                    0 <= a < r.len() && r[a].0 <= j < r[a].1
            &&& r.len() <= current.len() - i + if open is Some { 1int } else { 0int }
        }),
    decreases current.len() - i, if open is Some { 1int } else { 0int },
{
    let r = range_scan_from(previous, current, max_gap, i, open);
    if i >= current.len() {
        match open {
            None => {},
            Some((s, l)) => {
                assert forall|j: int|
                    s <= j < current.len() && previous[j] != current[j] implies exists|a: int|
                    #![trigger r[a]]
                    0 <= a < r.len() && r[a].0 <= j < r[a].1 by {
                    assert(r[0].0 <= j < r[0].1);
                }
            },
        }
    } else {
        match open {
            None => {
                if previous[i] == current[i] {
                    lemma_scan_props(previous, current, max_gap, i + 1, None);
                } else {
                    lemma_scan_props(previous, current, max_gap, i + 1, Some((i, i)));
                }
            },
            Some((s, l)) => {
                if previous[i] != current[i] {
                    lemma_scan_props(previous, current, max_gap, i + 1, Some((s, i)));
                } else if i - l > max_gap {
                    lemma_scan_props(previous, current, max_gap, i, None);
                    let rest = range_scan_from(previous, current, max_gap, i, None);
                    let head = (s as usize, (l + 1) as usize);
                    assert(r == seq![head] + rest);
                    assert forall|a: int| 0 <= a < r.len() implies s <= #[trigger] r[a].0
                        < r[a].1 <= current.len() by {
                        if a > 0 {
                            assert(r[a] == rest[a - 1]);
                        } else {
                            assert(r[a] == head);
                            assert(l + 1 <= current.len());
                        }
                    }
                    assert forall|a: int| 0 < a < r.len() implies r[a - 1].1 <= #[trigger] r[a].0 by {
                        assert(r[a] == rest[a - 1]);
                        if a > 1 {
                            assert(r[a - 1] == rest[a - 2]);
                        }
                    }
                    assert forall|j: int|
                        s <= j < current.len() && previous[j] != current[j] implies exists|a: int|
                        #![trigger r[a]]
                        0 <= a < r.len() && r[a].0 <= j < r[a].1 by {
                        if j < i {
                            assert(r[0].0 <= j < r[0].1);
                        } else {
                            let b = choose|b: int|
                                #![trigger rest[b]]
                                0 <= b < rest.len() && rest[b].0 <= j < rest[b].1;
                            assert(r[b + 1] == rest[b]);
                        }
                    }
                } else {
                    lemma_scan_props(previous, current, max_gap, i + 1, Some((s, l)));
                }
            },
        }
    }
}

/// The ranges a range delta carries cover every difference, in order, and
/// number no more than the bytes of the state.
pub proof fn lemma_range_scan_covers(previous: Seq<u8>, current: Seq<u8>, max_gap: int)
    requires
        previous.len() == current.len(),
        current.len() <= usize::MAX,
        max_gap >= 0,
    ensures
        ranges_cover(previous, current, range_scan(previous, current, max_gap)),
        range_scan(previous, current, max_gap).len() <= current.len(),
{
    lemma_scan_props(previous, current, max_gap, 0, None);
}

/// Skipping over equal bytes does not change the scan.
proof fn lemma_scan_skip(previous: Seq<u8>, current: Seq<u8>, max_gap: int, a: int, b: int)
    requires
        0 <= a <= b <= current.len(),
        forall|j: int| a <= j < b ==> previous[j] == current[j],
    ensures
        range_scan_from(previous, current, max_gap, a, None) == range_scan_from(
            previous,
            current,
            max_gap,
            b,
            None,
        ),
    decreases b - a,
{
    if a < b {
        lemma_scan_skip(previous, current, max_gap, a + 1, b);
    }
}

/// Reads range entries `n..count` starting at `cursor`, writing into `out`.
pub open spec fn ranges_parse(
    bytes: Seq<u8>,
    n: int,
    count: int,
    cursor: int,
    prev_end: int,
    out: Seq<u8>,
) -> Option<Seq<u8>>
    decreases count - n,
{
    if n >= count {
        if cursor == bytes.len() {
            Some(out)
        } else {
            None
        }
    } else {
        match read_varint(bytes, cursor) {
            None => None,
            Some((g, c1)) => match read_varint(bytes, c1) {
                None => None,
                Some((l, c2)) => {
                    let gap = (g as usize) as int;
                    let len = (l as usize) as int;
                    let start = prev_end + gap;
                    let end = start + len;
                    let src_end = c2 + len;
                    if start > usize::MAX || end > usize::MAX || src_end > usize::MAX || src_end
                        > bytes.len() || end > out.len() {
                        None
                    } else {
                        ranges_parse(
                            bytes,
                            n + 1,
                            count,
                            src_end,
                            end,
                            out.take(start) + bytes.subrange(c2, src_end) + out.skip(end),
                        )
                    }
                },
            },
        }
    }
}

/// Applying a range body to `base`.
pub open spec fn ranges_apply(base: Seq<u8>, bytes: Seq<u8>) -> Option<Seq<u8>> {
    match read_varint(bytes, 0) {
        None => None,
        Some((len, c1)) => if (len as usize) as int != base.len() {
            None
        } else {
            match read_varint(bytes, c1) {
                None => None,
                Some((count, c2)) => ranges_parse(bytes, 0, (count as usize) as int, c2, 0, base),
            }
        },
    }
}

/// `previous` with the first `k` ranges copied from `current`.
pub open spec fn range_partial(previous: Seq<u8>, current: Seq<u8>, ranges: Seq<(usize, usize)>, k: int) -> Seq<u8>
    decreases k,
{
    if k <= 0 {
        previous
    } else {
        let p = range_partial(previous, current, ranges, k - 1);
        let (start, end) = ranges[k - 1];
        p.take(start as int) + current.subrange(start as int, end as int) + p.skip(end as int)
    }
}

proof fn lemma_range_partial(previous: Seq<u8>, current: Seq<u8>, ranges: Seq<(usize, usize)>, k: int)
    requires
        ranges_cover(previous, current, ranges),
        0 <= k <= ranges.len(),
    ensures
        range_partial(previous, current, ranges, k).len() == current.len(),
        forall|i: int|
            0 <= i < current.len() ==> #[trigger] range_partial(previous, current, ranges, k)[i] == if exists|a: int|
                #![trigger ranges[a]]
                0 <= a < k && ranges[a].0 <= i < ranges[a].1 {
                current[i]
            } else {
                previous[i]
            },
    decreases k,
{
    if k > 0 {
        lemma_range_partial(previous, current, ranges, k - 1);
        let p = range_partial(previous, current, ranges, k - 1);
        let q = range_partial(previous, current, ranges, k);
        let (start, end) = ranges[k - 1];
        assert(start < end <= current.len());
        assert forall|i: int| 0 <= i < current.len() implies #[trigger] q[i] == if exists|a: int|
            #![trigger ranges[a]]
            0 <= a < k && ranges[a].0 <= i < ranges[a].1 {
            current[i]
        } else {
            previous[i]
        } by {
            if start <= i < end {
                assert(q[i] == current[i]);
                assert(ranges[k - 1].0 <= i < ranges[k - 1].1);
            } else {
                assert(q[i] == p[i]);
                if exists|a: int| #![trigger ranges[a]] 0 <= a < k && ranges[a].0 <= i < ranges[a].1 {
                    let a = choose|a: int| #![trigger ranges[a]] 0 <= a < k && ranges[a].0 <= i < ranges[a].1;
                    assert(a != k - 1);
                }
            }
        }
    }
}

proof fn lemma_range_entries_prefix(ranges: Seq<(usize, usize)>, current: Seq<u8>, j: int, m: int)
    requires
        0 <= j <= m,
    ensures
        range_entries(ranges, current, j).len() <= range_entries(ranges, current, m).len(),
        range_entries(ranges, current, m).subrange(0, range_entries(ranges, current, j).len() as int)
            == range_entries(ranges, current, j),
    decreases m,
{
    if j < m {
        lemma_range_entries_prefix(ranges, current, j, m - 1);
        let a = range_entries(ranges, current, j);
        let b = range_entries(ranges, current, m - 1);
        let c = range_entries(ranges, current, m);
        assert(c.subrange(0, b.len() as int) =~= b);
        assert(c.subrange(0, a.len() as int) =~= b.subrange(0, a.len() as int));
    } else {
        assert(range_entries(ranges, current, m).subrange(0, range_entries(ranges, current, m).len() as int)
            =~= range_entries(ranges, current, m));
    }
}

#[verifier::rlimit(60)]
proof fn lemma_ranges_parse(
    previous: Seq<u8>,
    current: Seq<u8>,
    ranges: Seq<(usize, usize)>,
    body: Seq<u8>,
    head: int,
    k: int,
)
    requires
        ranges_cover(previous, current, ranges),
        current.len() <= usize::MAX,
        0 <= k <= ranges.len(),
        0 <= head,
        body.len() <= usize::MAX,
        body.len() == head + range_entries(ranges, current, ranges.len() as int).len(),
        body.subrange(head, body.len() as int) == range_entries(ranges, current, ranges.len() as int),
    ensures
        ranges_parse(
            body,
            k,
            ranges.len() as int,
            head + range_entries(ranges, current, k).len(),
            range_prev_end(ranges, k),
            range_partial(previous, current, ranges, k),
        ) == Some(current),
    decreases ranges.len() - k,
{
    lemma_range_partial(previous, current, ranges, k);
    let n = ranges.len() as int;
    let cursor = head + range_entries(ranges, current, k).len();
    let out = range_partial(previous, current, ranges, k);
    if k == n {
        assert forall|i: int| 0 <= i < current.len() implies out[i] == current[i] by {
            if previous[i] != current[i] {
                let a = choose|a: int| #![trigger ranges[a]] 0 <= a < ranges.len() && ranges[a].0 <= i < ranges[a].1;
            }
        }
        assert(out =~= current);
    } else {
        let (start, end) = ranges[k];
        assert(start < end <= current.len());
        let pe = range_prev_end(ranges, k);
        if k > 0 {
            assert(ranges[k - 1].1 <= ranges[k].0);
        }
        let gap = start - pe;
        let v = varint_bytes(gap as u64);
        let w = varint_bytes((end - start) as u64);
        let data = current.subrange(start as int, end as int);
        lemma_range_entries_prefix(ranges, current, k + 1, n);
        let e1 = range_entries(ranges, current, k + 1);
        let e = range_entries(ranges, current, n);
        let ek = range_entries(ranges, current, k);
        assert(e1 == ek + v + w + data);
        let x = ek.len() as int;
        assert(e.subrange(0, e1.len() as int) == e1);
        assert(e1.subrange(x, x + v.len()) =~= v);
        assert(e.subrange(x, x + v.len()) =~= e1.subrange(x, x + v.len()));
        assert(body.subrange(cursor, cursor + v.len()) =~= e.subrange(x, x + v.len()));
        lemma_read_at(body, cursor, gap as u64);
        let y = x + v.len();
        assert(e1.subrange(y, y + w.len()) =~= w);
        assert(e.subrange(y, y + w.len()) =~= e1.subrange(y, y + w.len()));
        assert(body.subrange(cursor + v.len(), cursor + v.len() + w.len()) =~= e.subrange(
            y,
            y + w.len(),
        ));
        lemma_read_at(body, cursor + v.len(), (end - start) as u64);
        let z = y + w.len();
        let c2 = cursor + v.len() + w.len();
        assert(e1.subrange(z, z + data.len()) =~= data);
        assert(e.subrange(z, z + data.len()) =~= e1.subrange(z, z + data.len()));
        assert(body.subrange(c2, c2 + data.len()) =~= e.subrange(z, z + data.len()));
        assert((gap as u64) as usize == gap);
        assert(((end - start) as u64) as usize == end - start);
        let next = out.take(start as int) + body.subrange(c2, c2 + data.len()) + out.skip(end as int);
        assert(next =~= range_partial(previous, current, ranges, k + 1));
        lemma_ranges_parse(previous, current, ranges, body, head, k + 1);
    }
}

/// A range body over covering ranges, applied to the state it was computed from,
/// gives the new state.
pub proof fn lemma_ranges_roundtrip(previous: Seq<u8>, current: Seq<u8>, ranges: Seq<(usize, usize)>)
    requires
        ranges_cover(previous, current, ranges),
        current.len() <= usize::MAX,
        ranges.len() <= usize::MAX,
        ranges_body(current, ranges).len() <= usize::MAX,
    ensures
        ranges_apply(previous, ranges_body(current, ranges)) == Some(current),
{
    let v1 = varint_bytes(current.len() as u64);
    let v2 = varint_bytes(ranges.len() as u64);
    let e = range_entries(ranges, current, ranges.len() as int);
    let body = ranges_body(current, ranges);
    assert(holds_at(body, 0, body)) by {
        assert(body.subrange(0, body.len() as int) =~= body);
    }
    lemma_holds_at_concat(body, 0, v1 + v2, e);
    lemma_holds_at_concat(body, 0, v1, v2);
    lemma_read_at(body, 0, current.len() as u64);
    lemma_read_at(body, v1.len() as int, ranges.len() as u64);
    assert((current.len() as u64) as usize == current.len());
    assert((ranges.len() as u64) as usize == ranges.len());
    let head = (v1.len() + v2.len()) as int;
    assert(body.subrange(head, body.len() as int) =~= e);
    lemma_ranges_parse(previous, current, ranges, body, head, 0);
    assert(range_entries(ranges, current, 0) == Seq::<u8>::empty());
}

fn encode_ranges(previous: &[u8], current: &[u8], max_gap: usize) -> (out: Vec<u8>)
    requires
        previous@.len() == current@.len(),
    ensures
        out@ == seq![TAG_RANGES] + ranges_body(current@, range_scan(previous@, current@, max_gap as int)),
        ranges_cover(previous@, current@, range_scan(previous@, current@, max_gap as int)),
        range_scan(previous@, current@, max_gap as int).len() <= current@.len(),
{
    let ghost total = range_scan(previous@, current@, max_gap as int);
    let len = current.len();
    let mut ranges: Vec<(usize, usize)> = Vec::new();
    let mut i: usize = 0;
    while i < len
        invariant
            len == current@.len(),
            previous@.len() == current@.len(),
            i <= len,
            total == range_scan(previous@, current@, max_gap as int),
            ranges@ + range_scan_from(previous@, current@, max_gap as int, i as int, None) == total,
            ranges@.len() <= i,
            forall|a: int| 0 <= a < ranges@.len() ==> #[trigger] ranges@[a].0 < ranges@[a].1 <= i,
            forall|a: int| 0 < a < ranges@.len() ==> ranges@[a - 1].1 <= #[trigger] ranges@[a].0,
            forall|j: int|
                0 <= j < i && previous@[j] != current@[j] ==> exists|a: int|
                    #![trigger ranges@[a]]
                    0 <= a < ranges@.len() && ranges@[a].0 <= j < ranges@[a].1,
        decreases len - i,
    {
        if previous[i] == current[i] {
            i = i + 1;
        } else {
            let start = i;
            let mut last_changed = i;
            i = i + 1;
            let mut scanning = true;
            assert(range_scan_from(previous@, current@, max_gap as int, start as int, None)
                == range_scan_from(
                previous@,
                current@,
                max_gap as int,
                i as int,
                Some((start as int, start as int)),
            ));
            while scanning && i < len
                invariant
                    len == current@.len(),
                    previous@.len() == current@.len(),
                    start <= last_changed < i <= len,
                    total == range_scan(previous@, current@, max_gap as int),
                    scanning ==> ranges@ + range_scan_from(
                        previous@,
                        current@,
                        max_gap as int,
                        i as int,
                        Some((start as int, last_changed as int)),
                    ) == total,
                    !scanning ==> ranges@ + seq![(start, (last_changed + 1) as usize)]
                        + range_scan_from(previous@, current@, max_gap as int, i as int, None)
                        == total,
                    !scanning ==> i < len && previous@[i as int] == current@[i as int],
                    forall|j: int| start <= j < i && previous@[j] != current@[j] ==> j <= last_changed,
                    ranges@.len() <= start,
                    forall|a: int| 0 <= a < ranges@.len() ==> #[trigger] ranges@[a].0 < ranges@[a].1 <= start,
                    forall|a: int| 0 < a < ranges@.len() ==> ranges@[a - 1].1 <= #[trigger] ranges@[a].0,
                    forall|j: int|
                        0 <= j < start && previous@[j] != current@[j] ==> exists|a: int|
                            #![trigger ranges@[a]]
                            0 <= a < ranges@.len() && ranges@[a].0 <= j < ranges@[a].1,
                decreases 2 * (len - i) + if scanning { 1int } else { 0int },
            {
                if previous[i] != current[i] {
                    last_changed = i;
                    i = i + 1;
                } else if i - last_changed > max_gap {
                    scanning = false;
                    proof {
                        assert(ranges@ + range_scan_from(
                            previous@,
                            current@,
                            max_gap as int,
                            i as int,
                            Some((start as int, last_changed as int)),
                        ) =~= ranges@ + seq![(start, (last_changed + 1) as usize)] + range_scan_from(
                            previous@,
                            current@,
                            max_gap as int,
                            i as int,
                            None,
                        ));
                    }
                } else {
                    i = i + 1;
                }
            }
            let ghost old_ranges = ranges@;
            ranges.push((start, last_changed + 1));
            proof {
                if scanning {
                    assert(range_scan_from(
                        previous@,
                        current@,
                        max_gap as int,
                        i as int,
                        Some((start as int, last_changed as int)),
                    ) == seq![(start, (last_changed + 1) as usize)]);
                    lemma_scan_skip(previous@, current@, max_gap as int, last_changed + 1, i as int);
                    assert(range_scan_from(previous@, current@, max_gap as int, len as int, None)
                        == Seq::<(usize, usize)>::empty());
                    assert(ranges@ + range_scan_from(
                        previous@,
                        current@,
                        max_gap as int,
                        last_changed + 1,
                        None,
                    ) =~= total);
                } else {
                    lemma_scan_skip(previous@, current@, max_gap as int, last_changed + 1, i as int);
                    assert(ranges@ + range_scan_from(
                        previous@,
                        current@,
                        max_gap as int,
                        last_changed + 1,
                        None,
                    ) =~= total);
                }
            }
            i = last_changed + 1;
            proof {
                assert(ranges@ == old_ranges.push((start, (last_changed + 1) as usize)));
                assert forall|a: int| 0 <= a < ranges@.len() implies #[trigger] ranges@[a].0
                    < ranges@[a].1 <= i by {
                    if a < old_ranges.len() {
                        assert(ranges@[a] == old_ranges[a]);
                        assert(old_ranges[a].0 < old_ranges[a].1 <= start);
                    } else {
                        assert(ranges@[a] == (start, (last_changed + 1) as usize));
                    }
                }
                assert forall|a: int| 0 < a < ranges@.len() implies ranges@[a - 1].1
                    <= #[trigger] ranges@[a].0 by {
                    assert(ranges@[a - 1] == old_ranges[a - 1]);
                    assert(old_ranges[a - 1].0 < old_ranges[a - 1].1 <= start);
                    if a < old_ranges.len() {
                        assert(ranges@[a] == old_ranges[a]);
                        assert(old_ranges[a - 1].1 <= old_ranges[a].0);
                    } else {
                        assert(ranges@[a] == (start, (last_changed + 1) as usize));
                    }
                }
                assert forall|j: int| 0 <= j < i && previous@[j] != current@[j] implies exists|a: int|
                    #![trigger ranges@[a]]
                    0 <= a < ranges@.len() && ranges@[a].0 <= j < ranges@[a].1 by {
                    if j < start {
                        let a = choose|a: int|
                            #![trigger old_ranges[a]]
                            0 <= a < old_ranges.len() && old_ranges[a].0 <= j < old_ranges[a].1;
                        assert(ranges@[a] == old_ranges[a]);
                    } else {
                        assert(ranges@[old_ranges.len() as int] == (start, (last_changed + 1) as usize));
                    }
                }
            }
        }
    }
    let mut out: Vec<u8> = Vec::new();
    out.push(TAG_RANGES);
    put_var_u64(&mut out, len as u64);
    put_var_u64(&mut out, ranges.len() as u64);
    let ghost head = out@;
    let mut previous_end: usize = 0;
    let mut k: usize = 0;
    while k < ranges.len()
        invariant
            len == current@.len(),
            forall|a: int| 0 <= a < ranges@.len() ==> #[trigger] ranges@[a].0 < ranges@[a].1 <= len,
            forall|a: int| 0 < a < ranges@.len() ==> ranges@[a - 1].1 <= #[trigger] ranges@[a].0,
            k <= ranges@.len(),
            previous_end == range_prev_end(ranges@, k as int),
            out@ == head + range_entries(ranges@, current@, k as int),
        decreases ranges@.len() - k,
    {
        let (start, end) = ranges[k];
        if k > 0 {
            assert(ranges@[k - 1].1 <= ranges@[k as int].0);
        }
        put_var_u64(&mut out, start.saturating_sub(previous_end) as u64);
        put_var_u64(&mut out, (end - start) as u64);
        append_bytes(&mut out, &current[start..end]);
        previous_end = end;
        k = k + 1;
        assert(out@ =~= head + range_entries(ranges@, current@, k as int));
    }
    assert(ranges@ =~= total) by {
        assert(range_scan_from(previous@, current@, max_gap as int, len as int, None)
            == Seq::<(usize, usize)>::empty());
    }
    assert(out@ =~= seq![TAG_RANGES] + ranges_body(current@, ranges@));
    assert(ranges_cover(previous@, current@, ranges@));
    out
}

fn apply_ranges(base: &[u8], bytes: &[u8]) -> (res: Result<Vec<u8>, DeltaError>)
    ensures
        match ranges_apply(base@, bytes@) {
            Some(out) => res matches Ok(v) && v@ == out,
            None => res matches Err(e) && e is InvalidPacket,
        },
{
    let mut cursor: usize = 0;
    let new_len = read_var_u64(bytes, &mut cursor)? as usize;
    if new_len != base.len() {
        return Err(invalid_packet("range delta length mismatch"));
    }
    let count = read_var_u64(bytes, &mut cursor)? as usize;
    let ghost start_cursor = cursor as int;
    let mut out = copy_bytes(base);
    let mut previous_end: usize = 0;
    let mut n: usize = 0;
    while n < count
        invariant
            n <= count,
            cursor <= bytes@.len(),
            ranges_apply(base@, bytes@) == ranges_parse(bytes@, 0, count as int, start_cursor, 0, base@),
            ranges_parse(bytes@, n as int, count as int, cursor as int, previous_end as int, out@)
                == ranges_apply(base@, bytes@),
        decreases count - n,
    {
        let gap = read_var_u64(bytes, &mut cursor)? as usize;
        let len = read_var_u64(bytes, &mut cursor)? as usize;
        let start = match previous_end.checked_add(gap) {
            Some(v) => v,
            None => return Err(invalid_packet("range index overflow")),
        };
        let end = match start.checked_add(len) {
            Some(v) => v,
            None => return Err(invalid_packet("range length overflow")),
        };
        let src_end = match cursor.checked_add(len) {
            Some(v) => v,
            None => return Err(invalid_packet("range payload overflow")),
        };
        if src_end > bytes.len() {
            return Err(invalid_packet("truncated range bytes"));
        }
        if end > out.len() {
            return Err(invalid_packet("range out of bounds"));
        }
        let ghost before = out@;
        write_at(&mut out, start, &bytes[cursor..src_end]);
        assert(out@ =~= before.take(start as int) + bytes@.subrange(cursor as int, src_end as int)
            + before.skip(end as int));
        cursor = src_end;
        previous_end = end;
        n = n + 1;
    }
    ensure_consumed(bytes, cursor)?;
    Ok(out)
}

// ---------------------------------------------------------------- dispatch

/// The strategy a payload tag names.
pub open spec fn tag_kind(tag: u8) -> Option<SmartDeltaKind> {
    if tag == TAG_SPARSE {
        Some(SmartDeltaKind::Sparse)
    } else if tag == TAG_RANGES {
        Some(SmartDeltaKind::Ranges)
    } else if tag == TAG_XOR {
        Some(SmartDeltaKind::Xor)
    } else if tag == TAG_SPLICE {
        Some(SmartDeltaKind::Splice)
    } else if tag == TAG_CHUNKS {
        Some(SmartDeltaKind::Chunks)
    } else {
        None
    }
}

/// Applying a tagged smart-delta payload to `base`: the first byte picks the
/// strategy, the rest is that strategy's body.
pub open spec fn smart_apply(base: Seq<u8>, payload: Seq<u8>) -> Option<Seq<u8>> {
    if payload.len() == 0 {
        None
    } else {
        let body = payload.subrange(1, payload.len() as int);
        match tag_kind(payload[0]) {
            Some(SmartDeltaKind::Sparse) => sparse_apply(base, body),
            Some(SmartDeltaKind::Ranges) => ranges_apply(base, body),
            Some(SmartDeltaKind::Xor) => xor_apply(base, body),
            Some(SmartDeltaKind::Splice) => splice_apply(base, body),
            Some(SmartDeltaKind::Chunks) => chunks_apply(base, body),
            None => None,
        }
    }
}

/// The strategies that only apply between states of equal length.
pub open spec fn needs_equal_len(kind: SmartDeltaKind) -> bool {
    kind is Sparse || kind is Ranges || kind is Xor
}

/// The chunk size a policy asks for, at least one.
pub open spec fn effective_chunk_size(policy: SmartDeltaPolicy) -> int {
    if policy.chunk_size == 0 {
        1
    } else {
        policy.chunk_size as int
    }
}

/// The payload strategy `kind` produces for `previous -> current` under `policy`.
pub open spec fn candidate_payload(
    kind: SmartDeltaKind,
    previous: Seq<u8>,
    current: Seq<u8>,
    policy: SmartDeltaPolicy,
) -> Seq<u8> {
    match kind {
        SmartDeltaKind::Sparse => seq![TAG_SPARSE] + sparse_body(previous, current),
        SmartDeltaKind::Ranges => seq![TAG_RANGES] + ranges_body(
            current,
            range_scan(previous, current, policy.max_range_gap as int),
        ),
        SmartDeltaKind::Xor => seq![TAG_XOR] + xor_body(previous, current),
        SmartDeltaKind::Splice => seq![TAG_SPLICE] + splice_body(previous, current),
        SmartDeltaKind::Chunks => seq![TAG_CHUNKS] + chunks_body(
            previous,
            current,
            effective_chunk_size(policy),
        ),
    }
}

/// The strategies tried for `previous -> current`, in order: sparse, ranges and
/// xor when the lengths agree, then splice and chunks.
pub open spec fn candidate_kinds(same_len: bool) -> Seq<SmartDeltaKind> {
    if same_len {
        seq![
            SmartDeltaKind::Sparse,
            SmartDeltaKind::Ranges,
            SmartDeltaKind::Xor,
            SmartDeltaKind::Splice,
            SmartDeltaKind::Chunks,
        ]
    } else {
        seq![SmartDeltaKind::Splice, SmartDeltaKind::Chunks]
    }
}

/// `c` is the candidate of strategy `kind` for `previous -> current`, and it applies.
#[verifier::opaque]
pub open spec fn is_candidate(
    c: SmartDeltaCandidate,
    kind: SmartDeltaKind,
    previous: Seq<u8>,
    current: Seq<u8>,
    policy: SmartDeltaPolicy,
) -> bool {
    &&& c.kind == kind
    &&& c.payload@ == candidate_payload(kind, previous, current, policy)
    &&& smart_apply(previous, c.payload@) == Some(current)
}

/// Every candidate payload turns the state it was computed from into the new state.
pub proof fn lemma_candidate_roundtrip(
    kind: SmartDeltaKind,
    previous: Seq<u8>,
    current: Seq<u8>,
    policy: SmartDeltaPolicy,
)
    requires
        needs_equal_len(kind) ==> previous.len() == current.len(),
        previous.len() <= usize::MAX,
        current.len() <= usize::MAX,
        candidate_payload(kind, previous, current, policy).len() <= usize::MAX,
    ensures
        smart_apply(previous, candidate_payload(kind, previous, current, policy)) == Some(current),
{
    let payload = candidate_payload(kind, previous, current, policy);
    let body = payload.subrange(1, payload.len() as int);
    match kind {
        SmartDeltaKind::Sparse => {
            assert(body =~= sparse_body(previous, current));
            lemma_sparse_roundtrip(previous, current);
        },
        SmartDeltaKind::Ranges => {
            let ranges = range_scan(previous, current, policy.max_range_gap as int);
            lemma_range_scan_covers(previous, current, policy.max_range_gap as int);
            assert(body =~= ranges_body(current, ranges));
            lemma_ranges_roundtrip(previous, current, ranges);
        },
        SmartDeltaKind::Xor => {
            assert(body =~= xor_body(previous, current));
            lemma_xor_roundtrip(previous, current);
        },
        SmartDeltaKind::Splice => {
            assert(body =~= splice_body(previous, current));
            lemma_splice_roundtrip(previous, current);
        },
        SmartDeltaKind::Chunks => {
            let cs = effective_chunk_size(policy);
            assert(body =~= chunks_body(previous, current, cs));
            lemma_chunks_roundtrip(previous, current, cs as usize);
        },
    }
}

/// Applies a smart-delta payload to `base`.
pub fn apply(base: &[u8], payload: &[u8]) -> (res: Result<Vec<u8>, DeltaError>)
    ensures
        match smart_apply(base@, payload@) {
            Some(out) => res matches Ok(v) && v@ == out,
            None => res matches Err(e) && e is InvalidPacket,
        },
{
    if payload.len() == 0 {
        return Err(invalid_packet("empty smart delta"));
    }
    let tag = payload[0];
    let rest = &payload[1..payload.len()];
    assert(rest@ == payload@.subrange(1, payload@.len() as int));
    if tag == TAG_SPARSE {
        apply_sparse(base, rest)
    } else if tag == TAG_RANGES {
        apply_ranges(base, rest)
    } else if tag == TAG_XOR {
        apply_xor(base, rest)
    } else if tag == TAG_SPLICE {
        apply_splice(base, rest)
    } else if tag == TAG_CHUNKS {
        apply_chunks(base, rest)
    } else {
        Err(invalid_packet("unknown smart delta kind"))
    }
}

/// The strategy a smart-delta payload was produced by.
pub fn kind(payload: &[u8]) -> (res: Result<SmartDeltaKind, DeltaError>)
    ensures
        payload@.len() == 0 ==> (res matches Err(e) && e is InvalidPacket),
        payload@.len() > 0 ==> match tag_kind(payload@[0]) {
            Some(k) => res == Ok::<SmartDeltaKind, DeltaError>(k),
            None => res matches Err(e) && e is InvalidPacket,
        },
{
    if payload.len() == 0 {
        return Err(invalid_packet("empty smart delta"));
    }
    let tag = payload[0];
    if tag == TAG_SPARSE {
        Ok(SmartDeltaKind::Sparse)
    } else if tag == TAG_RANGES {
        Ok(SmartDeltaKind::Ranges)
    } else if tag == TAG_XOR {
        Ok(SmartDeltaKind::Xor)
    } else if tag == TAG_SPLICE {
        Ok(SmartDeltaKind::Splice)
    } else if tag == TAG_CHUNKS {
        Ok(SmartDeltaKind::Chunks)
    } else {
        Err(invalid_packet("unknown smart delta kind"))
    }
}

/// Encodes `previous -> current` with one strategy. Sparse, ranges and xor need
/// states of equal length; the result always applies back to `current`.
pub fn encode_candidate(
    kind: SmartDeltaKind,
    previous: &[u8],
    current: &[u8],
    policy: SmartDeltaPolicy,
) -> (res: Result<SmartDeltaCandidate, DeltaError>)
    ensures
        needs_equal_len(kind) && previous@.len() != current@.len() ==> (res matches Err(e)
            && e is InvalidState),
        !(needs_equal_len(kind) && previous@.len() != current@.len()) ==> (res matches Ok(c)
            && is_candidate(c, kind, previous@, current@, policy)),
{
    let payload = match kind {
        SmartDeltaKind::Sparse => {
            if previous.len() != current.len() {
                return Err(DeltaError::InvalidState("sparse delta requires equal lengths"));
            }
            encode_sparse(previous, current)
        },
        SmartDeltaKind::Ranges => {
            if previous.len() != current.len() {
                return Err(DeltaError::InvalidState("range delta requires equal lengths"));
            }
            encode_ranges(previous, current, policy.max_range_gap)
        },
        SmartDeltaKind::Xor => {
            if previous.len() != current.len() {
                return Err(DeltaError::InvalidState("xor delta requires equal lengths"));
            }
            encode_xor(previous, current)
        },
        SmartDeltaKind::Splice => encode_splice(previous, current),
        SmartDeltaKind::Chunks => {
            let chunk_size = if policy.chunk_size == 0 {
                1
            } else {
                policy.chunk_size
            };
            encode_chunks(previous, current, chunk_size)
        },
    };
    proof {
        assert(payload@.len() == payload.len());
        assert(previous@.len() == previous.len());
        assert(current@.len() == current.len());
        lemma_candidate_roundtrip(kind, previous@, current@, policy);
    }
    let c = SmartDeltaCandidate { kind, payload };
    assert(is_candidate(c, kind, previous@, current@, policy)) by {
        reveal(is_candidate);
    }
    Ok(c)
}

/// Every candidate strategy for `previous -> current`: sparse, ranges and xor
/// when the lengths agree, then splice and chunks.
pub fn encode_candidates(previous: &[u8], current: &[u8], policy: SmartDeltaPolicy) -> (res: Result<
    Vec<SmartDeltaCandidate>,
    DeltaError,
>)
    ensures
        res matches Ok(v) && v@.len() == candidate_kinds(previous@.len() == current@.len()).len()
            && forall|i: int|
            0 <= i < v@.len() ==> is_candidate(
                #[trigger] v@[i],
                candidate_kinds(previous@.len() == current@.len())[i],
                previous@,
                current@,
                policy,
            ),
{
    let ghost kinds = candidate_kinds(previous@.len() == current@.len());
    let mut out: Vec<SmartDeltaCandidate> = Vec::with_capacity(5);
    if previous.len() == current.len() {
        let sparse = encode_candidate(SmartDeltaKind::Sparse, previous, current, policy)?;
        let ranges = encode_candidate(SmartDeltaKind::Ranges, previous, current, policy)?;
        let xor = encode_candidate(SmartDeltaKind::Xor, previous, current, policy)?;
        out.push(sparse);
        out.push(ranges);
        out.push(xor);
    }
    let splice = encode_candidate(SmartDeltaKind::Splice, previous, current, policy)?;
    let chunks = encode_candidate(SmartDeltaKind::Chunks, previous, current, policy)?;
    let ghost before = out@;
    out.push(splice);
    out.push(chunks);
    proof {
        assert(out@ == before + seq![splice, chunks]);
        assert forall|i: int| 0 <= i < out@.len() implies is_candidate(
            #[trigger] out@[i],
            kinds[i],
            previous@,
            current@,
            policy,
        ) by {
            if i >= before.len() {
                assert(out@[i] == seq![splice, chunks][i - before.len()]);
            } else {
                assert(out@[i] == before[i]);
            }
        }
    }
    Ok(out)
}

// ---------------------------------------------------------------- tuning

/// Decides, from observed compression outcomes, the smallest payload worth
/// compressing. Every 32 observations it doubles the threshold (up to 64 KiB)
/// when fewer than 10% of attempts saved space, and halves it (down to 64) when
/// more than 60% did.
#[derive(Debug, Clone, Copy, PartialEq, Eq)]
pub struct AdaptiveTuner {
    pub samples: u64,
    pub compression_attempts: u64,
    pub compression_wins: u64,
    pub min_zstd_payload: usize,
}

/// The smallest threshold the tuner uses.
pub const MIN_TUNED_PAYLOAD: usize = 64;

/// The largest threshold the tuner moves to.
pub const MAX_TUNED_PAYLOAD: usize = 65536;

/// Observations after which the tuner adjusts its threshold.
pub const TUNING_WINDOW: u64 = 32;

/// `a + 1` saturating at `u64::MAX`.
pub open spec fn sat_inc(a: u64) -> u64 {
    if a == u64::MAX {
        a
    } else {
        (a + 1) as u64
    }
}

/// The tuner after observing one compression attempt from `before` to `after` bytes.
pub open spec fn tuner_after(t: AdaptiveTuner, before: usize, after: usize) -> AdaptiveTuner {
    let samples = sat_inc(t.samples);
    let attempts = sat_inc(t.compression_attempts);
    let wins = if after < before {
        sat_inc(t.compression_wins)
    } else {
        t.compression_wins
    };
    if attempts < TUNING_WINDOW {
        AdaptiveTuner { samples, compression_attempts: attempts, compression_wins: wins, ..t }
    } else {
        let min = if wins * 10 < attempts {
            let doubled = if t.min_zstd_payload * 2 > usize::MAX {
                usize::MAX as int
            } else {
                t.min_zstd_payload * 2
            };
            if doubled < MIN_TUNED_PAYLOAD {
                MIN_TUNED_PAYLOAD as int
            } else if doubled > MAX_TUNED_PAYLOAD {
                MAX_TUNED_PAYLOAD as int
            } else {
                doubled
            }
        } else if wins * 10 > attempts * 6 {
            let halved = t.min_zstd_payload / 2;
            if halved < MIN_TUNED_PAYLOAD {
                MIN_TUNED_PAYLOAD as int
            } else {
                halved as int
            }
        } else {
            t.min_zstd_payload as int
        };
        AdaptiveTuner {
            samples,
            compression_attempts: 0,
            compression_wins: 0,
            min_zstd_payload: min as usize,
        }
    }
}

/// The tuner keeps its threshold between 64 bytes and 64 KiB. Within a window
/// it only counts: the threshold stays, and the attempt and any saving are
/// recorded. When the window closes the counts restart, and the threshold
/// rises (doubling, up to 64 KiB) when under 10% of the attempts saved space,
/// falls (halving, down to 64) when over 60% did, and otherwise stays.
pub proof fn lemma_tuner_moves(t: AdaptiveTuner, before: usize, after: usize)
    requires
        MIN_TUNED_PAYLOAD <= t.min_zstd_payload <= MAX_TUNED_PAYLOAD,
    ensures
        ({
            let n = tuner_after(t, before, after);
            let attempts = sat_inc(t.compression_attempts);
            let wins = if after < before { sat_inc(t.compression_wins) } else { t.compression_wins };
            &&& MIN_TUNED_PAYLOAD <= n.min_zstd_payload <= MAX_TUNED_PAYLOAD
            &&& n.samples == sat_inc(t.samples)
            &&& attempts < TUNING_WINDOW ==> {
                &&& n.min_zstd_payload == t.min_zstd_payload
                &&& n.compression_attempts == attempts
                &&& n.compression_wins == wins
            }
            &&& attempts >= TUNING_WINDOW ==> {
                &&& n.compression_attempts == 0
                &&& n.compression_wins == 0
                &&& wins * 10 < attempts ==> n.min_zstd_payload >= t.min_zstd_payload && (n.min_zstd_payload
                    == MAX_TUNED_PAYLOAD || n.min_zstd_payload == 2 * t.min_zstd_payload)
                &&& wins * 10 > attempts * 6 ==> n.min_zstd_payload <= t.min_zstd_payload && (n.min_zstd_payload
                    == MIN_TUNED_PAYLOAD || n.min_zstd_payload == t.min_zstd_payload / 2)
                &&& attempts <= wins * 10 <= attempts * 6 ==> n.min_zstd_payload == t.min_zstd_payload
            }
        }),
{
}

impl Default for AdaptiveTuner {
    fn default() -> (t: Self)
        ensures
            t == (AdaptiveTuner {
                samples: 0,
                compression_attempts: 0,
                compression_wins: 0,
                min_zstd_payload: 256,
            }),
    {
        AdaptiveTuner { samples: 0, compression_attempts: 0, compression_wins: 0, min_zstd_payload: 256 }
    }
}

impl AdaptiveTuner {
    /// A tuner with no observations and a 256-byte threshold.
    pub fn new() -> (t: Self)
        ensures
            t == (AdaptiveTuner {
                samples: 0,
                compression_attempts: 0,
                compression_wins: 0,
                min_zstd_payload: 256,
            }),
    {
        AdaptiveTuner::default()
    }

    /// Whether a payload of `payload_len` bytes is worth compressing: at least the
    /// threshold, and never under 64 bytes.
    pub fn should_try_zstd(&self, payload_len: usize) -> (b: bool)
        ensures
            b == (payload_len >= self.min_zstd_payload && payload_len >= MIN_TUNED_PAYLOAD),
    {
        let threshold = if self.min_zstd_payload < MIN_TUNED_PAYLOAD {
            MIN_TUNED_PAYLOAD
        } else {
            self.min_zstd_payload
        };
        payload_len >= threshold
    }

    /// Records one compression attempt that turned `before` bytes into `after`
    /// bytes, retuning the threshold at the end of each window. The win rate is
    /// compared with 10% and 60% as an exact fraction.
    pub fn observe_compression(&mut self, before: usize, after: usize)
        ensures
            *final(self) == tuner_after(*old(self), before, after),
    {
        self.samples = self.samples.saturating_add(1);
        self.compression_attempts = self.compression_attempts.saturating_add(1);
        if after < before {
            self.compression_wins = self.compression_wins.saturating_add(1);
        }
        if self.compression_attempts >= TUNING_WINDOW {
            let wins = self.compression_wins as u128;
            let attempts = self.compression_attempts as u128;
            if wins * 10 < attempts {
                let doubled = if self.min_zstd_payload > usize::MAX / 2 {
                    usize::MAX
                } else {
                    self.min_zstd_payload * 2
                };
                self.min_zstd_payload = if doubled < MIN_TUNED_PAYLOAD {
                    MIN_TUNED_PAYLOAD
                } else if doubled > MAX_TUNED_PAYLOAD {
                    MAX_TUNED_PAYLOAD
                } else {
                    doubled
                };
            } else if wins * 10 > attempts * 6 {
                let halved = self.min_zstd_payload / 2;
                self.min_zstd_payload = if halved < MIN_TUNED_PAYLOAD {
                    MIN_TUNED_PAYLOAD
                } else {
                    halved
                };
            }
            self.compression_attempts = 0;
            self.compression_wins = 0;
        }
    }
}


proof fn lemma_diff_indices_len(previous: Seq<u8>, current: Seq<u8>, n: int)
    requires
        n >= 0,
    ensures
        diff_indices(previous, current, n).len() <= n,
    decreases n,
{
    if n > 0 {
        lemma_diff_indices_len(previous, current, n - 1);
    }
}

proof fn lemma_sparse_entries_len(idx: Seq<usize>, current: Seq<u8>, k: int)
    requires
        k >= 0,
    ensures
        sparse_entries(idx, current, k).len() <= 11 * k,
    decreases k,
{
    if k > 0 {
        lemma_sparse_entries_len(idx, current, k - 1);
        lemma_varint_len(index_gap(idx, k - 1) as u64);
    }
}

proof fn lemma_range_entries_len(ranges: Seq<(usize, usize)>, current: Seq<u8>, k: int)
    requires
        0 <= k <= ranges.len(),
        forall|a: int| 0 <= a < ranges.len() ==> #[trigger] ranges[a].0 < ranges[a].1 <= current.len(),
        forall|a: int| 0 < a < ranges.len() ==> ranges[a - 1].1 <= #[trigger] ranges[a].0,
    ensures
        range_entries(ranges, current, k).len() <= 20 * k + range_prev_end(ranges, k),
    decreases k,
{
    if k > 0 {
        lemma_range_entries_len(ranges, current, k - 1);
        let (start, end) = ranges[k - 1];
        lemma_varint_len((start - range_prev_end(ranges, k - 1)) as u64);
        lemma_varint_len((end - start) as u64);
        if k > 1 {
            assert(ranges[k - 2].1 <= ranges[k - 1].0);
        }
    }
}

proof fn lemma_chunk_entries_len(ch: Seq<usize>, current: Seq<u8>, cs: int, k: int)
    requires
        cs > 0,
        0 <= k <= ch.len(),
        forall|a: int| 0 <= a < ch.len() ==> #[trigger] ch[a] < num_chunks(current.len() as int, cs),
        forall|a: int, b: int| 0 <= a < b < ch.len() ==> #[trigger] ch[a] < #[trigger] ch[b],
    ensures
        chunk_entries(ch, current, cs, k).len() <= 20 * k + if k == 0 {
            0
        } else {
            chunk_end(current.len() as int, cs, ch[k - 1] as int)
        },
    decreases k,
{
    if k > 0 {
        lemma_chunk_entries_len(ch, current, cs, k - 1);
        let c = ch[k - 1] as int;
        lemma_chunk_bounds(current.len() as int, cs, c);
        lemma_varint_len(index_gap(ch, k - 1) as u64);
        lemma_varint_len((chunk_end(current.len() as int, cs, c) - c * cs) as u64);
        if k > 1 {
            let c0 = ch[k - 2] as int;
            assert(c0 < c);
            lemma_chunk_bounds(current.len() as int, cs, c0);
            assert(chunk_end(current.len() as int, cs, c0) <= c0 * cs + cs);
            assert(c0 * cs + cs <= c * cs) by (nonlinear_arith)
                requires
                    c0 < c,
                    cs > 0,
            ;
        }
    }
}

/// Every strategy's payload for states of one length `n` is at most
/// `64 + 32 n` bytes.
pub proof fn lemma_candidate_payload_len(
    kind: SmartDeltaKind,
    previous: Seq<u8>,
    current: Seq<u8>,
    policy: SmartDeltaPolicy,
)
    requires
        previous.len() == current.len(),
        current.len() <= usize::MAX,
    ensures
        candidate_payload(kind, previous, current, policy).len() <= 64 + 32 * current.len(),
{
    let n = current.len() as int;
    lemma_varint_len(current.len() as u64);
    match kind {
        SmartDeltaKind::Sparse => {
            let idx = diff_indices(previous, current, n);
            lemma_diff_indices_len(previous, current, n);
            lemma_varint_len(idx.len() as u64);
            lemma_sparse_entries_len(idx, current, idx.len() as int);
        },
        SmartDeltaKind::Ranges => {
            let ranges = range_scan(previous, current, policy.max_range_gap as int);
            lemma_range_scan_covers(previous, current, policy.max_range_gap as int);
            lemma_varint_len(ranges.len() as u64);
            lemma_range_entries_len(ranges, current, ranges.len() as int);
        },
        SmartDeltaKind::Xor => {},
        SmartDeltaKind::Splice => {
            lemma_common_prefix(previous, current, 0);
            let (prefix, suffix) = splice_parts(previous, current);
            let limit = if previous.len() - prefix <= current.len() - prefix {
                previous.len() - prefix
            } else {
                current.len() - prefix
            };
            lemma_common_suffix(previous, current, limit, 0);
            lemma_varint_len(prefix as u64);
            lemma_varint_len(suffix as u64);
            lemma_varint_len((current.len() - suffix - prefix) as u64);
        },
        SmartDeltaKind::Chunks => {
            let cs = effective_chunk_size(policy);
            let nc = num_chunks(n, cs);
            lemma_num_chunks_bound(n, cs);
            let ch = changed_chunks(previous, current, cs, nc);
            lemma_changed_chunks(previous, current, cs, nc);
            lemma_varint_len(cs as u64);
            lemma_varint_len(ch.len() as u64);
            lemma_chunk_entries_len(ch, current, cs, ch.len() as int);
            if ch.len() > 0 {
                lemma_chunk_bounds(n, cs, ch[ch.len() - 1] as int);
            }
        },
    }
}

proof fn lemma_num_chunks_bound(len: int, cs: int)
    requires
        len >= 0,
        cs > 0,
    ensures
        0 <= num_chunks(len, cs) <= len,
{
    assert(0 <= len / cs <= len && len % cs == len - len / cs * cs && 0 <= len % cs < cs) by (nonlinear_arith)
        requires
            len >= 0,
            cs > 0,
    ;
    if len % cs != 0 {
        assert(len / cs < len) by (nonlinear_arith)
            requires
                len >= 0,
                cs > 0,
                len % cs != 0,
                len % cs == len - len / cs * cs,
                len / cs * cs <= len,
        {
            if cs == 1 {
                assert(len % cs == 0);
            }
        }
    }
}

/// Every strategy's payload carries at most a small header and 32 bytes per
/// byte of either state (the range strategy between states of one length).
pub proof fn lemma_any_payload_len(
    kind: SmartDeltaKind,
    previous: Seq<u8>,
    current: Seq<u8>,
    policy: SmartDeltaPolicy,
)
    requires
        previous.len() <= usize::MAX,
        current.len() <= usize::MAX,
        kind is Ranges ==> previous.len() == current.len(),
    ensures
        candidate_payload(kind, previous, current, policy).len() <= 64 + 32 * (previous.len() + current.len()),
{
    let n = current.len() as int;
    lemma_varint_len(current.len() as u64);
    match kind {
        SmartDeltaKind::Sparse => {
            let idx = diff_indices(previous, current, n);
            lemma_diff_indices_len(previous, current, n);
            lemma_varint_len(idx.len() as u64);
            lemma_sparse_entries_len(idx, current, idx.len() as int);
        },
        SmartDeltaKind::Ranges => {
            let ranges = range_scan(previous, current, policy.max_range_gap as int);
            lemma_range_scan_covers(previous, current, policy.max_range_gap as int);
            lemma_varint_len(ranges.len() as u64);
            lemma_range_entries_len(ranges, current, ranges.len() as int);
        },
        SmartDeltaKind::Xor => {},
        SmartDeltaKind::Splice => {
            lemma_common_prefix(previous, current, 0);
            let (prefix, suffix) = splice_parts(previous, current);
            let limit = if previous.len() - prefix <= current.len() - prefix {
                previous.len() - prefix
            } else {
                current.len() - prefix
            };
            lemma_common_suffix(previous, current, limit, 0);
            lemma_varint_len(prefix as u64);
            lemma_varint_len(suffix as u64);
            lemma_varint_len((current.len() - suffix - prefix) as u64);
        },
        SmartDeltaKind::Chunks => {
            let cs = effective_chunk_size(policy);
            let nc = num_chunks(n, cs);
            lemma_num_chunks_bound(n, cs);
            let ch = changed_chunks(previous, current, cs, nc);
            lemma_changed_chunks(previous, current, cs, nc);
            lemma_varint_len(cs as u64);
            lemma_varint_len(ch.len() as u64);
            lemma_chunk_entries_len(ch, current, cs, ch.len() as int);
            if ch.len() > 0 {
                lemma_chunk_bounds(n, cs, ch[ch.len() - 1] as int);
            }
        },
    }
}

} // verus!
