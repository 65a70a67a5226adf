//! Deterministic byte workloads for benchmarks and simulations: xorshift
//! streams and scattered in-place mutations.
use vstd::prelude::*;

verus! {

/// Seed of the xorshift streams (the 64-bit golden ratio).
pub const XORSHIFT_SEED: u64 = 0x9e3779b97f4a7c15;

/// One xorshift step with shifts 13, 7, 17.
pub open spec fn xorshift_13_7_17(x: u64) -> u64 {
    let a = x ^ (x << 13u64);
    let b = a ^ (a >> 7u64);
    b ^ (b << 17u64)
}

/// One xorshift step with shifts 7, 9, 8.
pub open spec fn xorshift_7_9_8(x: u64) -> u64 {
    let a = x ^ (x << 7u64);
    let b = a ^ (a >> 9u64);
    b ^ (b << 8u64)
}

/// The generator state after `n` steps of the 13-7-17 xorshift from the seed.
pub open spec fn stream_13_7_17(n: nat) -> u64
    decreases n,
{
    if n == 0 {
        XORSHIFT_SEED
    } else {
        xorshift_13_7_17(stream_13_7_17((n - 1) as nat))
    }
}

/// The generator state after `n` steps of the 7-9-8 xorshift from the seed.
pub open spec fn stream_7_9_8(n: nat) -> u64
    decreases n,
{
    if n == 0 {
        XORSHIFT_SEED
    } else {
        xorshift_7_9_8(stream_7_9_8((n - 1) as nat))
    }
}

/// `size` bytes whose `i`-th is the low byte of the 13-7-17 stream after `i + 1` steps.
pub fn pseudo_random_state(size: usize) -> (out: Vec<u8>)
    ensures
        out@.len() == size,
        forall|i: int| 0 <= i < size ==> #[trigger] out@[i] == stream_13_7_17((i + 1) as nat) as u8,
{
    let mut x: u64 = XORSHIFT_SEED;
    let mut out: Vec<u8> = Vec::new();
    while out.len() < size
        invariant
            out@.len() <= size,
            x == stream_13_7_17(out@.len() as nat),
            forall|i: int| 0 <= i < out@.len() ==> #[trigger] out@[i] == stream_13_7_17((i + 1) as nat) as u8,
        decreases size - out@.len(),
    {
        x = x ^ (x << 13u64);
        x = x ^ (x >> 7u64);
        x = x ^ (x << 17u64);
        out.push(x as u8);
    }
    out
}

/// High-entropy benchmark state: the same stream as [`pseudo_random_state`].
pub fn high_entropy_state(size: usize) -> (out: Vec<u8>)
    ensures
        out@.len() == size,
        forall|i: int| 0 <= i < size ==> #[trigger] out@[i] == stream_13_7_17((i + 1) as nat) as u8,
{
    pseudo_random_state(size)
}

/// `len` bytes whose `i`-th is the low byte of the 7-9-8 stream after `i + 1` steps.
pub fn entropy_bytes(len: usize) -> (out: Vec<u8>)
    ensures
        out@.len() == len,
        forall|i: int| 0 <= i < len ==> #[trigger] out@[i] == stream_7_9_8((i + 1) as nat) as u8,
{
    let mut x: u64 = XORSHIFT_SEED;
    let mut out: Vec<u8> = Vec::new();
    while out.len() < len
        invariant
            out@.len() <= len,
            x == stream_7_9_8(out@.len() as nat),
            forall|i: int| 0 <= i < out@.len() ==> #[trigger] out@[i] == stream_7_9_8((i + 1) as nat) as u8,
        decreases len - out@.len(),
    {
        x = x ^ (x << 7u64);
        x = x ^ (x >> 9u64);
        x = x ^ (x << 8u64);
        out.push(x as u8);
    }
    out
}

/// Step between touched positions: Knuth's multiplicative constant modulo the
/// length, at least one.
pub open spec fn scatter_stride(len: int) -> int {
    let s = 2654435761int % len;
    if s < 1 {
        1
    } else {
        s
    }
}

/// The position touched by the `n`-th change of update `update` on a state of
/// length `len`.
pub open spec fn scatter_index(update: int, len: int, n: nat) -> int
    decreases n,
{
    let start = ((update * 97) % (usize::MAX as int + 1)) % len;
    if n == 0 {
        (start + scatter_stride(len)) % len
    } else {
        (scatter_index(update, len, (n - 1) as nat) + scatter_stride(len) + n * 17) % len
    }
}

/// The amount the `n`-th change of update `update` adds (modulo 256).
pub open spec fn scatter_step(update: int, n: int) -> int {
    (((update + n) % 256) * 31 + 1) % 256
}

/// The state after the first `count` changes of update `update`.
pub open spec fn scattered(s: Seq<u8>, update: int, count: nat) -> Seq<u8>
    decreases count,
{
    if count == 0 || s.len() == 0 {
        s
    } else {
        let prev = scattered(s, update, (count - 1) as nat);
        let i = scatter_index(update, s.len() as int, (count - 1) as nat);
        prev.update(i, ((prev[i] + scatter_step(update, count - 1)) % 256) as u8)
    }
}

proof fn lemma_scattered_len(s: Seq<u8>, update: int, count: nat)
    ensures
        scattered(s, update, count).len() == s.len(),
    decreases count,
{
    if count > 0 && s.len() > 0 {
        lemma_scattered_len(s, update, (count - 1) as nat);
    }
}

/// Changes `min(changed, len)` scattered bytes of `state` for update number
/// `update`; the positions follow a fixed stride and the amounts depend on the
/// update, so every update touches a different pattern.
pub fn mutate_scattered(state: &mut Vec<u8>, update: usize, changed: usize)
    ensures
        final(state)@ == scattered(
            old(state)@,
            update as int,
            if changed < old(state)@.len() {
                changed as nat
            } else {
                old(state)@.len()
            },
        ),
{
    let len = state.len();
    if len == 0 {
        return;
    }
    let count = if changed < len {
        changed
    } else {
        len
    };
    let modulus = usize::MAX as u128 + 1;
    let stride128 = 2654435761u128 % (len as u128);
    let stride = if stride128 < 1 {
        1u128
    } else {
        stride128
    };
    let mut index: u128 = ((update as u128 * 97) % modulus) % (len as u128);
    let mut n: usize = 0;
    while n < count
        invariant
            len == state@.len(),
            len == old(state)@.len(),
            len > 0,
            count <= len,
            n <= count,
            stride == scatter_stride(len as int),
            stride <= len,
            index < len,
            n == 0 ==> index == ((update as int * 97) % (usize::MAX as int + 1)) % (len as int),
            n > 0 ==> index == scatter_index(update as int, len as int, (n - 1) as nat),
            state@ == scattered(old(state)@, update as int, n as nat),
        decreases count - n,
    {
        proof {
            lemma_scattered_len(old(state)@, update as int, n as nat);
        }
        index = (index + stride + n as u128 * 17) % (len as u128);
        let i = index as usize;
        let step = ((((update as u128 + n as u128) % 256) * 31 + 1) % 256) as u32;
        let old_byte = state[i] as u32;
        state.set(i, ((old_byte + step) % 256) as u8);
        n = n + 1;
    }
}

} // verus!
