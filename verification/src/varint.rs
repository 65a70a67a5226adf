use crate::error::{invalid_packet, DeltaError};
use vstd::prelude::*;

verus! {

/// Little-endian base-128 encoding of an unsigned integer: seven payload bits per
/// byte, high bit set on every byte but the last.
pub open spec fn varint_bytes(v: u64) -> Seq<u8>
    decreases v,
{
    if v < 0x80 {
        seq![v as u8]
    } else {
        seq![((v % 0x80) + 0x80) as u8] + varint_bytes(v / 0x80)
    }
}

/// Reads a varint starting at `pos`, having already accumulated `acc` from
/// earlier bytes at bit offset `shift`. Fails on truncation or when more than
/// 64 bits of shift would be needed.
pub open spec fn varint_parse(s: Seq<u8>, pos: int, shift: u32, acc: u64) -> Option<(u64, int)>
    decreases s.len() - pos,
{
    if pos < 0 || pos >= s.len() || shift >= 64 {
        None
    } else {
        let b = s[pos];
        let acc2 = acc | (((b & 0x7f) as u64) << shift);
        if b & 0x80 == 0 {
            Some((acc2, pos + 1))
        } else if shift + 7 >= 64 {
            None
        } else {
            varint_parse(s, pos + 1, (shift + 7) as u32, acc2)
        }
    }
}

/// The value and end position of the varint that starts at `pos`, if any.
pub open spec fn read_varint(s: Seq<u8>, pos: int) -> Option<(u64, int)> {
    varint_parse(s, pos, 0, 0)
}

proof fn lemma_byte_bits(w: u64)
    ensures
        w < 0x80 ==> ((w as u8) & 0x7f) as u64 == w && (w as u8) & 0x80 == 0,
        w >= 0x80 ==> ((((w % 0x80) + 0x80) as u8) & 0x7f) as u64 == w % 0x80
            && (((w % 0x80) + 0x80) as u8) & 0x80 != 0,
{
    assert(w < 0x80 ==> ((w as u8) & 0x7f) as u64 == w && (w as u8) & 0x80 == 0) by (bit_vector);
    assert(w >= 0x80 ==> ((((w % 0x80) + 0x80) as u8) & 0x7f) as u64 == w % 0x80
        && (((w % 0x80) + 0x80) as u8) & 0x80 != 0) by (bit_vector);
}

proof fn lemma_step_bits(w: u64, s: u64, acc: u64)
    requires
        s <= 63,
        w >= 0x80,
        w <= (0xffff_ffff_ffff_ffffu64 >> s),
        acc >> s == 0,
    ensures
        s <= 56,
        (acc | ((w % 0x80) << s)) >> ((s + 7) as u64) == 0,
        w / 0x80 <= (0xffff_ffff_ffff_ffffu64 >> ((s + 7) as u64)),
        (acc | ((w % 0x80) << s)) | ((w / 0x80) << ((s + 7) as u64)) == acc | (w << s),
{
    assert(s <= 56) by (bit_vector)
        requires
            s <= 63,
            w >= 0x80,
            w <= (0xffff_ffff_ffff_ffffu64 >> s),
    ;
    assert((acc | ((w % 0x80) << s)) >> ((s + 7) as u64) == 0) by (bit_vector)
        requires
            s <= 56,
            acc >> s == 0,
    ;
    assert(w / 0x80 <= (0xffff_ffff_ffff_ffffu64 >> ((s + 7) as u64))) by (bit_vector)
        requires
            s <= 56,
            w <= (0xffff_ffff_ffff_ffffu64 >> s),
    ;
    assert((acc | ((w % 0x80) << s)) | ((w / 0x80) << ((s + 7) as u64)) == acc | (w << s))
        by (bit_vector)
        requires
            s <= 56,
            w <= (0xffff_ffff_ffff_ffffu64 >> s),
            acc >> s == 0,
    ;
}

proof fn lemma_parse_encoded(w: u64, shift: u32, acc: u64, s: Seq<u8>, pos: int)
    requires
        shift <= 63,
        w <= (0xffff_ffff_ffff_ffffu64 >> (shift as u64)),
        acc >> (shift as u64) == 0,
        0 <= pos,
        pos + varint_bytes(w).len() <= s.len(),
        s.subrange(pos, pos + varint_bytes(w).len()) == varint_bytes(w),
    ensures
        varint_parse(s, pos, shift, acc) == Some((acc | (w << (shift as u64)), pos + varint_bytes(w).len())),
    decreases w,
{
    lemma_byte_bits(w);
    assert(s[pos] == s.subrange(pos, pos + varint_bytes(w).len())[0]);
    if w < 0x80 {
        assert(((w as u8) & 0x7f) as u64 == w);
    } else {
        lemma_step_bits(w, shift as u64, acc);
        let rest = varint_bytes(w / 0x80);
        let acc2 = acc | ((w % 0x80) << (shift as u64));
        assert(varint_bytes(w) == seq![((w % 0x80) + 0x80) as u8] + rest);
        assert(s.subrange(pos + 1, pos + 1 + rest.len()) =~= rest) by {
            assert forall|i: int| 0 <= i < rest.len() implies s.subrange(pos + 1, pos + 1 + rest.len())[i] == rest[i] by {
                assert(s.subrange(pos, pos + varint_bytes(w).len())[i + 1] == varint_bytes(w)[i + 1]);
            }
        }
        lemma_parse_encoded(w / 0x80, (shift + 7) as u32, acc2, s, pos + 1);
        assert((((((w % 0x80) + 0x80) as u8) & 0x7f) as u64) << (shift as u64) == (w % 0x80) << (shift as u64));
    }
}

/// Reading back an encoded varint yields the value and the position just past it.
pub proof fn lemma_varint_roundtrip(v: u64, s: Seq<u8>, pos: int)
    requires
        0 <= pos,
        pos + varint_bytes(v).len() <= s.len(),
        s.subrange(pos, pos + varint_bytes(v).len()) == varint_bytes(v),
    ensures
        read_varint(s, pos) == Some((v, pos + varint_bytes(v).len())),
{
    assert(v <= (0xffff_ffff_ffff_ffffu64 >> 0u64)) by (bit_vector);
    assert(0u64 >> 0u64 == 0) by (bit_vector);
    lemma_parse_encoded(v, 0, 0, s, pos);
    assert(0u64 | (v << 0u64) == v) by (bit_vector);
}

/// Every encoding is between one and ten bytes long.
pub proof fn lemma_varint_len(v: u64)
    ensures
        1 <= varint_bytes(v).len() <= 10,
{
    assert(pow128(10) == 1180591620717411303424) by {
        reveal_with_fuel(pow128, 11);
    }
    lemma_varint_len_bound(v, 10);
}

proof fn lemma_varint_len_bound(v: u64, k: nat)
    requires
        k >= 1,
        v < pow128(k),
    ensures
        1 <= varint_bytes(v).len() <= k,
    decreases k,
{
    if v >= 0x80 {
        if k == 1 {
            assert(pow128(1) == 0x80) by {
                reveal_with_fuel(pow128, 2);
            }
        }
        let p = pow128((k - 1) as nat);
        assert(pow128(k) == 0x80 * p);
        assert(v / 0x80 < p) by (nonlinear_arith)
            requires
                v < 0x80 * p,
        ;
        lemma_varint_len_bound(v / 0x80, (k - 1) as nat);
    }
}

spec fn pow128(k: nat) -> nat
    decreases k,
{
    if k == 0 {
        1
    } else {
        0x80 * pow128((k - 1) as nat)
    }
}

proof fn lemma_parse_bounds(s: Seq<u8>, pos: int, shift: u32, acc: u64)
    ensures
        varint_parse(s, pos, shift, acc) matches Some((v, e)) ==> 0 <= pos < e <= s.len(),
    decreases s.len() - pos,
{
    if !(pos < 0 || pos >= s.len() || shift >= 64) {
        let b = s[pos];
        if b & 0x80 != 0 && shift + 7 < 64 {
            lemma_parse_bounds(s, pos + 1, (shift + 7) as u32, acc | (((b & 0x7f) as u64) << shift));
        }
    }
}

/// A varint that reads successfully ends past its start and within the input.
pub proof fn lemma_read_varint_bounds(s: Seq<u8>, pos: int)
    ensures
        read_varint(s, pos) matches Some((v, e)) ==> 0 <= pos < e <= s.len(),
{
    lemma_parse_bounds(s, pos, 0, 0);
}

/// Appends the varint encoding of `value` to `out`.
pub fn put_var_u64(out: &mut Vec<u8>, value: u64)
    ensures
        final(out)@ == old(out)@ + varint_bytes(value),
{
    let mut v = value;
    while v >= 0x80
        invariant
            out@ + varint_bytes(v) == old(out)@ + varint_bytes(value),
        decreases v,
    {
        let byte = ((v as u8) & 0x7f) | 0x80;
        assert(((v as u8) & 0x7f) | 0x80 == ((v % 0x80) + 0x80) as u8) by (bit_vector)
            requires
                v >= 0x80,
        ;
        assert(v >> 7 == v / 0x80) by (bit_vector);
        let ghost before = out@;
        out.push(byte);
        assert(out@ + varint_bytes(v >> 7) =~= before + varint_bytes(v));
        v = v >> 7;
    }
    assert(varint_bytes(v) == seq![v as u8]);
    out.push(v as u8);
    assert(out@ =~= old(out)@ + varint_bytes(value));
}

/// Reads the varint at `*cursor`, advancing the cursor past it.
pub fn read_var_u64(bytes: &[u8], cursor: &mut usize) -> (res: Result<u64, DeltaError>)
    ensures
        match read_varint(bytes@, *old(cursor) as int) {
            Some((v, end)) => res == Ok::<u64, DeltaError>(v) && *final(cursor) == end,
            None => res is Err && res->Err_0 is InvalidPacket,
        },
        res is Ok ==> *old(cursor) < *final(cursor) <= bytes@.len(),
{
    proof {
        lemma_read_varint_bounds(bytes@, *cursor as int);
    }
    let ghost start = *cursor as int;
    let mut value: u64 = 0;
    let mut shift: u32 = 0;
    loop
        invariant
            shift < 64,
            start == *old(cursor) as int,
            start <= *cursor as int,
            varint_parse(bytes@, *cursor as int, shift, value) == read_varint(bytes@, start),
        decreases bytes@.len() - *cursor,
    {
        if *cursor >= bytes.len() {
            return Err(invalid_packet("truncated varint"));
        }
        let byte = bytes[*cursor];
        let ghost pos = *cursor as int;
        let ghost old_value = value;
        *cursor = *cursor + 1;
        value = value | (((byte & 0x7f) as u64) << shift);
        assert(value == old_value | (((bytes@[pos] & 0x7f) as u64) << shift));
        if byte & 0x80 == 0 {
            assert(varint_parse(bytes@, pos, shift, old_value) == Some((value, pos + 1)));
            return Ok(value);
        }
        if shift + 7 >= 64 {
            return Err(invalid_packet("varint overflow"));
        }
        shift = shift + 7;
    }
}

} // verus!
