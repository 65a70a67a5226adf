//! Building blocks of the compact binary field codec: 128-bit varints, zigzag
//! signed varints, length-prefixed strings, a bounds-checked reader, and applying
//! signed deltas to unsigned fields.
use crate::error::{invalid_packet, DeltaError};
use crate::state::{AgentState, AgentStateView};
use crate::ext::string_from_utf8;
use vstd::bytes::{spec_u16_from_le_bytes, spec_u16_to_le_bytes, spec_u32_from_le_bytes, spec_u32_to_le_bytes};
use vstd::prelude::*;
use vstd::string::*;
use vstd::utf8::{decode_utf8, encode_utf8, valid_utf8};

verus! {

/// Base-128 little-endian encoding of a 128-bit value.
pub open spec fn var128_bytes(v: u128) -> Seq<u8>
    decreases v,
{
    if v < 0x80 {
        seq![v as u8]
    } else {
        seq![((v % 0x80) + 0x80) as u8] + var128_bytes(v / 0x80)
    }
}

/// Zigzag mapping of a signed value onto an unsigned one: small magnitudes of
/// either sign become small numbers.
pub open spec fn zigzag(v: i128) -> u128 {
    ((v << 1u32) ^ (v >> 127u32)) as u128
}

/// The inverse of [`zigzag`].
pub open spec fn unzigzag(u: u128) -> i128 {
    ((u >> 1u32) as i128) ^ (if u & 1 == 1 {
        -1i128
    } else {
        0i128
    })
}

/// Appends the varint encoding of `value`.
pub fn put_var_u128(out: &mut Vec<u8>, value: u128)
    ensures
        final(out)@ == old(out)@ + var128_bytes(value),
{
    let mut v = value;
    while v >= 0x80
        invariant
            out@ + var128_bytes(v) == old(out)@ + var128_bytes(value),
        decreases v,
    {
        let byte = ((v as u8) & 0x7f) | 0x80;
        assert(((v as u8) & 0x7f) | 0x80 == ((v % 0x80) + 0x80) as u8) by (bit_vector)
            requires
                v >= 0x80,
        ;
        assert(v >> 7 == v / 0x80) by (bit_vector);
        let ghost before = out@;
        out.push(byte);
        assert(out@ + var128_bytes(v >> 7) =~= before + var128_bytes(v));
        v = v >> 7;
    }
    assert(var128_bytes(v) == seq![v as u8]);
    out.push(v as u8);
    assert(out@ =~= old(out)@ + var128_bytes(value));
}

/// Appends the zigzag varint encoding of `value`.
pub fn put_var_i128(out: &mut Vec<u8>, value: i128)
    ensures
        final(out)@ == old(out)@ + var128_bytes(zigzag(value)),
{
    let z = ((value << 1u32) ^ (value >> 127u32)) as u128;
    put_var_u128(out, z);
}

/// Appends a string as its byte length (varint) followed by its UTF-8 bytes.
pub fn put_string(out: &mut Vec<u8>, value: &str)
    ensures
        final(out)@ == old(out)@ + var128_bytes(value.spec_bytes().len() as u128)
            + value.spec_bytes(),
{
    let bytes = value.as_bytes();
    put_var_u128(out, bytes.len() as u128);
    crate::buf::append_bytes(out, bytes);
}

/// `base + delta` when it fits in a `u64`; an error otherwise, including when the
/// sum leaves the `i128` range.
pub fn apply_u64_delta(base: u64, delta: i128) -> (res: Result<u64, DeltaError>)
    ensures
        0 <= base + delta <= u64::MAX ==> res == Ok::<u64, DeltaError>((base + delta) as u64),
        !(0 <= base + delta <= u64::MAX) ==> (res matches Err(e) && e is InvalidPacket),
{
    let value = match (base as i128).checked_add(delta) {
        Some(v) => v,
        None => return Err(invalid_packet("u64 delta overflow")),
    };
    if value < 0 || value > u64::MAX as i128 {
        return Err(invalid_packet("u64 delta overflow"));
    }
    Ok(value as u64)
}

/// `base + delta` when it fits in a `u8`; an error otherwise.
pub fn apply_u8_delta(base: u8, delta: i128) -> (res: Result<u8, DeltaError>)
    ensures
        0 <= base + delta <= u8::MAX ==> res == Ok::<u8, DeltaError>((base + delta) as u8),
        !(0 <= base + delta <= u8::MAX) ==> (res matches Err(e) && e is InvalidPacket),
{
    let value = match (base as i128).checked_add(delta) {
        Some(v) => v,
        None => return Err(invalid_packet("u8 delta overflow")),
    };
    if value < 0 || value > u8::MAX as i128 {
        return Err(invalid_packet("u8 delta overflow"));
    }
    Ok(value as u8)
}

/// Reads a 128-bit varint at `pos` with `acc` accumulated at bit offset `shift`:
/// at most 19 bytes, bits beyond the 128th dropped.
pub open spec fn var128_parse(s: Seq<u8>, pos: int, shift: u32, acc: u128) -> Option<(u128, int)>
    decreases s.len() - pos,
{
    if pos < 0 || pos >= s.len() {
        None
    } else {
        let b = s[pos];
        let acc2 = acc | (((b & 0x7f) as u128) << shift);
        if b & 0x80 == 0 {
            Some((acc2, pos + 1))
        } else if shift + 7 > 127 {
            None
        } else {
            var128_parse(s, pos + 1, (shift + 7) as u32, acc2)
        }
    }
}

/// The text of the length-prefixed UTF-8 string at `pos` and the position after
/// it, if the length reads, the bytes are present and they are valid UTF-8.
pub open spec fn parse_string(b: Seq<u8>, pos: int) -> Option<(Seq<char>, int)> {
    match var128_parse(b, pos, 0, 0) {
        None => None,
        Some((n, p)) => if p + n <= b.len() && valid_utf8(b.subrange(p, p + n)) {
            Some((decode_utf8(b.subrange(p, p + n)), p + n))
        } else {
            None
        },
    }
}

/// The encoding of a string: its UTF-8 length as a varint, then the bytes.
pub open spec fn string_bytes(s: Seq<char>) -> Seq<u8> {
    var128_bytes(encode_utf8(s).len() as u128) + encode_utf8(s)
}

/// A cursor over a byte buffer that never reads past its end.
pub struct Reader<'a> {
    bytes: &'a [u8],
    pos: usize,
}

/// The state of a [`Reader`].
pub struct ReaderView {
    pub bytes: Seq<u8>,
    pub pos: int,
}

impl<'a> View for Reader<'a> {
    type V = ReaderView;

    closed spec fn view(&self) -> ReaderView {
        ReaderView { bytes: self.bytes@, pos: self.pos as int }
    }
}

impl<'a> Reader<'a> {
    /// A reader at the start of `bytes`.
    pub fn new(bytes: &'a [u8]) -> (r: Self)
        ensures
            r@ == (ReaderView { bytes: bytes@, pos: 0 }),
    {
        Reader { bytes, pos: 0 }
    }

    /// The next `n` bytes, advancing past them; fails on overflow or truncation,
    /// leaving the position unchanged.
    pub fn take(&mut self, n: usize) -> (res: Result<&'a [u8], DeltaError>)
        requires
            old(self)@.pos <= old(self)@.bytes.len(),
        ensures
            final(self)@.bytes == old(self)@.bytes,
            old(self)@.pos + n <= old(self)@.bytes.len() ==> (res matches Ok(s) && s@
                == old(self)@.bytes.subrange(old(self)@.pos, old(self)@.pos + n) && final(self)@.pos
                == old(self)@.pos + n),
            old(self)@.pos + n > old(self)@.bytes.len() ==> (res matches Err(e) && e is InvalidPacket
                && final(self)@ == old(self)@),
    {
        let total = self.bytes.len();
        let end = match self.pos.checked_add(n) {
            Some(e) => e,
            None => return Err(invalid_packet("length overflow")),
        };
        if end > total {
            return Err(invalid_packet("truncated payload"));
        }
        let slice = &self.bytes[self.pos..end];
        self.pos = end;
        Ok(slice)
    }

    /// The next byte.
    pub fn u8(&mut self) -> (res: Result<u8, DeltaError>)
        requires
            old(self)@.pos <= old(self)@.bytes.len(),
        ensures
            final(self)@.bytes == old(self)@.bytes,
            old(self)@.pos < old(self)@.bytes.len() ==> (res == Ok::<u8, DeltaError>(
                old(self)@.bytes[old(self)@.pos],
            ) && final(self)@.pos == old(self)@.pos + 1),
            old(self)@.pos >= old(self)@.bytes.len() ==> (res matches Err(e) && e is InvalidPacket
                && final(self)@ == old(self)@),
    {
        let s = self.take(1)?;
        Ok(s[0])
    }

    /// The next two bytes as a little-endian `u16`.
    pub fn u16(&mut self) -> (res: Result<u16, DeltaError>)
        requires
            old(self)@.pos <= old(self)@.bytes.len(),
        ensures
            final(self)@.bytes == old(self)@.bytes,
            old(self)@.pos + 2 <= old(self)@.bytes.len() ==> (res == Ok::<u16, DeltaError>(
                vstd::bytes::spec_u16_from_le_bytes(
                    old(self)@.bytes.subrange(old(self)@.pos, old(self)@.pos + 2),
                ),
            ) && final(self)@.pos == old(self)@.pos + 2),
            old(self)@.pos + 2 > old(self)@.bytes.len() ==> (res matches Err(e) && e is InvalidPacket
                && final(self)@ == old(self)@),
    {
        let s = self.take(2)?;
        Ok(vstd::bytes::u16_from_le_bytes(s))
    }

    /// A 128-bit varint.
    pub fn var_u128(&mut self) -> (res: Result<u128, DeltaError>)
        requires
            old(self)@.pos <= old(self)@.bytes.len(),
        ensures
            final(self)@.bytes == old(self)@.bytes,
            final(self)@.pos <= final(self)@.bytes.len(),
            match var128_parse(old(self)@.bytes, old(self)@.pos, 0, 0) {
                Some((v, end)) => res == Ok::<u128, DeltaError>(v) && final(self)@.pos == end,
                None => res matches Err(e) && e is InvalidPacket,
            },
    {
        let ghost start = self@.pos;
        let mut value: u128 = 0;
        let mut shift: u32 = 0;
        loop
            invariant
                shift <= 126,
                shift % 7 == 0,
                self@.bytes == old(self)@.bytes,
                self@.pos <= self@.bytes.len(),
                start == old(self)@.pos,
                var128_parse(self@.bytes, self@.pos, shift, value) == var128_parse(
                    old(self)@.bytes,
                    start,
                    0,
                    0,
                ),
            decreases self@.bytes.len() - self@.pos,
        {
            let ghost pos = self@.pos;
            let byte = self.u8()?;
            value = value | (((byte & 0x7f) as u128) << shift);
            if byte & 0x80 == 0 {
                return Ok(value);
            }
            if shift + 7 > 127 {
                return Err(invalid_packet("varint overflow"));
            }
            shift = shift + 7;
        }
    }

    /// A zigzag varint.
    pub fn var_i128(&mut self) -> (res: Result<i128, DeltaError>)
        requires
            old(self)@.pos <= old(self)@.bytes.len(),
        ensures
            final(self)@.bytes == old(self)@.bytes,
            final(self)@.pos <= final(self)@.bytes.len(),
            match var128_parse(old(self)@.bytes, old(self)@.pos, 0, 0) {
                Some((v, end)) => res == Ok::<i128, DeltaError>(unzigzag(v)) && final(self)@.pos == end,
                None => res matches Err(e) && e is InvalidPacket,
            },
    {
        let value = self.var_u128()?;
        let sign: i128 = if value & 1 == 1 {
            -1
        } else {
            0
        };
        Ok(((value >> 1u32) as i128) ^ sign)
    }

    /// A length-prefixed UTF-8 string.
    pub fn string(&mut self) -> (res: Result<String, DeltaError>)
        requires
            old(self)@.pos <= old(self)@.bytes.len(),
        ensures
            final(self)@.bytes == old(self)@.bytes,
            final(self)@.pos <= final(self)@.bytes.len(),
            match parse_string(old(self)@.bytes, old(self)@.pos) {
                Some((t, end)) => res matches Ok(x) && x@ == t && final(self)@.pos == end,
                None => res matches Err(e) && e is InvalidPacket,
            },
    {
        let total = self.bytes.len();
        let n = self.var_u128()?;
        if n > usize::MAX as u128 {
            assert(self@.bytes.len() == total);
            return Err(invalid_packet("string length overflow"));
        }
        let bytes = self.take(n as usize)?;
        match string_from_utf8(crate::buf::copy_bytes(bytes)) {
            Ok(s) => Ok(s),
            Err(()) => Err(invalid_packet("invalid UTF-8")),
        }
    }

    /// The next four bytes as a little-endian `u32`.
    pub fn u32_le(&mut self) -> (res: Result<u32, DeltaError>)
        requires
            old(self)@.pos <= old(self)@.bytes.len(),
        ensures
            final(self)@.bytes == old(self)@.bytes,
            final(self)@.pos <= final(self)@.bytes.len(),
            old(self)@.pos + 4 <= old(self)@.bytes.len() ==> (res == Ok::<u32, DeltaError>(
                vstd::bytes::spec_u32_from_le_bytes(
                    old(self)@.bytes.subrange(old(self)@.pos, old(self)@.pos + 4),
                ),
            ) && final(self)@.pos == old(self)@.pos + 4),
            old(self)@.pos + 4 > old(self)@.bytes.len() ==> (res matches Err(e) && e is InvalidPacket
                && final(self)@ == old(self)@),
    {
        let s = self.take(4)?;
        Ok(vstd::bytes::u32_from_le_bytes(s))
    }

    /// Succeeds exactly when every byte was read.
    pub fn finish(&self) -> (res: Result<(), DeltaError>)
        ensures
            res is Ok <==> self@.pos == self@.bytes.len(),
            res matches Err(e) ==> e is InvalidPacket,
    {
        if self.pos == self.bytes.len() {
            Ok(())
        } else {
            Err(invalid_packet("trailing payload bytes"))
        }
    }
}

proof fn lemma_byte_bits128(w: u128)
    ensures
        w < 0x80 ==> ((w as u8) & 0x7f) as u128 == w && (w as u8) & 0x80 == 0,
        w >= 0x80 ==> ((((w % 0x80) + 0x80) as u8) & 0x7f) as u128 == w % 0x80
            && (((w % 0x80) + 0x80) as u8) & 0x80 != 0,
{
    assert(w < 0x80 ==> ((w as u8) & 0x7f) as u128 == w && (w as u8) & 0x80 == 0) by (bit_vector);
    assert(w >= 0x80 ==> ((((w % 0x80) + 0x80) as u8) & 0x7f) as u128 == w % 0x80
        && (((w % 0x80) + 0x80) as u8) & 0x80 != 0) by (bit_vector);
}

proof fn lemma_step_bits128(w: u128, s: u32, acc: u128)
    requires
        s <= 127,
        w >= 0x80,
        w <= (0xffff_ffff_ffff_ffff_ffff_ffff_ffff_ffffu128 >> s),
        acc >> s == 0,
    ensures
        s <= 120,
        (acc | ((w % 0x80) << s)) >> ((s + 7) as u32) == 0,
        w / 0x80 <= (0xffff_ffff_ffff_ffff_ffff_ffff_ffff_ffffu128 >> ((s + 7) as u32)),
        (acc | ((w % 0x80) << s)) | ((w / 0x80) << ((s + 7) as u32)) == acc | (w << s),
{
    assert(s <= 120) by (bit_vector)
        requires
            s <= 127,
            w >= 0x80,
            w <= (0xffff_ffff_ffff_ffff_ffff_ffff_ffff_ffffu128 >> s),
    ;
    assert((acc | ((w % 0x80) << s)) >> ((s + 7) as u32) == 0) by (bit_vector)
        requires
            s <= 120,
            acc >> s == 0,
    ;
    assert(w / 0x80 <= (0xffff_ffff_ffff_ffff_ffff_ffff_ffff_ffffu128 >> ((s + 7) as u32))) by (bit_vector)
        requires
            s <= 120,
            w <= (0xffff_ffff_ffff_ffff_ffff_ffff_ffff_ffffu128 >> s),
    ;
    assert((acc | ((w % 0x80) << s)) | ((w / 0x80) << ((s + 7) as u32)) == acc | (w << s))
        by (bit_vector)
        requires
            s <= 120,
            w <= (0xffff_ffff_ffff_ffff_ffff_ffff_ffff_ffffu128 >> s),
            acc >> s == 0,
    ;
}

proof fn lemma_parse_encoded128(w: u128, shift: u32, acc: u128, s: Seq<u8>, pos: int)
    requires
        shift <= 127,
        w <= (0xffff_ffff_ffff_ffff_ffff_ffff_ffff_ffffu128 >> shift),
        acc >> shift == 0,
        0 <= pos,
        pos + var128_bytes(w).len() <= s.len(),
        s.subrange(pos, pos + var128_bytes(w).len()) == var128_bytes(w),
    ensures
        var128_parse(s, pos, shift, acc) == Some((acc | (w << shift), pos + var128_bytes(w).len())),
    decreases w,
{
    lemma_byte_bits128(w);
    assert(s[pos] == s.subrange(pos, pos + var128_bytes(w).len())[0]);
    if w < 0x80 {
        assert(((w as u8) & 0x7f) as u128 == w);
    } else {
        lemma_step_bits128(w, shift, acc);
        let rest = var128_bytes(w / 0x80);
        let acc2 = acc | ((w % 0x80) << shift);
        assert(var128_bytes(w) == seq![((w % 0x80) + 0x80) as u8] + rest);
        assert(s.subrange(pos + 1, pos + 1 + rest.len()) =~= rest) by {
            assert forall|i: int| 0 <= i < rest.len() implies s.subrange(pos + 1, pos + 1 + rest.len())[i]
                == rest[i] by {
                assert(s.subrange(pos, pos + var128_bytes(w).len())[i + 1] == var128_bytes(w)[i + 1]);
            }
        }
        lemma_parse_encoded128(w / 0x80, (shift + 7) as u32, acc2, s, pos + 1);
    }
}

/// Reading back an encoded 128-bit varint yields the value and the position just past it.
pub proof fn lemma_var128_roundtrip(v: u128, s: Seq<u8>, pos: int)
    requires
        0 <= pos,
        pos + var128_bytes(v).len() <= s.len(),
        s.subrange(pos, pos + var128_bytes(v).len()) == var128_bytes(v),
    ensures
        var128_parse(s, pos, 0, 0) == Some((v, pos + var128_bytes(v).len())),
{
    assert(v <= (0xffff_ffff_ffff_ffff_ffff_ffff_ffff_ffffu128 >> 0u32)) by (bit_vector);
    assert(0u128 >> 0u32 == 0) by (bit_vector);
    lemma_parse_encoded128(v, 0, 0, s, pos);
    assert(0u128 | (v << 0u32) == v) by (bit_vector);
}

/// Reading back an encoded string yields its text and the position just past it.
pub proof fn lemma_string_roundtrip(t: Seq<char>, s: Seq<u8>, pos: int)
    requires
        encode_utf8(t).len() <= usize::MAX,
        0 <= pos,
        pos + string_bytes(t).len() <= s.len(),
        s.subrange(pos, pos + string_bytes(t).len()) == string_bytes(t),
    ensures
        parse_string(s, pos) == Some((t, pos + string_bytes(t).len())),
{
    let body = encode_utf8(t);
    let n = body.len() as u128;
    let head = var128_bytes(n);
    let whole = s.subrange(pos, pos + string_bytes(t).len());
    assert(s.subrange(pos, pos + head.len()) =~= head) by {
        assert forall|i: int| 0 <= i < head.len() implies s.subrange(pos, pos + head.len())[i] == head[i] by {
            assert(whole[i] == string_bytes(t)[i]);
        }
    }
    lemma_var128_roundtrip(n, s, pos);
    let p = pos + head.len();
    assert(s.subrange(p, p + body.len()) =~= body) by {
        assert forall|i: int| 0 <= i < body.len() implies s.subrange(p, p + body.len())[i] == body[i] by {
            assert(whole[head.len() + i] == string_bytes(t)[head.len() + i]);
        }
    }
    vstd::utf8::encode_utf8_valid_utf8(t);
    vstd::utf8::encode_utf8_decode_utf8(t);
}

/// Zigzag decoding undoes zigzag encoding.
pub proof fn lemma_zigzag_roundtrip(v: i128)
    ensures
        unzigzag(zigzag(v)) == v,
{
    let z = ((v << 1u32) ^ (v >> 127u32)) as u128;
    assert(z == ((v << 1u32) ^ (v >> 127u32)) as u128 ==> ((z >> 1u32) as i128) ^ (if z & 1 == 1 {
        -1i128
    } else {
        0i128
    }) == v) by (bit_vector);
}

/// Field bit of `agent_id` in a delta mask.
pub const FIELD_AGENT_ID: u16 = 1 << 0;
/// Field bit of `model`.
pub const FIELD_MODEL: u16 = 1 << 1;
/// Field bit of `status`.
pub const FIELD_STATUS: u16 = 1 << 2;
/// Field bit of `task`.
pub const FIELD_TASK: u16 = 1 << 3;
/// Field bit of `progress`.
pub const FIELD_PROGRESS: u16 = 1 << 4;
/// Field bit of `tokens`.
pub const FIELD_TOKENS: u16 = 1 << 5;
/// Field bit of `memory_mb`.
pub const FIELD_MEMORY_MB: u16 = 1 << 6;
/// Field bit of `cpu_percent`.
pub const FIELD_CPU_PERCENT: u16 = 1 << 7;
/// Field bit of `files_processed`.
pub const FIELD_FILES_PROCESSED: u16 = 1 << 8;
/// Field bit of `current_file`.
pub const FIELD_CURRENT_FILE: u16 = 1 << 9;

/// The snapshot encoding of an agent state: the four leading strings, the three
/// counters as varints, the CPU load as four little-endian bytes, the file
/// counter, then the current file.
pub open spec fn agent_state_bytes(s: AgentStateView) -> Seq<u8> {
    string_bytes(s.agent_id) + string_bytes(s.model) + string_bytes(s.status) + string_bytes(s.task)
        + var128_bytes(s.progress as u128) + var128_bytes(s.tokens as u128) + var128_bytes(
        s.memory_mb as u128,
    ) + spec_u32_to_le_bytes(s.cpu_percent_bits) + var128_bytes(s.files_processed as u128)
        + string_bytes(s.current_file)
}

/// The varint at `pos` when it fits in `max`, with the position after it.
pub open spec fn parse_bounded(b: Seq<u8>, pos: int, max: u128) -> Option<(u128, int)> {
    match var128_parse(b, pos, 0, 0) {
        Some((v, p)) => if v <= max {
            Some((v, p))
        } else {
            None
        },
        None => None,
    }
}

/// The four little-endian bytes at `pos` as a `u32`, with the position after them.
pub open spec fn parse_u32(b: Seq<u8>, pos: int) -> Option<(u32, int)> {
    if 0 <= pos && pos + 4 <= b.len() {
        Some((spec_u32_from_le_bytes(b.subrange(pos, pos + 4)), pos + 4))
    } else {
        None
    }
}

/// The agent state a snapshot encodes: every field in order, each within its
/// type, with no bytes left over.
pub open spec fn parse_agent_state(b: Seq<u8>) -> Option<AgentStateView> {
    match parse_string(b, 0) {
        None => None,
        Some((agent_id, p1)) => match parse_string(b, p1) {
            None => None,
            Some((model, p2)) => match parse_string(b, p2) {
                None => None,
                Some((status, p3)) => match parse_string(b, p3) {
                    None => None,
                    Some((task, p4)) => match parse_bounded(b, p4, u8::MAX as u128) {
                        None => None,
                        Some((progress, p5)) => match parse_bounded(b, p5, u64::MAX as u128) {
                            None => None,
                            Some((tokens, p6)) => match parse_bounded(b, p6, u64::MAX as u128) {
                                None => None,
                                Some((memory_mb, p7)) => match parse_u32(b, p7) {
                                    None => None,
                                    Some((cpu, p8)) => match parse_bounded(b, p8, u64::MAX as u128) {
                                        None => None,
                                        Some((files, p9)) => match parse_string(b, p9) {
                                            None => None,
                                            Some((current_file, p10)) => if p10 == b.len() {
                                                Some(
                                                    AgentStateView {
                                                        agent_id,
                                                        model,
                                                        status,
                                                        task,
                                                        progress: progress as u8,
                                                        tokens: tokens as u64,
                                                        memory_mb: memory_mb as u64,
                                                        cpu_percent_bits: cpu,
                                                        files_processed: files as u64,
                                                        current_file,
                                                    },
                                                )
                                            } else {
                                                None
                                            },
                                        },
                                    },
                                },
                            },
                        },
                    },
                },
            },
        },
    }
}

/// Encodes an agent state as a snapshot payload.
pub fn encode_agent_state(state: &AgentState) -> (res: Result<Vec<u8>, DeltaError>)
    ensures
        res matches Ok(v) && v@ == agent_state_bytes(state@),
{
    let mut out: Vec<u8> = Vec::new();
    put_string(&mut out, state.agent_id.as_str());
    put_string(&mut out, state.model.as_str());
    put_string(&mut out, state.status.as_str());
    put_string(&mut out, state.task.as_str());
    put_var_u128(&mut out, state.progress as u128);
    put_var_u128(&mut out, state.tokens as u128);
    put_var_u128(&mut out, state.memory_mb as u128);
    crate::buf::append_bytes(&mut out, vstd::bytes::u32_to_le_bytes(state.cpu_percent_bits).as_slice());
    put_var_u128(&mut out, state.files_processed as u128);
    put_string(&mut out, state.current_file.as_str());
    assert(out@ =~= agent_state_bytes(state@));
    Ok(out)
}

/// A varint that must fit in `max`.
fn read_bounded(r: &mut Reader, max: u128, what: &str) -> (res: Result<u128, DeltaError>)
    requires
        old(r)@.pos <= old(r)@.bytes.len(),
    ensures
        final(r)@.bytes == old(r)@.bytes,
        final(r)@.pos <= final(r)@.bytes.len(),
        match parse_bounded(old(r)@.bytes, old(r)@.pos, max) {
            Some((v, end)) => res == Ok::<u128, DeltaError>(v) && final(r)@.pos == end,
            None => res matches Err(e) && e is InvalidPacket,
        },
{
    let v = r.var_u128()?;
    if v > max {
        return Err(invalid_packet(what));
    }
    Ok(v)
}

/// Decodes a snapshot payload into an agent state.
#[verifier::spinoff_prover]
#[verifier::rlimit(60)]
pub fn decode_agent_state(bytes: &[u8]) -> (res: Result<AgentState, DeltaError>)
    ensures
        match parse_agent_state(bytes@) {
            Some(v) => res matches Ok(s) && s@ == v,
            None => res matches Err(e) && e is InvalidPacket,
        },
{
    let mut r = Reader::new(bytes);
    let agent_id = r.string()?;
    let model = r.string()?;
    let status = r.string()?;
    let task = r.string()?;
    let progress = read_bounded(&mut r, u8::MAX as u128, "progress overflow")?;
    let tokens = read_bounded(&mut r, u64::MAX as u128, "tokens overflow")?;
    let memory_mb = read_bounded(&mut r, u64::MAX as u128, "memory overflow")?;
    let cpu_percent_bits = r.u32_le()?;
    let files_processed = read_bounded(&mut r, u64::MAX as u128, "files overflow")?;
    let current_file = r.string()?;
    r.finish()?;
    Ok(AgentState {
        agent_id,
        model,
        status,
        task,
        progress: progress as u8,
        tokens: tokens as u64,
        memory_mb: memory_mb as u64,
        cpu_percent_bits,
        files_processed: files_processed as u64,
        current_file,
    })
}

/// Decoding the encoding of an agent state gives the state back.
pub proof fn lemma_agent_state_roundtrip(s: AgentStateView)
    requires
        agent_state_bytes(s).len() <= usize::MAX,
    ensures
        parse_agent_state(agent_state_bytes(s)) == Some(s),
{
    let p1 = string_bytes(s.agent_id);
    let p2 = string_bytes(s.model);
    let p3 = string_bytes(s.status);
    let p4 = string_bytes(s.task);
    let p5 = var128_bytes(s.progress as u128);
    let p6 = var128_bytes(s.tokens as u128);
    let p7 = var128_bytes(s.memory_mb as u128);
    let p8 = spec_u32_to_le_bytes(s.cpu_percent_bits);
    let p9 = var128_bytes(s.files_processed as u128);
    let p10 = string_bytes(s.current_file);
    let l1 = p1;
    let l2 = l1 + p2;
    let l3 = l2 + p3;
    let l4 = l3 + p4;
    let l5 = l4 + p5;
    let l6 = l5 + p6;
    let l7 = l6 + p7;
    let l8 = l7 + p8;
    let l9 = l8 + p9;
    let w = l9 + p10;
    assert(w == agent_state_bytes(s));
    assert(w.subrange(0, l1.len() as int) =~= p1);
    assert(w.subrange(l1.len() as int, l2.len() as int) =~= p2);
    assert(w.subrange(l2.len() as int, l3.len() as int) =~= p3);
    assert(w.subrange(l3.len() as int, l4.len() as int) =~= p4);
    assert(w.subrange(l4.len() as int, l5.len() as int) =~= p5);
    assert(w.subrange(l5.len() as int, l6.len() as int) =~= p6);
    assert(w.subrange(l6.len() as int, l7.len() as int) =~= p7);
    assert(w.subrange(l7.len() as int, l8.len() as int) =~= p8);
    assert(w.subrange(l8.len() as int, l9.len() as int) =~= p9);
    assert(w.subrange(l9.len() as int, w.len() as int) =~= p10);
    assert(encode_utf8(s.agent_id).len() <= p1.len());
    assert(encode_utf8(s.model).len() <= p2.len());
    assert(encode_utf8(s.status).len() <= p3.len());
    assert(encode_utf8(s.task).len() <= p4.len());
    assert(encode_utf8(s.current_file).len() <= p10.len());
    lemma_string_roundtrip(s.agent_id, w, 0);
    lemma_string_roundtrip(s.model, w, l1.len() as int);
    lemma_string_roundtrip(s.status, w, l2.len() as int);
    lemma_string_roundtrip(s.task, w, l3.len() as int);
    lemma_var128_roundtrip(s.progress as u128, w, l4.len() as int);
    lemma_var128_roundtrip(s.tokens as u128, w, l5.len() as int);
    lemma_var128_roundtrip(s.memory_mb as u128, w, l6.len() as int);
    vstd::bytes::lemma_auto_spec_u32_to_from_le_bytes();
    lemma_var128_roundtrip(s.files_processed as u128, w, l8.len() as int);
    lemma_string_roundtrip(s.current_file, w, l9.len() as int);
}

/// Whether the `f32` values with bit patterns `a` and `b` compare equal under
/// IEEE-754: a NaN equals nothing, and the two zeros are equal.
pub open spec fn f32_bits_eq(a: u32, b: u32) -> bool {
    let nan_a = a & 0x7f80_0000 == 0x7f80_0000 && a & 0x007f_ffff != 0;
    let nan_b = b & 0x7f80_0000 == 0x7f80_0000 && b & 0x007f_ffff != 0;
    !nan_a && !nan_b && (a == b || (a & 0x7fff_ffff == 0 && b & 0x7fff_ffff == 0))
}

/// IEEE-754 equality of two `f32` values given by their bit patterns.
pub fn f32_bits_equal(a: u32, b: u32) -> (r: bool)
    ensures
        r == f32_bits_eq(a, b),
{
    let nan_a = a & 0x7f80_0000 == 0x7f80_0000 && a & 0x007f_ffff != 0;
    let nan_b = b & 0x7f80_0000 == 0x7f80_0000 && b & 0x007f_ffff != 0;
    !nan_a && !nan_b && (a == b || (a & 0x7fff_ffff == 0 && b & 0x7fff_ffff == 0))
}

/// The changes between two agent states: a bit mask of the fields that differ,
/// the new text of changed strings, signed differences of changed counters, and
/// the new CPU load when it changed.
#[derive(Debug)]
pub struct AgentDelta {
    pub mask: u16,
    pub agent_id: Option<String>,
    pub model: Option<String>,
    pub status: Option<String>,
    pub task: Option<String>,
    pub progress_delta: Option<i128>,
    pub tokens_delta: Option<i128>,
    pub memory_mb_delta: Option<i128>,
    pub cpu_percent_bits: Option<u32>,
    pub files_processed_delta: Option<i128>,
    pub current_file: Option<String>,
}

/// The content of an [`AgentDelta`].
pub struct AgentDeltaView {
    pub mask: u16,
    pub agent_id: Option<Seq<char>>,
    pub model: Option<Seq<char>>,
    pub status: Option<Seq<char>>,
    pub task: Option<Seq<char>>,
    pub progress_delta: Option<i128>,
    pub tokens_delta: Option<i128>,
    pub memory_mb_delta: Option<i128>,
    pub cpu_percent_bits: Option<u32>,
    pub files_processed_delta: Option<i128>,
    pub current_file: Option<Seq<char>>,
}

/// The text of an optional string.
pub open spec fn opt_text(o: Option<String>) -> Option<Seq<char>> {
    match o {
        Some(s) => Some(s@),
        None => None,
    }
}

impl View for AgentDelta {
    type V = AgentDeltaView;

    open spec fn view(&self) -> AgentDeltaView {
        AgentDeltaView {
            mask: self.mask,
            agent_id: opt_text(self.agent_id),
            model: opt_text(self.model),
            status: opt_text(self.status),
            task: opt_text(self.task),
            progress_delta: self.progress_delta,
            tokens_delta: self.tokens_delta,
            memory_mb_delta: self.memory_mb_delta,
            cpu_percent_bits: self.cpu_percent_bits,
            files_processed_delta: self.files_processed_delta,
            current_file: opt_text(self.current_file),
        }
    }
}

/// `bit` when `c` holds, else no bit.
pub open spec fn flag(c: bool, bit: u16) -> u16 {
    if c {
        bit
    } else {
        0
    }
}

fn flag_exec(c: bool, bit: u16) -> (r: u16)
    ensures
        r == flag(c, bit),
{
    if c {
        bit
    } else {
        0
    }
}

/// The change of a counter from `old` to `new`, when they differ.
pub open spec fn counter_change(old: int, new: int) -> Option<i128> {
    if old != new {
        Some((new - old) as i128)
    } else {
        None
    }
}

/// The new text of a string field, when it changed.
pub open spec fn text_change(old: Seq<char>, new: Seq<char>) -> Option<Seq<char>> {
    if old != new {
        Some(new)
    } else {
        None
    }
}

/// The delta from `old` to `new`. The CPU load counts as changed when the two
/// values compare unequal as `f32`.
pub open spec fn delta_between(old: AgentStateView, new: AgentStateView) -> AgentDeltaView {
    let cpu_changed = !f32_bits_eq(old.cpu_percent_bits, new.cpu_percent_bits);
    AgentDeltaView {
        mask: flag(old.agent_id != new.agent_id, FIELD_AGENT_ID) | flag(old.model != new.model, FIELD_MODEL)
            | flag(old.status != new.status, FIELD_STATUS) | flag(old.task != new.task, FIELD_TASK)
            | flag(old.progress != new.progress, FIELD_PROGRESS) | flag(old.tokens != new.tokens, FIELD_TOKENS)
            | flag(old.memory_mb != new.memory_mb, FIELD_MEMORY_MB) | flag(cpu_changed, FIELD_CPU_PERCENT)
            | flag(old.files_processed != new.files_processed, FIELD_FILES_PROCESSED) | flag(
            old.current_file != new.current_file,
            FIELD_CURRENT_FILE,
        ),
        agent_id: text_change(old.agent_id, new.agent_id),
        model: text_change(old.model, new.model),
        status: text_change(old.status, new.status),
        task: text_change(old.task, new.task),
        progress_delta: counter_change(old.progress as int, new.progress as int),
        tokens_delta: counter_change(old.tokens as int, new.tokens as int),
        memory_mb_delta: counter_change(old.memory_mb as int, new.memory_mb as int),
        cpu_percent_bits: if cpu_changed {
            Some(new.cpu_percent_bits)
        } else {
            None
        },
        files_processed_delta: counter_change(old.files_processed as int, new.files_processed as int),
        current_file: text_change(old.current_file, new.current_file),
    }
}

/// A counter after an optional change, when it stays within `0..=max`.
pub open spec fn apply_counter(base: int, change: Option<i128>, max: int) -> Option<int> {
    match change {
        None => Some(base),
        Some(v) => if 0 <= base + v <= max {
            Some(base + v)
        } else {
            None
        },
    }
}

/// A string field after an optional replacement.
pub open spec fn apply_text(base: Seq<char>, change: Option<Seq<char>>) -> Seq<char> {
    match change {
        Some(t) => t,
        None => base,
    }
}

/// The state a delta produces from `base`: changed strings and the CPU load
/// replaced, counters moved by their changes; `None` when a counter would leave
/// the range of its type.
pub open spec fn delta_apply(d: AgentDeltaView, base: AgentStateView) -> Option<AgentStateView> {
    match (
        apply_counter(base.progress as int, d.progress_delta, u8::MAX as int),
        apply_counter(base.tokens as int, d.tokens_delta, u64::MAX as int),
        apply_counter(base.memory_mb as int, d.memory_mb_delta, u64::MAX as int),
        apply_counter(base.files_processed as int, d.files_processed_delta, u64::MAX as int),
    ) {
        (Some(p), Some(t), Some(m), Some(f)) => Some(
            AgentStateView {
                agent_id: apply_text(base.agent_id, d.agent_id),
                model: apply_text(base.model, d.model),
                status: apply_text(base.status, d.status),
                task: apply_text(base.task, d.task),
                progress: p as u8,
                tokens: t as u64,
                memory_mb: m as u64,
                cpu_percent_bits: match d.cpu_percent_bits {
                    Some(c) => c,
                    None => base.cpu_percent_bits,
                },
                files_processed: f as u64,
                current_file: apply_text(base.current_file, d.current_file),
            },
        ),
        _ => None,
    }
}

fn text_change_exec(old: &String, new: &String) -> (r: Option<String>)
    ensures
        opt_text(r) == text_change(old@, new@),
{
    if *old == *new {
        None
    } else {
        Some(new.clone())
    }
}

fn counter_change_exec(old: u64, new: u64) -> (r: Option<i128>)
    ensures
        r == counter_change(old as int, new as int),
{
    if old != new {
        Some(new as i128 - old as i128)
    } else {
        None
    }
}

fn replace_text(base: &mut String, change: &Option<String>)
    ensures
        final(base)@ == apply_text(old(base)@, opt_text(*change)),
{
    if let Some(v) = change {
        *base = v.clone();
    }
}

fn move_counter(base: u64, change: Option<i128>, max: u64) -> (res: Result<u64, DeltaError>)
    ensures
        match apply_counter(base as int, change, max as int) {
            Some(v) => res == Ok::<u64, DeltaError>(v as u64),
            None => res matches Err(e) && e is InvalidPacket,
        },
{
    match change {
        None => Ok(base),
        Some(v) => {
            let r = apply_u64_delta(base, v)?;
            if r > max {
                return Err(invalid_packet("delta overflow"));
            }
            Ok(r)
        },
    }
}

impl AgentDelta {
    /// The delta that turns `old` into `new`.
    pub fn between(old: &AgentState, new: &AgentState) -> (d: Self)
        ensures
            d@ == delta_between(old@, new@),
    {
        let cpu_changed = !f32_bits_equal(old.cpu_percent_bits, new.cpu_percent_bits);
        let mask = flag_exec(!(old.agent_id == new.agent_id), FIELD_AGENT_ID) | flag_exec(
            !(old.model == new.model),
            FIELD_MODEL,
        ) | flag_exec(!(old.status == new.status), FIELD_STATUS) | flag_exec(
            !(old.task == new.task),
            FIELD_TASK,
        ) | flag_exec(old.progress != new.progress, FIELD_PROGRESS) | flag_exec(
            old.tokens != new.tokens,
            FIELD_TOKENS,
        ) | flag_exec(old.memory_mb != new.memory_mb, FIELD_MEMORY_MB) | flag_exec(
            cpu_changed,
            FIELD_CPU_PERCENT,
        ) | flag_exec(old.files_processed != new.files_processed, FIELD_FILES_PROCESSED) | flag_exec(
            !(old.current_file == new.current_file),
            FIELD_CURRENT_FILE,
        );
        AgentDelta {
            mask,
            agent_id: text_change_exec(&old.agent_id, &new.agent_id),
            model: text_change_exec(&old.model, &new.model),
            status: text_change_exec(&old.status, &new.status),
            task: text_change_exec(&old.task, &new.task),
            progress_delta: counter_change_exec(old.progress as u64, new.progress as u64),
            tokens_delta: counter_change_exec(old.tokens, new.tokens),
            memory_mb_delta: counter_change_exec(old.memory_mb, new.memory_mb),
            cpu_percent_bits: if cpu_changed {
                Some(new.cpu_percent_bits)
            } else {
                None
            },
            files_processed_delta: counter_change_exec(old.files_processed, new.files_processed),
            current_file: text_change_exec(&old.current_file, &new.current_file),
        }
    }

    /// The state this delta produces from `base`.
    pub fn apply(&self, base: &AgentState) -> (res: Result<AgentState, DeltaError>)
        ensures
            match delta_apply(self@, base@) {
                Some(v) => res matches Ok(s) && s@ == v,
                None => res matches Err(e) && e is InvalidPacket,
            },
    {
        let mut out = base.clone();
        replace_text(&mut out.agent_id, &self.agent_id);
        replace_text(&mut out.model, &self.model);
        replace_text(&mut out.status, &self.status);
        replace_text(&mut out.task, &self.task);
        let progress = move_counter(out.progress as u64, self.progress_delta, u8::MAX as u64)?;
        out.progress = progress as u8;
        out.tokens = move_counter(out.tokens, self.tokens_delta, u64::MAX)?;
        out.memory_mb = move_counter(out.memory_mb, self.memory_mb_delta, u64::MAX)?;
        if let Some(v) = self.cpu_percent_bits {
            out.cpu_percent_bits = v;
        }
        out.files_processed = move_counter(out.files_processed, self.files_processed_delta, u64::MAX)?;
        replace_text(&mut out.current_file, &self.current_file);
        Ok(out)
    }
}

/// The bytes of an optional string field: nothing when its bit is clear, the
/// encoded string when set; `None` when the bit is set but the value is absent.
pub open spec fn opt_string_bytes(mask: u16, bit: u16, o: Option<Seq<char>>) -> Option<Seq<u8>> {
    if mask & bit == 0 {
        Some(Seq::empty())
    } else {
        match o {
            Some(t) => Some(string_bytes(t)),
            None => None,
        }
    }
}

/// The bytes of an optional signed change: its zigzag varint when the bit is set.
pub open spec fn opt_signed_bytes(mask: u16, bit: u16, o: Option<i128>) -> Option<Seq<u8>> {
    if mask & bit == 0 {
        Some(Seq::empty())
    } else {
        match o {
            Some(v) => Some(var128_bytes(zigzag(v))),
            None => None,
        }
    }
}

/// The bytes of an optional CPU load: four little-endian bytes when the bit is set.
pub open spec fn opt_u32_bytes(mask: u16, bit: u16, o: Option<u32>) -> Option<Seq<u8>> {
    if mask & bit == 0 {
        Some(Seq::empty())
    } else {
        match o {
            Some(v) => Some(spec_u32_to_le_bytes(v)),
            None => None,
        }
    }
}

/// The encoding of a delta: the mask as two little-endian bytes, then each field
/// whose bit is set, in field order; `None` when a set bit has no value.
pub open spec fn agent_delta_bytes(d: AgentDeltaView) -> Option<Seq<u8>> {
    let f1 = opt_string_bytes(d.mask, FIELD_AGENT_ID, d.agent_id);
    let f2 = opt_string_bytes(d.mask, FIELD_MODEL, d.model);
    let f3 = opt_string_bytes(d.mask, FIELD_STATUS, d.status);
    let f4 = opt_string_bytes(d.mask, FIELD_TASK, d.task);
    let f5 = opt_signed_bytes(d.mask, FIELD_PROGRESS, d.progress_delta);
    let f6 = opt_signed_bytes(d.mask, FIELD_TOKENS, d.tokens_delta);
    let f7 = opt_signed_bytes(d.mask, FIELD_MEMORY_MB, d.memory_mb_delta);
    let f8 = opt_u32_bytes(d.mask, FIELD_CPU_PERCENT, d.cpu_percent_bits);
    let f9 = opt_signed_bytes(d.mask, FIELD_FILES_PROCESSED, d.files_processed_delta);
    let f10 = opt_string_bytes(d.mask, FIELD_CURRENT_FILE, d.current_file);
    if f1 is Some && f2 is Some && f3 is Some && f4 is Some && f5 is Some && f6 is Some && f7 is Some
        && f8 is Some && f9 is Some && f10 is Some {
        Some(
            spec_u16_to_le_bytes(d.mask) + f1->0 + f2->0 + f3->0 + f4->0 + f5->0 + f6->0 + f7->0
                + f8->0 + f9->0 + f10->0,
        )
    } else {
        None
    }
}

/// An optional string field at `pos`: nothing to read when absent.
pub open spec fn parse_opt_string(b: Seq<u8>, pos: int, present: bool) -> Option<(Option<Seq<char>>, int)> {
    if !present {
        Some((None, pos))
    } else {
        match parse_string(b, pos) {
            Some((t, p)) => Some((Some(t), p)),
            None => None,
        }
    }
}

/// An optional zigzag varint at `pos`.
pub open spec fn parse_opt_signed(b: Seq<u8>, pos: int, present: bool) -> Option<(Option<i128>, int)> {
    if !present {
        Some((None, pos))
    } else {
        match var128_parse(b, pos, 0, 0) {
            Some((v, p)) => Some((Some(unzigzag(v)), p)),
            None => None,
        }
    }
}

/// An optional four-byte little-endian value at `pos`.
pub open spec fn parse_opt_u32(b: Seq<u8>, pos: int, present: bool) -> Option<(Option<u32>, int)> {
    if !present {
        Some((None, pos))
    } else {
        match parse_u32(b, pos) {
            Some((v, p)) => Some((Some(v), p)),
            None => None,
        }
    }
}

/// The delta an encoding holds: the mask, then each field whose bit is set, with
/// no bytes left over.
pub open spec fn parse_agent_delta(b: Seq<u8>) -> Option<AgentDeltaView> {
    if b.len() < 2 {
        None
    } else {
        let mask = spec_u16_from_le_bytes(b.subrange(0, 2));
        match parse_opt_string(b, 2, mask & FIELD_AGENT_ID != 0) {
            None => None,
            Some((agent_id, p1)) => match parse_opt_string(b, p1, mask & FIELD_MODEL != 0) {
                None => None,
                Some((model, p2)) => match parse_opt_string(b, p2, mask & FIELD_STATUS != 0) {
                    None => None,
                    Some((status, p3)) => match parse_opt_string(b, p3, mask & FIELD_TASK != 0) {
                        None => None,
                        Some((task, p4)) => match parse_opt_signed(b, p4, mask & FIELD_PROGRESS != 0) {
                            None => None,
                            Some((progress_delta, p5)) => match parse_opt_signed(
                                b,
                                p5,
                                mask & FIELD_TOKENS != 0,
                            ) {
                                None => None,
                                Some((tokens_delta, p6)) => match parse_opt_signed(
                                    b,
                                    p6,
                                    mask & FIELD_MEMORY_MB != 0,
                                ) {
                                    None => None,
                                    Some((memory_mb_delta, p7)) => match parse_opt_u32(
                                        b,
                                        p7,
                                        mask & FIELD_CPU_PERCENT != 0,
                                    ) {
                                        None => None,
                                        Some((cpu_percent_bits, p8)) => match parse_opt_signed(
                                            b,
                                            p8,
                                            mask & FIELD_FILES_PROCESSED != 0,
                                        ) {
                                            None => None,
                                            Some((files_processed_delta, p9)) => match parse_opt_string(
                                                b,
                                                p9,
                                                mask & FIELD_CURRENT_FILE != 0,
                                            ) {
                                                None => None,
                                                Some((current_file, p10)) => if p10 == b.len() {
                                                    Some(
                                                        AgentDeltaView {
                                                            mask,
                                                            agent_id,
                                                            model,
                                                            status,
                                                            task,
                                                            progress_delta,
                                                            tokens_delta,
                                                            memory_mb_delta,
                                                            cpu_percent_bits,
                                                            files_processed_delta,
                                                            current_file,
                                                        },
                                                    )
                                                } else {
                                                    None
                                                },
                                            },
                                        },
                                    },
                                },
                            },
                        },
                    },
                },
            },
        }
    }
}

fn mismatch() -> (e: DeltaError)
    ensures
        e == DeltaError::InvalidState("delta mask/value mismatch"),
{
    DeltaError::InvalidState("delta mask/value mismatch")
}

fn put_opt_string(out: &mut Vec<u8>, mask: u16, bit: u16, field: &Option<String>) -> (res: Result<(), DeltaError>)
    ensures
        match opt_string_bytes(mask, bit, opt_text(*field)) {
            Some(b) => res is Ok && final(out)@ == old(out)@ + b,
            None => res matches Err(e) && e is InvalidState,
        },
{
    if mask & bit == 0 {
        assert(old(out)@ + Seq::<u8>::empty() =~= old(out)@);
        return Ok(());
    }
    match field {
        Some(v) => {
            put_string(out, v.as_str());
            Ok(())
        },
        None => Err(mismatch()),
    }
}

fn put_opt_signed(out: &mut Vec<u8>, mask: u16, bit: u16, field: Option<i128>) -> (res: Result<(), DeltaError>)
    ensures
        match opt_signed_bytes(mask, bit, field) {
            Some(b) => res is Ok && final(out)@ == old(out)@ + b,
            None => res matches Err(e) && e is InvalidState,
        },
{
    if mask & bit == 0 {
        assert(old(out)@ + Seq::<u8>::empty() =~= old(out)@);
        return Ok(());
    }
    match field {
        Some(v) => {
            put_var_i128(out, v);
            Ok(())
        },
        None => Err(mismatch()),
    }
}

fn put_opt_u32(out: &mut Vec<u8>, mask: u16, bit: u16, field: Option<u32>) -> (res: Result<(), DeltaError>)
    ensures
        match opt_u32_bytes(mask, bit, field) {
            Some(b) => res is Ok && final(out)@ == old(out)@ + b,
            None => res matches Err(e) && e is InvalidState,
        },
{
    if mask & bit == 0 {
        assert(old(out)@ + Seq::<u8>::empty() =~= old(out)@);
        return Ok(());
    }
    match field {
        Some(v) => {
            crate::buf::append_bytes(out, vstd::bytes::u32_to_le_bytes(v).as_slice());
            Ok(())
        },
        None => Err(mismatch()),
    }
}

/// Encodes a delta; fails when a field's bit is set but its value is absent.
#[verifier::rlimit(40)]
pub fn encode_agent_delta(delta: &AgentDelta) -> (res: Result<Vec<u8>, DeltaError>)
    ensures
        match agent_delta_bytes(delta@) {
            Some(b) => res matches Ok(v) && v@ == b,
            None => res matches Err(e) && e is InvalidState,
        },
{
    let mask = delta.mask;
    let mut out: Vec<u8> = Vec::new();
    crate::buf::append_bytes(&mut out, vstd::bytes::u16_to_le_bytes(mask).as_slice());
    put_opt_string(&mut out, mask, FIELD_AGENT_ID, &delta.agent_id)?;
    put_opt_string(&mut out, mask, FIELD_MODEL, &delta.model)?;
    put_opt_string(&mut out, mask, FIELD_STATUS, &delta.status)?;
    put_opt_string(&mut out, mask, FIELD_TASK, &delta.task)?;
    put_opt_signed(&mut out, mask, FIELD_PROGRESS, delta.progress_delta)?;
    put_opt_signed(&mut out, mask, FIELD_TOKENS, delta.tokens_delta)?;
    put_opt_signed(&mut out, mask, FIELD_MEMORY_MB, delta.memory_mb_delta)?;
    put_opt_u32(&mut out, mask, FIELD_CPU_PERCENT, delta.cpu_percent_bits)?;
    put_opt_signed(&mut out, mask, FIELD_FILES_PROCESSED, delta.files_processed_delta)?;
    put_opt_string(&mut out, mask, FIELD_CURRENT_FILE, &delta.current_file)?;
    Ok(out)
}

fn read_opt_string(r: &mut Reader, present: bool) -> (res: Result<Option<String>, DeltaError>)
    requires
        old(r)@.pos <= old(r)@.bytes.len(),
    ensures
        final(r)@.bytes == old(r)@.bytes,
        final(r)@.pos <= final(r)@.bytes.len(),
        match parse_opt_string(old(r)@.bytes, old(r)@.pos, present) {
            Some((v, end)) => res matches Ok(o) && opt_text(o) == v && final(r)@.pos == end,
            None => res matches Err(e) && e is InvalidPacket,
        },
{
    if !present {
        return Ok(None);
    }
    let s = r.string()?;
    Ok(Some(s))
}

fn read_opt_signed(r: &mut Reader, present: bool) -> (res: Result<Option<i128>, DeltaError>)
    requires
        old(r)@.pos <= old(r)@.bytes.len(),
    ensures
        final(r)@.bytes == old(r)@.bytes,
        final(r)@.pos <= final(r)@.bytes.len(),
        match parse_opt_signed(old(r)@.bytes, old(r)@.pos, present) {
            Some((v, end)) => res == Ok::<Option<i128>, DeltaError>(v) && final(r)@.pos == end,
            None => res matches Err(e) && e is InvalidPacket,
        },
{
    if !present {
        return Ok(None);
    }
    let v = r.var_i128()?;
    Ok(Some(v))
}

fn read_opt_u32(r: &mut Reader, present: bool) -> (res: Result<Option<u32>, DeltaError>)
    requires
        old(r)@.pos <= old(r)@.bytes.len(),
    ensures
        final(r)@.bytes == old(r)@.bytes,
        final(r)@.pos <= final(r)@.bytes.len(),
        match parse_opt_u32(old(r)@.bytes, old(r)@.pos, present) {
            Some((v, end)) => res == Ok::<Option<u32>, DeltaError>(v) && final(r)@.pos == end,
            None => res matches Err(e) && e is InvalidPacket,
        },
{
    if !present {
        return Ok(None);
    }
    let v = r.u32_le()?;
    Ok(Some(v))
}

/// Decodes a delta.
#[verifier::spinoff_prover]
#[verifier::rlimit(80)]
pub fn decode_agent_delta(bytes: &[u8]) -> (res: Result<AgentDelta, DeltaError>)
    ensures
        match parse_agent_delta(bytes@) {
            Some(v) => res matches Ok(d) && d@ == v,
            None => res matches Err(e) && e is InvalidPacket,
        },
{
    let mut r = Reader::new(bytes);
    let mask = r.u16()?;
    let agent_id = read_opt_string(&mut r, mask & FIELD_AGENT_ID != 0)?;
    let model = read_opt_string(&mut r, mask & FIELD_MODEL != 0)?;
    let status = read_opt_string(&mut r, mask & FIELD_STATUS != 0)?;
    let task = read_opt_string(&mut r, mask & FIELD_TASK != 0)?;
    let progress_delta = read_opt_signed(&mut r, mask & FIELD_PROGRESS != 0)?;
    let tokens_delta = read_opt_signed(&mut r, mask & FIELD_TOKENS != 0)?;
    let memory_mb_delta = read_opt_signed(&mut r, mask & FIELD_MEMORY_MB != 0)?;
    let cpu_percent_bits = read_opt_u32(&mut r, mask & FIELD_CPU_PERCENT != 0)?;
    let files_processed_delta = read_opt_signed(&mut r, mask & FIELD_FILES_PROCESSED != 0)?;
    let current_file = read_opt_string(&mut r, mask & FIELD_CURRENT_FILE != 0)?;
    r.finish()?;
    Ok(AgentDelta {
        mask,
        agent_id,
        model,
        status,
        task,
        progress_delta,
        tokens_delta,
        memory_mb_delta,
        cpu_percent_bits,
        files_processed_delta,
        current_file,
    })
}

/// Every field's bit is set exactly when the field holds a value.
pub open spec fn delta_consistent(d: AgentDeltaView) -> bool {
    &&& (d.mask & FIELD_AGENT_ID != 0) == (d.agent_id is Some)
    &&& (d.mask & FIELD_MODEL != 0) == (d.model is Some)
    &&& (d.mask & FIELD_STATUS != 0) == (d.status is Some)
    &&& (d.mask & FIELD_TASK != 0) == (d.task is Some)
    &&& (d.mask & FIELD_PROGRESS != 0) == (d.progress_delta is Some)
    &&& (d.mask & FIELD_TOKENS != 0) == (d.tokens_delta is Some)
    &&& (d.mask & FIELD_MEMORY_MB != 0) == (d.memory_mb_delta is Some)
    &&& (d.mask & FIELD_CPU_PERCENT != 0) == (d.cpu_percent_bits is Some)
    &&& (d.mask & FIELD_FILES_PROCESSED != 0) == (d.files_processed_delta is Some)
    &&& (d.mask & FIELD_CURRENT_FILE != 0) == (d.current_file is Some)
}

proof fn lemma_flag_bits(
    c1: bool,
    c2: bool,
    c3: bool,
    c4: bool,
    c5: bool,
    c6: bool,
    c7: bool,
    c8: bool,
    c9: bool,
    c10: bool,
)
    ensures
        ({
            let m = flag(c1, FIELD_AGENT_ID) | flag(c2, FIELD_MODEL) | flag(c3, FIELD_STATUS) | flag(
                c4,
                FIELD_TASK,
            ) | flag(c5, FIELD_PROGRESS) | flag(c6, FIELD_TOKENS) | flag(c7, FIELD_MEMORY_MB) | flag(
                c8,
                FIELD_CPU_PERCENT,
            ) | flag(c9, FIELD_FILES_PROCESSED) | flag(c10, FIELD_CURRENT_FILE);
            &&& (m & FIELD_AGENT_ID != 0) == c1
            &&& (m & FIELD_MODEL != 0) == c2
            &&& (m & FIELD_STATUS != 0) == c3
            &&& (m & FIELD_TASK != 0) == c4
            &&& (m & FIELD_PROGRESS != 0) == c5
            &&& (m & FIELD_TOKENS != 0) == c6
            &&& (m & FIELD_MEMORY_MB != 0) == c7
            &&& (m & FIELD_CPU_PERCENT != 0) == c8
            &&& (m & FIELD_FILES_PROCESSED != 0) == c9
            &&& (m & FIELD_CURRENT_FILE != 0) == c10
        }),
{
    assert({
        let m = flag(c1, FIELD_AGENT_ID) | flag(c2, FIELD_MODEL) | flag(c3, FIELD_STATUS) | flag(
            c4,
            FIELD_TASK,
        ) | flag(c5, FIELD_PROGRESS) | flag(c6, FIELD_TOKENS) | flag(c7, FIELD_MEMORY_MB) | flag(
            c8,
            FIELD_CPU_PERCENT,
        ) | flag(c9, FIELD_FILES_PROCESSED) | flag(c10, FIELD_CURRENT_FILE);
        &&& (m & FIELD_AGENT_ID != 0) == c1
        &&& (m & FIELD_MODEL != 0) == c2
        &&& (m & FIELD_STATUS != 0) == c3
        &&& (m & FIELD_TASK != 0) == c4
        &&& (m & FIELD_PROGRESS != 0) == c5
        &&& (m & FIELD_TOKENS != 0) == c6
        &&& (m & FIELD_MEMORY_MB != 0) == c7
        &&& (m & FIELD_CPU_PERCENT != 0) == c8
        &&& (m & FIELD_FILES_PROCESSED != 0) == c9
        &&& (m & FIELD_CURRENT_FILE != 0) == c10
    }) by (bit_vector);
}

/// The delta between two states names exactly the fields it carries, and so
/// always encodes.
pub proof fn lemma_between_consistent(old: AgentStateView, new: AgentStateView)
    ensures
        delta_consistent(delta_between(old, new)),
        agent_delta_bytes(delta_between(old, new)) is Some,
{
    lemma_flag_bits(
        old.agent_id != new.agent_id,
        old.model != new.model,
        old.status != new.status,
        old.task != new.task,
        old.progress != new.progress,
        old.tokens != new.tokens,
        old.memory_mb != new.memory_mb,
        !f32_bits_eq(old.cpu_percent_bits, new.cpu_percent_bits),
        old.files_processed != new.files_processed,
        old.current_file != new.current_file,
    );
}

/// Applying the delta between two states to the first gives the second, unless
/// the CPU loads are distinct bit patterns that compare equal as `f32` (the two
/// zeros), where the first state's pattern is kept.
pub proof fn lemma_apply_between(old: AgentStateView, new: AgentStateView)
    requires
        f32_bits_eq(old.cpu_percent_bits, new.cpu_percent_bits) ==> old.cpu_percent_bits
            == new.cpu_percent_bits,
    ensures
        delta_apply(delta_between(old, new), old) == Some(new),
{
}

proof fn lemma_opt_string_piece(mask: u16, bit: u16, o: Option<Seq<char>>, w: Seq<u8>, pos: int)
    requires
        (mask & bit != 0) == (o is Some),
        opt_string_bytes(mask, bit, o) is Some,
        0 <= pos,
        pos + opt_string_bytes(mask, bit, o)->0.len() <= w.len(),
        w.subrange(pos, pos + opt_string_bytes(mask, bit, o)->0.len()) == opt_string_bytes(mask, bit, o)->0,
        w.len() <= usize::MAX,
    ensures
        parse_opt_string(w, pos, mask & bit != 0) == Some((o, pos + opt_string_bytes(mask, bit, o)->0.len())),
{
    if let Some(t) = o {
        assert(encode_utf8(t).len() <= string_bytes(t).len());
        lemma_string_roundtrip(t, w, pos);
    }
}

proof fn lemma_opt_signed_piece(mask: u16, bit: u16, o: Option<i128>, w: Seq<u8>, pos: int)
    requires
        (mask & bit != 0) == (o is Some),
        opt_signed_bytes(mask, bit, o) is Some,
        0 <= pos,
        pos + opt_signed_bytes(mask, bit, o)->0.len() <= w.len(),
        w.subrange(pos, pos + opt_signed_bytes(mask, bit, o)->0.len()) == opt_signed_bytes(mask, bit, o)->0,
    ensures
        parse_opt_signed(w, pos, mask & bit != 0) == Some((o, pos + opt_signed_bytes(mask, bit, o)->0.len())),
{
    if let Some(v) = o {
        lemma_var128_roundtrip(zigzag(v), w, pos);
        lemma_zigzag_roundtrip(v);
    }
}

proof fn lemma_opt_u32_piece(mask: u16, bit: u16, o: Option<u32>, w: Seq<u8>, pos: int)
    requires
        (mask & bit != 0) == (o is Some),
        opt_u32_bytes(mask, bit, o) is Some,
        0 <= pos,
        pos + opt_u32_bytes(mask, bit, o)->0.len() <= w.len(),
        w.subrange(pos, pos + opt_u32_bytes(mask, bit, o)->0.len()) == opt_u32_bytes(mask, bit, o)->0,
    ensures
        parse_opt_u32(w, pos, mask & bit != 0) == Some((o, pos + opt_u32_bytes(mask, bit, o)->0.len())),
{
    vstd::bytes::lemma_auto_spec_u32_to_from_le_bytes();
}

/// Decoding the encoding of a consistent delta gives the delta back.
#[verifier::rlimit(100)]
#[verifier::spinoff_prover]
pub proof fn lemma_agent_delta_roundtrip(d: AgentDeltaView)
    requires
        delta_consistent(d),
        agent_delta_bytes(d) matches Some(b) && b.len() <= usize::MAX,
    ensures
        parse_agent_delta(agent_delta_bytes(d)->0) == Some(d),
{
    let p0 = spec_u16_to_le_bytes(d.mask);
    let p1 = opt_string_bytes(d.mask, FIELD_AGENT_ID, d.agent_id)->0;
    let p2 = opt_string_bytes(d.mask, FIELD_MODEL, d.model)->0;
    let p3 = opt_string_bytes(d.mask, FIELD_STATUS, d.status)->0;
    let p4 = opt_string_bytes(d.mask, FIELD_TASK, d.task)->0;
    let p5 = opt_signed_bytes(d.mask, FIELD_PROGRESS, d.progress_delta)->0;
    let p6 = opt_signed_bytes(d.mask, FIELD_TOKENS, d.tokens_delta)->0;
    let p7 = opt_signed_bytes(d.mask, FIELD_MEMORY_MB, d.memory_mb_delta)->0;
    let p8 = opt_u32_bytes(d.mask, FIELD_CPU_PERCENT, d.cpu_percent_bits)->0;
    let p9 = opt_signed_bytes(d.mask, FIELD_FILES_PROCESSED, d.files_processed_delta)->0;
    let p10 = opt_string_bytes(d.mask, FIELD_CURRENT_FILE, d.current_file)->0;
    let l0 = p0;
    let l1 = l0 + p1;
    let l2 = l1 + p2;
    let l3 = l2 + p3;
    let l4 = l3 + p4;
    let l5 = l4 + p5;
    let l6 = l5 + p6;
    let l7 = l6 + p7;
    let l8 = l7 + p8;
    let l9 = l8 + p9;
    let w = l9 + p10;
    assert(w == agent_delta_bytes(d)->0);
    vstd::bytes::lemma_auto_spec_u16_to_from_le_bytes();
    assert(w.subrange(0, 2) =~= p0);
    assert(w.subrange(l0.len() as int, l1.len() as int) =~= p1);
    assert(w.subrange(l1.len() as int, l2.len() as int) =~= p2);
    assert(w.subrange(l2.len() as int, l3.len() as int) =~= p3);
    assert(w.subrange(l3.len() as int, l4.len() as int) =~= p4);
    assert(w.subrange(l4.len() as int, l5.len() as int) =~= p5);
    assert(w.subrange(l5.len() as int, l6.len() as int) =~= p6);
    assert(w.subrange(l6.len() as int, l7.len() as int) =~= p7);
    assert(w.subrange(l7.len() as int, l8.len() as int) =~= p8);
    assert(w.subrange(l8.len() as int, l9.len() as int) =~= p9);
    assert(w.subrange(l9.len() as int, w.len() as int) =~= p10);
    lemma_opt_string_piece(d.mask, FIELD_AGENT_ID, d.agent_id, w, l0.len() as int);
    lemma_opt_string_piece(d.mask, FIELD_MODEL, d.model, w, l1.len() as int);
    lemma_opt_string_piece(d.mask, FIELD_STATUS, d.status, w, l2.len() as int);
    lemma_opt_string_piece(d.mask, FIELD_TASK, d.task, w, l3.len() as int);
    lemma_opt_signed_piece(d.mask, FIELD_PROGRESS, d.progress_delta, w, l4.len() as int);
    lemma_opt_signed_piece(d.mask, FIELD_TOKENS, d.tokens_delta, w, l5.len() as int);
    lemma_opt_signed_piece(d.mask, FIELD_MEMORY_MB, d.memory_mb_delta, w, l6.len() as int);
    lemma_opt_u32_piece(d.mask, FIELD_CPU_PERCENT, d.cpu_percent_bits, w, l7.len() as int);
    lemma_opt_signed_piece(d.mask, FIELD_FILES_PROCESSED, d.files_processed_delta, w, l8.len() as int);
    lemma_opt_string_piece(d.mask, FIELD_CURRENT_FILE, d.current_file, w, l9.len() as int);
}

} // verus!
