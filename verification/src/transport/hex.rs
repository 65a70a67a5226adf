//! Lowercase hex framing of binary payloads for text-only relays.
use crate::ext::string_from_utf8;
use vstd::prelude::*;
use vstd::string::*;
use vstd::utf8::{decode_utf8_encode_utf8, encode_utf8, partial_valid_utf8_extend_ascii_block};

verus! {

/// The lowercase ASCII hex digit for a value below 16.
pub open spec fn hex_digit(v: u8) -> u8 {
    if v < 10 {
        (0x30 + v) as u8
    } else {
        (0x61 + v - 10) as u8
    }
}

/// Two lowercase hex digits per byte, high nibble first.
pub open spec fn hex_of(bytes: Seq<u8>) -> Seq<u8>
    decreases bytes.len(),
{
    if bytes.len() == 0 {
        seq![]
    } else {
        hex_of(bytes.drop_last()) + seq![hex_digit(bytes.last() / 16), hex_digit(bytes.last() % 16)]
    }
}

/// The value of an ASCII hex digit of either case.
pub open spec fn nibble_of(b: u8) -> Option<u8> {
    if 0x30 <= b <= 0x39 {
        Some((b - 0x30) as u8)
    } else if 0x61 <= b <= 0x66 {
        Some((b - 0x61 + 10) as u8)
    } else if 0x41 <= b <= 0x46 {
        Some((b - 0x41 + 10) as u8)
    } else {
        None
    }
}

/// Decoding the first `n` digit pairs of `s`.
pub open spec fn unhex_pairs(s: Seq<u8>, n: int) -> Option<Seq<u8>>
    decreases n,
{
    if n <= 0 {
        Some(seq![])
    } else {
        match unhex_pairs(s, n - 1) {
            None => None,
            Some(prefix) => match (nibble_of(s[2 * n - 2]), nibble_of(s[2 * n - 1])) {
                (Some(hi), Some(lo)) => Some(prefix.push((hi * 16 + lo) as u8)),
                _ => None,
            },
        }
    }
}

/// Decoding hex text: an even number of digits, each pair one byte.
pub open spec fn unhex(s: Seq<u8>) -> Option<Seq<u8>> {
    if s.len() % 2 != 0 {
        None
    } else {
        unhex_pairs(s, (s.len() / 2) as int)
    }
}

/// The value of one hex digit.
pub fn hex_nibble(b: u8) -> (res: Result<u8, String>)
    ensures
        match nibble_of(b) {
            Some(v) => res == Ok::<u8, String>(v),
            None => res is Err,
        },
{
    if b >= 0x30 && b <= 0x39 {
        Ok(b - 0x30)
    } else if b >= 0x61 && b <= 0x66 {
        Ok(b - 0x61 + 10)
    } else if b >= 0x41 && b <= 0x46 {
        Ok(b - 0x41 + 10)
    } else {
        Err("invalid hex digit".to_owned())
    }
}

proof fn lemma_hex_len(bytes: Seq<u8>)
    ensures
        hex_of(bytes).len() == 2 * bytes.len(),
        forall|i: int| 0 <= i < hex_of(bytes).len() ==> #[trigger] hex_of(bytes)[i] < 0x80,
    decreases bytes.len(),
{
    if bytes.len() > 0 {
        lemma_hex_len(bytes.drop_last());
    }
}

/// Encodes bytes as lowercase hex text.
pub fn hex_encode(bytes: &[u8]) -> (s: String)
    ensures
        encode_utf8(s@) == hex_of(bytes@),
{
    let mut out: Vec<u8> = Vec::new();
    let mut i: usize = 0;
    while i < bytes.len()
        invariant
            i <= bytes@.len(),
            out@ == hex_of(bytes@.take(i as int)),
        decreases bytes@.len() - i,
    {
        let b = bytes[i];
        let hi = b / 16;
        let lo = b % 16;
        let hd = if hi < 10 {
            0x30 + hi
        } else {
            0x61 + hi - 10
        };
        let ld = if lo < 10 {
            0x30 + lo
        } else {
            0x61 + lo - 10
        };
        out.push(hd);
        out.push(ld);
        proof {
            assert(bytes@.take(i + 1).drop_last() =~= bytes@.take(i as int));
        }
        i = i + 1;
        assert(out@ =~= hex_of(bytes@.take(i as int)));
    }
    assert(bytes@.take(i as int) =~= bytes@);
    let ghost h = out@;
    proof {
        lemma_hex_len(bytes@);
        assert(h.subrange(0, 0) =~= Seq::<u8>::empty());
        assert forall|k: int| 0 <= 0 <= k < h.len() <= h.len() implies #[trigger]
            vstd::utf8::is_leading_byte_width_1(h[k]) by {
            assert(h[k] < 0x80);
        }
        partial_valid_utf8_extend_ascii_block(h, 0, h.len() as int);
        assert(h.subrange(0, h.len() as int) =~= h);
    }
    match string_from_utf8(out) {
        Ok(s) => {
            proof {
                decode_utf8_encode_utf8(h);
            }
            s
        },
        Err(()) => {
            proof {
                assert(false);
            }
            String::new()
        },
    }
}

/// Decodes hex text of either case.
pub fn hex_decode(value: &str) -> (res: Result<Vec<u8>, String>)
    ensures
        match unhex(value.spec_bytes()) {
            Some(b) => res matches Ok(v) && v@ == b,
            None => res is Err,
        },
{
    let bytes = value.as_bytes();
    if bytes.len() % 2 != 0 {
        return Err("odd hex length".to_owned());
    }
    let pairs = bytes.len() / 2;
    let mut out: Vec<u8> = Vec::new();
    let mut n: usize = 0;
    while n < pairs
        invariant
            bytes@ == value.spec_bytes(),
            pairs * 2 == bytes@.len(),
            n <= pairs,
            unhex_pairs(bytes@, n as int) == Some(out@),
        decreases pairs - n,
    {
        let hi = match hex_nibble(bytes[2 * n]) {
            Ok(v) => v,
            Err(e) => {
                proof {
                    lemma_unhex_none(bytes@, n + 1, pairs as int);
                }
                return Err(e);
            },
        };
        let lo = match hex_nibble(bytes[2 * n + 1]) {
            Ok(v) => v,
            Err(e) => {
                proof {
                    lemma_unhex_none(bytes@, n + 1, pairs as int);
                }
                return Err(e);
            },
        };
        assert(hi * 16 + lo < 256);
        out.push(hi * 16 + lo);
        n = n + 1;
    }
    Ok(out)
}

proof fn lemma_unhex_none(s: Seq<u8>, m: int, n: int)
    requires
        0 <= m <= n,
        unhex_pairs(s, m) is None,
    ensures
        unhex_pairs(s, n) is None,
    decreases n - m,
{
    if m < n {
        lemma_unhex_none(s, m, n - 1);
    }
}

proof fn lemma_unhex_of(bytes: Seq<u8>)
    ensures
        unhex_pairs(hex_of(bytes), bytes.len() as int) == Some(bytes),
    decreases bytes.len(),
{
    lemma_hex_len(bytes);
    if bytes.len() > 0 {
        let p = bytes.drop_last();
        lemma_unhex_of(p);
        lemma_hex_len(p);
        let h = hex_of(bytes);
        let n = bytes.len() as int;
        assert(hex_of(p) =~= h.take(2 * n - 2));
        lemma_unhex_prefix(h, 2 * n - 2, n - 1);
        let b = bytes.last();
        assert(b / 16 < 16 && b % 16 < 16);
        assert(bytes =~= p.push((((b / 16) as u8) * 16 + ((b % 16) as u8)) as u8));
    }
}

proof fn lemma_unhex_prefix(h: Seq<u8>, len: int, n: int)
    requires
        0 <= n,
        2 * n <= len <= h.len(),
    ensures
        unhex_pairs(h.take(len), n) == unhex_pairs(h, n),
    decreases n,
{
    if n > 0 {
        lemma_unhex_prefix(h, len, n - 1);
        assert(h.take(len)[2 * n - 2] == h[2 * n - 2]);
        assert(h.take(len)[2 * n - 1] == h[2 * n - 1]);
    }
}

/// Decoding the hex text of some bytes gives the bytes back.
pub proof fn lemma_hex_roundtrip(bytes: Seq<u8>)
    ensures
        unhex(hex_of(bytes)) == Some(bytes),
{
    lemma_hex_len(bytes);
    lemma_unhex_of(bytes);
    assert((2 * bytes.len()) % 2 == 0);
    assert((2 * bytes.len()) / 2 == bytes.len());
}

} // verus!
