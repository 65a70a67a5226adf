use vstd::prelude::*;

verus! {

/// Returns an owned copy of `src`.
pub fn copy_bytes(src: &[u8]) -> (out: Vec<u8>)
    ensures
        out@ == src@,
{
    let mut out: Vec<u8> = Vec::with_capacity(src.len());
    append_bytes(&mut out, src);
    assert(out@ =~= src@);
    out
}

/// Appends all of `src` to `out`.
pub fn append_bytes(out: &mut Vec<u8>, src: &[u8])
    ensures
        final(out)@ == old(out)@ + src@,
{
    let mut i: usize = 0;
    while i < src.len()
        invariant
            i <= src@.len(),
            out@ == old(out)@ + src@.take(i as int),
        decreases src@.len() - i,
    {
        out.push(src[i]);
        proof {
            assert(src@.take(i + 1) =~= src@.take(i as int).push(src@[i as int]));
        }
        i = i + 1;
    }
    assert(src@.take(src@.len() as int) =~= src@);
}

/// Overwrites `out[start..start + src.len()]` with `src`.
pub fn write_at(out: &mut Vec<u8>, start: usize, src: &[u8])
    requires
        start + src@.len() <= old(out)@.len(),
    ensures
        final(out)@ == old(out)@.take(start as int) + src@ + old(out)@.skip(start + src@.len()),
        final(out)@.len() == old(out)@.len(),
{
    let total = out.len();
    let mut i: usize = 0;
    while i < src.len()
        invariant
            i <= src@.len(),
            out@.len() == total,
            start + src@.len() <= out@.len(),
            out@.len() == old(out)@.len(),
            out@ =~= old(out)@.take(start as int) + src@.take(i as int) + old(out)@.skip(start + i),
        decreases src@.len() - i,
    {
        out.set(start + i, src[i]);
        i = i + 1;
        proof {
            assert(out@ =~= old(out)@.take(start as int) + src@.take(i as int) + old(out)@.skip(start + i));
        }
    }
    assert(src@.take(src@.len() as int) =~= src@);
}

/// Whether two byte strings are equal.
pub fn bytes_equal(a: &[u8], b: &[u8]) -> (r: bool)
    ensures
        r == (a@ == b@),
{
    if a.len() != b.len() {
        return false;
    }
    let mut i: usize = 0;
    while i < a.len()
        invariant
            i <= a@.len(),
            a@.len() == b@.len(),
            forall|j: int| 0 <= j < i ==> a@[j] == b@[j],
        decreases a@.len() - i,
    {
        if a[i] != b[i] {
            return false;
        }
        i = i + 1;
    }
    assert(a@ =~= b@);
    true
}

} // verus!
