use vstd::prelude::*;

verus! {

/// The four little-endian bytes of `v`.
pub open spec fn le_bytes(v: u32) -> Seq<u8> {
    seq![(v & 0xff) as u8, ((v >> 8) & 0xff) as u8, ((v >> 16) & 0xff) as u8, ((v >> 24) & 0xff) as u8]
}

/// The `u32` stored little-endian in the first four bytes of `s`.
pub open spec fn read_le(s: Seq<u8>) -> u32
    recommends
        s.len() >= 4,
{
    (s[0] as u32) | ((s[1] as u32) << 8) | ((s[2] as u32) << 16) | ((s[3] as u32) << 24)
}

/// `n` zero bytes.
pub open spec fn zeros(n: nat) -> Seq<u8> {
    Seq::new(n, |i: int| 0u8)
}

/// Reading back the little-endian bytes of a word gives the word, and the
/// bytes that follow are left untouched.
pub proof fn lemma_le_read(v: u32, rest: Seq<u8>)
    ensures
        le_bytes(v).len() == 4,
        read_le(le_bytes(v) + rest) == v,
        (le_bytes(v) + rest).skip(4) == rest,
{
    let s = le_bytes(v) + rest;
    assert(s[0] == (v & 0xff) as u8);
    assert(s[1] == ((v >> 8) & 0xff) as u8);
    assert(s[2] == ((v >> 16) & 0xff) as u8);
    assert(s[3] == ((v >> 24) & 0xff) as u8);
    assert(((((v & 0xff) as u8) as u32) | (((((v >> 8) & 0xff) as u8) as u32) << 8) | (((((v >> 16)
        & 0xff) as u8) as u32) << 16) | (((((v >> 24) & 0xff) as u8) as u32) << 24)) == v)
        by (bit_vector);
    assert(s.skip(4) =~= rest);
}

/// Appends the little-endian bytes of `v`.
pub fn push_le(out: &mut Vec<u8>, v: u32)
    ensures
        final(out)@ == old(out)@ + le_bytes(v),
{
    out.push((v & 0xff) as u8);
    out.push(((v >> 8) & 0xff) as u8);
    out.push(((v >> 16) & 0xff) as u8);
    out.push(((v >> 24) & 0xff) as u8);
    assert(final(out)@ =~= old(out)@ + le_bytes(v));
}

/// Appends every byte of `b`.
pub fn push_all(out: &mut Vec<u8>, b: &[u8])
    ensures
        final(out)@ == old(out)@ + b@,
{
    let ghost start = out@;
    let mut i: usize = 0;
    while i < b.len()
        invariant
            i <= b.len(),
            out@ == start + b@.take(i as int),
        decreases b.len() - i,
    {
        out.push(b[i]);
        i = i + 1;
        assert(out@ =~= start + b@.take(i as int));
    }
    assert(b@.take(b.len() as int) =~= b@);
}

/// Reads the little-endian word that starts at byte `i` of `s`.
pub fn read_le_at(s: &[u8], i: usize) -> (r: u32)
    requires
        i + 4 <= s@.len(),
    ensures
        r == read_le(s@.skip(i as int)),
{
    let r = (s[i] as u32) | ((s[i + 1] as u32) << 8) | ((s[i + 2] as u32) << 16) | ((s[i + 3]
        as u32) << 24);
    r
}

/// Whether two byte strings are equal.
pub fn bytes_eq(a: &[u8], b: &[u8]) -> (r: bool)
    ensures
        r == (a@ == b@),
{
    if a.len() != b.len() {
        return false;
    }
    let mut i: usize = 0;
    while i < a.len()
        invariant
            a@.len() == b@.len(),
            i <= a@.len(),
            forall|k: int| 0 <= k < i ==> a@[k] == b@[k],
        decreases a.len() - i,
    {
        if a[i] != b[i] {
            return false;
        }
        i = i + 1;
    }
    assert(a@ =~= b@);
    true
}

} // verus!
