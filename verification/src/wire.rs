//! Big-endian integers on the wire.

use vstd::prelude::*;

verus! {

/// The two bytes at `at`, read as a big-endian number.
pub open spec fn be_u16(s: Seq<u8>, at: int) -> int {
    s[at] as int * 0x100 + s[at + 1] as int
}

/// The four bytes at `at`, read as a big-endian number.
pub open spec fn be_u32(s: Seq<u8>, at: int) -> int {
    be_u16(s, at) * 0x1_0000 + be_u16(s, at + 2)
}

/// The eight bytes at `at`, read as a big-endian number.
pub open spec fn be_u64(s: Seq<u8>, at: int) -> int {
    be_u32(s, at) * 0x1_0000_0000 + be_u32(s, at + 4)
}

/// `v` written as two big-endian bytes.
pub open spec fn u16_be(v: int) -> Seq<u8> {
    seq![(v / 0x100) as u8, (v % 0x100) as u8]
}

/// `v` written as four big-endian bytes.
pub open spec fn u32_be(v: int) -> Seq<u8> {
    u16_be(v / 0x1_0000) + u16_be(v % 0x1_0000)
}

/// `v` written as eight big-endian bytes.
pub open spec fn u64_be(v: int) -> Seq<u8> {
    u32_be(v / 0x1_0000_0000) + u32_be(v % 0x1_0000_0000)
}

/// Reading gives back what was written, wherever in a buffer it stands.
pub proof fn lemma_u16_round_trip(s: Seq<u8>, at: int, v: int)
    requires
        0 <= v < 0x1_0000,
        0 <= at,
        at + 2 <= s.len(),
        s.subrange(at, at + 2) == u16_be(v),
    ensures
        be_u16(s, at) == v,
{
    let w = s.subrange(at, at + 2);
    assert(w[0] == s[at] && w[1] == s[at + 1]);
    assert(u16_be(v)[0] == (v / 0x100) as u8 && u16_be(v)[1] == (v % 0x100) as u8);
}

/// Reading gives back what was written, wherever in a buffer it stands.
pub proof fn lemma_u32_round_trip(s: Seq<u8>, at: int, v: int)
    requires
        0 <= v < 0x1_0000_0000,
        0 <= at,
        at + 4 <= s.len(),
        s.subrange(at, at + 4) == u32_be(v),
    ensures
        be_u32(s, at) == v,
{
    let w = s.subrange(at, at + 4);
    assert(w.subrange(0, 2) == u16_be(v / 0x1_0000));
    assert(w.subrange(2, 4) == u16_be(v % 0x1_0000));
    assert(s.subrange(at, at + 2) == w.subrange(0, 2));
    assert(s.subrange(at + 2, at + 4) == w.subrange(2, 4));
    lemma_u16_round_trip(s, at, v / 0x1_0000);
    lemma_u16_round_trip(s, at + 2, v % 0x1_0000);
}

/// Reading gives back what was written, wherever in a buffer it stands.
pub proof fn lemma_u64_round_trip(s: Seq<u8>, at: int, v: int)
    requires
        0 <= v < 0x1_0000_0000_0000_0000,
        0 <= at,
        at + 8 <= s.len(),
        s.subrange(at, at + 8) == u64_be(v),
    ensures
        be_u64(s, at) == v,
{
    let w = s.subrange(at, at + 8);
    assert(w.subrange(0, 4) == u32_be(v / 0x1_0000_0000));
    assert(w.subrange(4, 8) == u32_be(v % 0x1_0000_0000));
    assert(s.subrange(at, at + 4) == w.subrange(0, 4));
    assert(s.subrange(at + 4, at + 8) == w.subrange(4, 8));
    lemma_u32_round_trip(s, at, v / 0x1_0000_0000);
    lemma_u32_round_trip(s, at + 4, v % 0x1_0000_0000);
}

/// Reads a big-endian `u16` at `at`.
pub fn read_u16(buf: &[u8], at: usize) -> (v: u16)
    requires
        at + 2 <= buf.len(),
    ensures
        v as int == be_u16(buf@, at as int),
{
    let hi: u16 = buf[at] as u16;
    let lo: u16 = buf[at + 1] as u16;
    hi * 0x100 + lo
}

/// Reads a big-endian `u32` at `at`.
pub fn read_u32(buf: &[u8], at: usize) -> (v: u32)
    requires
        at + 4 <= buf.len(),
    ensures
        v as int == be_u32(buf@, at as int),
{
    let hi: u32 = read_u16(buf, at) as u32;
    let lo: u32 = read_u16(buf, at + 2) as u32;
    hi * 0x1_0000 + lo
}

/// Reads a big-endian `u64` at `at`.
pub fn read_u64(buf: &[u8], at: usize) -> (v: u64)
    requires
        at + 8 <= buf.len(),
    ensures
        v as int == be_u64(buf@, at as int),
{
    let hi: u64 = read_u32(buf, at) as u64;
    let lo: u64 = read_u32(buf, at + 4) as u64;
    hi * 0x1_0000_0000 + lo
}

/// Appends `v` as two big-endian bytes.
pub fn push_u16(out: &mut Vec<u8>, v: u16)
    ensures
        final(out)@ == old(out)@ + u16_be(v as int),
{
    out.push((v / 0x100) as u8);
    out.push((v % 0x100) as u8);
    assert(final(out)@ =~= old(out)@ + u16_be(v as int));
}

/// Appends `v` as four big-endian bytes.
pub fn push_u32(out: &mut Vec<u8>, v: u32)
    ensures
        final(out)@ == old(out)@ + u32_be(v as int),
{
    push_u16(out, (v / 0x1_0000) as u16);
    push_u16(out, (v % 0x1_0000) as u16);
    assert(final(out)@ =~= old(out)@ + u32_be(v as int));
}

/// Appends `v` as eight big-endian bytes.
pub fn push_u64(out: &mut Vec<u8>, v: u64)
    ensures
        final(out)@ == old(out)@ + u64_be(v as int),
{
    push_u32(out, (v / 0x1_0000_0000) as u32);
    push_u32(out, (v % 0x1_0000_0000) as u32);
    assert(final(out)@ =~= old(out)@ + u64_be(v as int));
}

/// Appends a copy of `src[from..to]`.
pub fn push_range(out: &mut Vec<u8>, src: &[u8], from: usize, to: usize)
    requires
        from <= to <= src.len(),
    ensures
        final(out)@ == old(out)@ + src@.subrange(from as int, to as int),
{
    let mut i: usize = from;
    while i < to
        invariant
            from <= i <= to <= src@.len(),
            out@ == old(out)@ + src@.subrange(from as int, i as int),
        decreases to - i,
    {
        out.push(src[i]);
        i = i + 1;
        assert(out@ =~= old(out)@ + src@.subrange(from as int, i as int));
    }
}

/// Whether two byte strings are the same.
pub fn same_bytes(a: &[u8], b: &[u8]) -> (r: bool)
    ensures
        r == (a@ == b@),
{
    if a.len() != b.len() {
        return false;
    }
    let mut i: usize = 0;
    while i < a.len()
        invariant
            a@.len() == b@.len(),
            i <= a@.len(),
            a@.subrange(0, i as int) == b@.subrange(0, i as int),
        decreases a@.len() - i,
    {
        if a[i] != b[i] {
            return false;
        }
        i = i + 1;
        assert(a@.subrange(0, i as int) =~= a@.subrange(0, i - 1).push(a@[i - 1]));
        assert(b@.subrange(0, i as int) =~= b@.subrange(0, i - 1).push(b@[i - 1]));
    }
    assert(a@ =~= a@.subrange(0, i as int));
    assert(b@ =~= b@.subrange(0, i as int));
    true
}

} // verus!
