//! Little-endian integers in byte sequences, as the on-disk and in-memory
//! binary formats store them.
use vstd::prelude::*;

verus! {

/// The two bytes of `x`, least significant first.
pub open spec fn le16(x: u16) -> Seq<u8> {
    seq![(x & 0xff) as u8, (x >> 8u16) as u8]
}

/// The four bytes of `x`, least significant first.
pub open spec fn le32(x: u32) -> Seq<u8> {
    seq![(x & 0xff) as u8, ((x >> 8u32) & 0xff) as u8, ((x >> 16u32) & 0xff) as u8, (x >> 24u32) as u8]
}

/// The eight bytes of `x`, least significant first.
pub open spec fn le64(x: u64) -> Seq<u8> {
    le32((x & 0xffff_ffff) as u32) + le32((x >> 32u64) as u32)
}

/// The `u16` stored at offset `o`.
pub open spec fn get16(b: Seq<u8>, o: int) -> u16 {
    (b[o] as u16) | ((b[o + 1] as u16) << 8u16)
}

/// The `u32` stored at offset `o`.
pub open spec fn get32(b: Seq<u8>, o: int) -> u32 {
    (b[o] as u32) | ((b[o + 1] as u32) << 8u32) | ((b[o + 2] as u32) << 16u32) | ((b[o + 3] as u32) << 24u32)
}

/// The `u64` stored at offset `o`.
pub open spec fn get64(b: Seq<u8>, o: int) -> u64 {
    (get32(b, o) as u64) | ((get32(b, o + 4) as u64) << 32u64)
}

proof fn lemma16(x: u16)
    ensures
        (((x & 0xff) as u8) as u16) | ((((x >> 8u16) as u8) as u16) << 8u16) == x,
{
    assert((((x & 0xff) as u8) as u16) | ((((x >> 8u16) as u8) as u16) << 8u16) == x) by (bit_vector);
}

proof fn lemma32(x: u32)
    ensures
        (((x & 0xff) as u8) as u32) | (((((x >> 8u32) & 0xff) as u8) as u32) << 8u32)
            | (((((x >> 16u32) & 0xff) as u8) as u32) << 16u32) | ((((x >> 24u32) as u8) as u32) << 24u32) == x,
{
    assert((((x & 0xff) as u8) as u32) | (((((x >> 8u32) & 0xff) as u8) as u32) << 8u32)
        | (((((x >> 16u32) & 0xff) as u8) as u32) << 16u32) | ((((x >> 24u32) as u8) as u32) << 24u32) == x)
        by (bit_vector);
}

proof fn lemma64(x: u64)
    ensures
        (((x & 0xffff_ffff) as u32) as u64) | ((((x >> 32u64) as u32) as u64) << 32u64) == x,
{
    assert((((x & 0xffff_ffff) as u32) as u64) | ((((x >> 32u64) as u32) as u64) << 32u64) == x) by (bit_vector);
}

/// Reading back a stored `u16` gives it.
pub proof fn lemma_get16(b: Seq<u8>, o: int, x: u16)
    requires
        0 <= o,
        o + 2 <= b.len(),
        b.subrange(o, o + 2) == le16(x),
    ensures
        get16(b, o) == x,
{
    assert(b[o] == b.subrange(o, o + 2)[0]);
    assert(b[o + 1] == b.subrange(o, o + 2)[1]);
    lemma16(x);
}

/// Reading back a stored `u32` gives it.
pub proof fn lemma_get32(b: Seq<u8>, o: int, x: u32)
    requires
        0 <= o,
        o + 4 <= b.len(),
        b.subrange(o, o + 4) == le32(x),
    ensures
        get32(b, o) == x,
{
    assert(b[o] == b.subrange(o, o + 4)[0]);
    assert(b[o + 1] == b.subrange(o, o + 4)[1]);
    assert(b[o + 2] == b.subrange(o, o + 4)[2]);
    assert(b[o + 3] == b.subrange(o, o + 4)[3]);
    lemma32(x);
}

/// Reading back a stored `u64` gives it.
pub proof fn lemma_get64(b: Seq<u8>, o: int, x: u64)
    requires
        0 <= o,
        o + 8 <= b.len(),
        b.subrange(o, o + 8) == le64(x),
    ensures
        get64(b, o) == x,
{
    assert(b.subrange(o, o + 4) =~= le32((x & 0xffff_ffff) as u32)) by {
        assert forall|i: int| 0 <= i < 4 implies #[trigger] b.subrange(o, o + 4)[i] == le32((x & 0xffff_ffff) as u32)[i] by {
            assert(b.subrange(o, o + 4)[i] == b.subrange(o, o + 8)[i]);
        }
    }
    assert(b.subrange(o + 4, o + 8) =~= le32((x >> 32u64) as u32)) by {
        assert forall|i: int| 0 <= i < 4 implies #[trigger] b.subrange(o + 4, o + 8)[i] == le32((x >> 32u64) as u32)[i] by {
            assert(b.subrange(o + 4, o + 8)[i] == b.subrange(o, o + 8)[i + 4]);
        }
    }
    lemma_get32(b, o, (x & 0xffff_ffff) as u32);
    lemma_get32(b, o + 4, (x >> 32u64) as u32);
    lemma64(x);
}

pub fn push16(v: &mut Vec<u8>, x: u16)
    ensures
        final(v)@ == old(v)@ + le16(x),
{
    v.push((x & 0xff) as u8);
    v.push((x >> 8) as u8);
    assert(final(v)@ =~= old(v)@ + le16(x));
}

pub fn push32(v: &mut Vec<u8>, x: u32)
    ensures
        final(v)@ == old(v)@ + le32(x),
{
    v.push((x & 0xff) as u8);
    v.push(((x >> 8) & 0xff) as u8);
    v.push(((x >> 16) & 0xff) as u8);
    v.push((x >> 24) as u8);
    assert(final(v)@ =~= old(v)@ + le32(x));
}

pub fn push64(v: &mut Vec<u8>, x: u64)
    ensures
        final(v)@ == old(v)@ + le64(x),
{
    push32(v, (x & 0xffff_ffff) as u32);
    push32(v, (x >> 32) as u32);
    assert(final(v)@ =~= old(v)@ + le64(x));
}

/// Appends `n` zero bytes.
pub fn push_zeros(v: &mut Vec<u8>, n: usize)
    ensures
        final(v)@ == old(v)@ + Seq::new(n as nat, |i: int| 0u8),
{
    let mut i: usize = 0;
    while i < n
        invariant
            i <= n,
            v@ == old(v)@ + Seq::new(i as nat, |k: int| 0u8),
        decreases n - i,
    {
        v.push(0u8);
        i = i + 1;
        assert(v@ =~= old(v)@ + Seq::new(i as nat, |k: int| 0u8));
    }
}

pub fn read16(b: &[u8], o: usize) -> (r: u16)
    requires
        o + 2 <= b@.len(),
    ensures
        r == get16(b@, o as int),
{
    (b[o] as u16) | ((b[o + 1] as u16) << 8)
}

pub fn read32(b: &[u8], o: usize) -> (r: u32)
    requires
        o + 4 <= b@.len(),
    ensures
        r == get32(b@, o as int),
{
    (b[o] as u32) | ((b[o + 1] as u32) << 8) | ((b[o + 2] as u32) << 16) | ((b[o + 3] as u32) << 24)
}

pub fn read64(b: &[u8], o: usize) -> (r: u64)
    requires
        o + 8 <= b@.len(),
    ensures
        r == get64(b@, o as int),
{
    let len = b.len();
    assert(o + 8 <= len);
    (read32(b, o) as u64) | ((read32(b, o + 4) as u64) << 32)
}

} // verus!
