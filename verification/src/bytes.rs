//! Byte-string helpers shared by the framing and block code.

use vstd::prelude::*;

verus! {

/// The two bytes of `value`, least significant first.
pub open spec fn u16_le(value: u16) -> Seq<u8> {
    seq![(value % 256) as u8, (value / 256) as u8]
}

/// The number whose two bytes, least significant first, are `low` and `high`.
pub open spec fn u16_from_le(low: u8, high: u8) -> u16 {
    (low + 256 * high) as u16
}

/// The four bytes of `value`, most significant first.
pub open spec fn u32_be(value: u32) -> Seq<u8> {
    seq![
        (value / 16777216) as u8,
        ((value / 65536) % 256) as u8,
        ((value / 256) % 256) as u8,
        (value % 256) as u8,
    ]
}

/// `count` zero bytes.
pub open spec fn zeros(count: int) -> Seq<u8> {
    Seq::new(count as nat, |i: int| 0u8)
}

/// Appends `src` to `dst`.
pub fn append_bytes(dst: &mut Vec<u8>, src: &[u8])
    ensures
        final(dst)@ == old(dst)@ + src@,
{
    let mut i: usize = 0;
    while i < src.len()
        invariant
            i <= src@.len(),
            dst@ == old(dst)@ + src@.subrange(0, i as int),
        decreases src@.len() - i,
    {
        dst.push(src[i]);
        i += 1;
        assert(dst@ =~= old(dst)@ + src@.subrange(0, i as int));
    }
    assert(src@.subrange(0, i as int) =~= src@);
}

/// Appends `count` zero bytes to `dst`.
pub fn append_zeros(dst: &mut Vec<u8>, count: usize)
    ensures
        final(dst)@ == old(dst)@ + zeros(count as int),
{
    let mut i: usize = 0;
    assert(dst@ =~= old(dst)@ + zeros(0));
    while i < count
        invariant
            i <= count,
            dst@ == old(dst)@ + zeros(i as int),
        decreases count - i,
    {
        dst.push(0u8);
        i += 1;
        assert(dst@ =~= old(dst)@ + zeros(i as int));
    }
}

/// Appends the two bytes of `value`, least significant first, to `dst`.
pub fn append_u16_le(dst: &mut Vec<u8>, value: u16)
    ensures
        final(dst)@ == old(dst)@ + u16_le(value),
{
    dst.push((value % 256) as u8);
    dst.push((value / 256) as u8);
    assert(dst@ =~= old(dst)@ + u16_le(value));
}

/// Reads the two bytes at `at` and `at + 1` as a number, least significant first.
pub fn read_u16_le(src: &[u8], at: usize) -> (value: u16)
    requires
        at + 2 <= src@.len(),
    ensures
        value == u16_from_le(src@[at as int], src@[at + 1]),
{
    let low: u16 = src[at] as u16;
    let high: u16 = src[at + 1] as u16;
    low + 256 * high
}

/// A copy of the bytes of `src` from `from` up to, not including, `to`.
pub fn copy_range(src: &[u8], from: usize, to: usize) -> (out: Vec<u8>)
    requires
        from <= to <= src@.len(),
    ensures
        out@ == src@.subrange(from as int, to as int),
{
    let mut out: Vec<u8> = Vec::new();
    let mut i: usize = from;
    while i < to
        invariant
            from <= i <= to <= src@.len(),
            out@ == src@.subrange(from as int, i as int),
        decreases to - i,
    {
        out.push(src[i]);
        i += 1;
        assert(out@ =~= src@.subrange(from as int, i as int));
    }
    out
}

} // verus!
