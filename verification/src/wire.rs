//! Big-endian packing of the fixed-width fields.
//!
//! Every multi-byte integer of the message format is written in network
//! byte order: most significant byte first.

use vstd::prelude::*;

verus! {

/// The two big-endian bytes of a 16-bit value: high byte, then low byte.
pub open spec fn u16_be(x: u16) -> Seq<u8> {
    seq![(x as int / 0x100) as u8, (x as int % 0x100) as u8]
}

/// The four big-endian bytes of a 32-bit value: most significant first.
pub open spec fn u32_be(x: u32) -> Seq<u8> {
    seq![
        (x as int / 0x1000000) as u8,
        (x as int / 0x10000 % 0x100) as u8,
        (x as int / 0x100 % 0x100) as u8,
        (x as int % 0x100) as u8,
    ]
}

/// The 16-bit value that two big-endian bytes stand for.
pub open spec fn u16_of_be(hi: u8, lo: u8) -> u16 {
    (hi * 0x100 + lo) as u16
}

/// The 32-bit value that four big-endian bytes stand for.
pub open spec fn u32_of_be(b0: u8, b1: u8, b2: u8, b3: u8) -> u32 {
    (b0 * 0x1000000 + b1 * 0x10000 + b2 * 0x100 + b3) as u32
}

/// Reading back the two bytes of `u16_be` gives the value they came from.
pub proof fn lemma_u16_be_inverse(x: u16)
    ensures
        u16_of_be(u16_be(x)[0], u16_be(x)[1]) == x,
{
}

/// Reading back the four bytes of `u32_be` gives the value they came from.
pub proof fn lemma_u32_be_inverse(x: u32)
    ensures
        u32_of_be(u32_be(x)[0], u32_be(x)[1], u32_be(x)[2], u32_be(x)[3]) == x,
{
}

/// Append the two big-endian bytes of `x` to `out`.
pub fn push_u16_be(out: &mut Vec<u8>, x: u16)
    ensures
        final(out)@ == old(out)@ + u16_be(x),
{
    out.push((x / 0x100) as u8);
    out.push((x % 0x100) as u8);
    proof {
        assert(out@ =~= old(out)@ + u16_be(x));
    }
}

/// Append the four big-endian bytes of `x` to `out`.
pub fn push_u32_be(out: &mut Vec<u8>, x: u32)
    ensures
        final(out)@ == old(out)@ + u32_be(x),
{
    out.push((x / 0x1000000) as u8);
    out.push((x / 0x10000 % 0x100) as u8);
    out.push((x / 0x100 % 0x100) as u8);
    out.push((x % 0x100) as u8);
    proof {
        assert(out@ =~= old(out)@ + u32_be(x));
    }
}

/// Append a copy of `src` to `out`.
pub fn push_bytes(out: &mut Vec<u8>, src: &Vec<u8>)
    ensures
        final(out)@ == old(out)@ + src@,
{
    let mut i: usize = 0;
    while i < src.len()
        invariant
            i <= src.len(),
            out@ == old(out)@ + src@.subrange(0, i as int),
        decreases src.len() - i,
    {
        out.push(src[i]);
        proof {
            assert(old(out)@ + src@.subrange(0, i as int + 1) =~= (old(out)@ + src@.subrange(
                0,
                i as int,
            )).push(src@[i as int]));
        }
        i = i + 1;
    }
    proof {
        assert(out@ =~= old(out)@ + src@);
    }
}

/// The 16-bit value at position `p` of the buffer, big-endian.
pub fn read_u16_be(b: &[u8], p: usize) -> (x: u16)
    requires
        p + 2 <= b@.len(),
    ensures
        x == u16_of_be(b@[p as int], b@[p as int + 1]),
{
    (b[p] as u16) * 0x100 + (b[p + 1] as u16)
}

/// The 32-bit value at position `p` of the buffer, big-endian.
pub fn read_u32_be(b: &[u8], p: usize) -> (x: u32)
    requires
        p + 4 <= b@.len(),
    ensures
        x == u32_of_be(b@[p as int], b@[p as int + 1], b@[p as int + 2], b@[p as int + 3]),
{
    (b[p] as u32) * 0x1000000 + (b[p + 1] as u32) * 0x10000 + (b[p + 2] as u32) * 0x100 + (b[p
        + 3] as u32)
}

/// A copy of the bytes of `b` from `start` up to `end`.
pub fn bytes_range(b: &[u8], start: usize, end: usize) -> (v: Vec<u8>)
    requires
        start <= end <= b@.len(),
    ensures
        v@ == b@.subrange(start as int, end as int),
{
    let mut v: Vec<u8> = Vec::new();
    let mut i: usize = start;
    while i < end
        invariant
            start <= i <= end <= b@.len(),
            v@ == b@.subrange(start as int, i as int),
        decreases end - i,
    {
        v.push(b[i]);
        proof {
            assert(b@.subrange(start as int, i as int + 1) =~= b@.subrange(
                start as int,
                i as int,
            ).push(b@[i as int]));
        }
        i = i + 1;
    }
    v
}

} // verus!
