//! Little- and big-endian byte encodings of fixed-width integers.

use vstd::prelude::*;

verus! {

/// The four bytes of `x`, least significant first.
pub open spec fn le_u32(x: u32) -> Seq<u8> {
    seq![x as u8, (x >> 8u32) as u8, (x >> 16u32) as u8, (x >> 24u32) as u8]
}

/// The four bytes of `x`, most significant first.
pub open spec fn be_u32(x: u32) -> Seq<u8> {
    seq![(x >> 24u32) as u8, (x >> 16u32) as u8, (x >> 8u32) as u8, x as u8]
}

/// The two bytes of `x`, most significant first.
pub open spec fn be_u16(x: u16) -> Seq<u8> {
    seq![(x >> 8u16) as u8, x as u8]
}

/// The eight bytes of `x`, least significant first.
pub open spec fn le_u64(x: u64) -> Seq<u8> {
    seq![
        x as u8,
        (x >> 8u64) as u8,
        (x >> 16u64) as u8,
        (x >> 24u64) as u8,
        (x >> 32u64) as u8,
        (x >> 40u64) as u8,
        (x >> 48u64) as u8,
        (x >> 56u64) as u8,
    ]
}

/// The two bytes of the two's-complement form of `x`, least significant first.
pub open spec fn le_i16(x: i16) -> Seq<u8> {
    seq![(x as u16) as u8, ((x as u16) >> 8u16) as u8]
}

/// The value of four bytes read least significant first.
pub open spec fn u32_of_le(b0: u8, b1: u8, b2: u8, b3: u8) -> u32 {
    (b0 as u32) | ((b1 as u32) << 8u32) | ((b2 as u32) << 16u32) | ((b3 as u32) << 24u32)
}

/// The value of four bytes read most significant first.
pub open spec fn u32_of_be(b0: u8, b1: u8, b2: u8, b3: u8) -> u32 {
    ((b0 as u32) << 24u32) | ((b1 as u32) << 16u32) | ((b2 as u32) << 8u32) | (b3 as u32)
}

/// The value of eight bytes read least significant first.
pub open spec fn u64_of_le(b: Seq<u8>) -> u64
    recommends
        b.len() == 8,
{
    (b[0] as u64) | ((b[1] as u64) << 8u64) | ((b[2] as u64) << 16u64) | ((b[3] as u64) << 24u64)
        | ((b[4] as u64) << 32u64) | ((b[5] as u64) << 40u64) | ((b[6] as u64) << 48u64) | ((
    b[7] as u64) << 56u64)
}

/// The two's-complement value of two bytes read least significant first.
pub open spec fn i16_of_le(b0: u8, b1: u8) -> i16 {
    ((b0 as u16) | ((b1 as u16) << 8u16)) as i16
}

pub fn push_le_u32(out: &mut Vec<u8>, x: u32)
    ensures
        final(out)@ == old(out)@ + le_u32(x),
{
    out.push((x & 0xff) as u8);
    out.push(((x >> 8u32) & 0xff) as u8);
    out.push(((x >> 16u32) & 0xff) as u8);
    out.push(((x >> 24u32) & 0xff) as u8);
    assert(((x & 0xff) as u8) == (x as u8)) by (bit_vector);
    assert((((x >> 8u32) & 0xff) as u8) == ((x >> 8u32) as u8)) by (bit_vector);
    assert((((x >> 16u32) & 0xff) as u8) == ((x >> 16u32) as u8)) by (bit_vector);
    assert((((x >> 24u32) & 0xff) as u8) == ((x >> 24u32) as u8)) by (bit_vector);
    assert(final(out)@ =~= old(out)@ + le_u32(x));
}

pub fn push_be_u32(out: &mut Vec<u8>, x: u32)
    ensures
        final(out)@ == old(out)@ + be_u32(x),
{
    out.push(((x >> 24u32) & 0xff) as u8);
    out.push(((x >> 16u32) & 0xff) as u8);
    out.push(((x >> 8u32) & 0xff) as u8);
    out.push((x & 0xff) as u8);
    assert(((x & 0xff) as u8) == (x as u8)) by (bit_vector);
    assert((((x >> 8u32) & 0xff) as u8) == ((x >> 8u32) as u8)) by (bit_vector);
    assert((((x >> 16u32) & 0xff) as u8) == ((x >> 16u32) as u8)) by (bit_vector);
    assert((((x >> 24u32) & 0xff) as u8) == ((x >> 24u32) as u8)) by (bit_vector);
    assert(final(out)@ =~= old(out)@ + be_u32(x));
}

pub fn push_be_u16(out: &mut Vec<u8>, x: u16)
    ensures
        final(out)@ == old(out)@ + be_u16(x),
{
    out.push(((x >> 8u16) & 0xff) as u8);
    out.push((x & 0xff) as u8);
    assert(((x & 0xff) as u8) == (x as u8)) by (bit_vector);
    assert((((x >> 8u16) & 0xff) as u8) == ((x >> 8u16) as u8)) by (bit_vector);
    assert(final(out)@ =~= old(out)@ + be_u16(x));
}

pub fn push_le_u64(out: &mut Vec<u8>, x: u64)
    ensures
        final(out)@ == old(out)@ + le_u64(x),
{
    let mut k: u64 = 0;
    let ghost start = out@;
    while k < 8
        invariant
            k <= 8,
            out@.len() == start.len() + k,
            forall|j: int| 0 <= j < start.len() ==> out@[j] == start[j],
            forall|j: int| 0 <= j < k ==> out@[start.len() + j] == le_u64(x)[j],
        decreases 8 - k,
    {
        let b = ((x >> (8 * k)) & 0xff) as u8;
        assert(((x >> (8 * k)) & 0xff) as u8 == (x >> (8 * k)) as u8) by (bit_vector);
        assert(b == le_u64(x)[k as int]) by {
            if k == 0 {
                assert(x >> 0u64 == x) by (bit_vector);
            }
        }
        out.push(b);
        k = k + 1;
    }
    assert(out@ =~= start + le_u64(x));
}

pub fn push_le_i16(out: &mut Vec<u8>, x: i16)
    ensures
        final(out)@ == old(out)@ + le_i16(x),
{
    let u = x as u16;
    out.push((u & 0xff) as u8);
    out.push(((u >> 8u16) & 0xff) as u8);
    assert(((u & 0xff) as u8) == (u as u8)) by (bit_vector);
    assert((((u >> 8u16) & 0xff) as u8) == ((u >> 8u16) as u8)) by (bit_vector);
    assert(final(out)@ =~= old(out)@ + le_i16(x));
}

pub fn push_all(out: &mut Vec<u8>, b: &[u8])
    ensures
        final(out)@ == old(out)@ + b@,
{
    let ghost start = out@;
    let mut i: usize = 0;
    while i < b.len()
        invariant
            i <= b@.len(),
            out@ == start + b@.subrange(0, i as int),
        decreases b@.len() - i,
    {
        out.push(b[i]);
        i = i + 1;
        assert(out@ =~= start + b@.subrange(0, i as int));
    }
    assert(b@.subrange(0, b@.len() as int) =~= b@);
}

pub fn read_le_u32(b: &[u8], off: usize) -> (r: u32)
    requires
        off + 4 <= b@.len(),
    ensures
        r == u32_of_le(b@[off as int], b@[off + 1], b@[off + 2], b@[off + 3]),
{
    (b[off] as u32) | ((b[off + 1] as u32) << 8u32) | ((b[off + 2] as u32) << 16u32) | ((b[off
        + 3] as u32) << 24u32)
}

pub fn read_be_u32(b: &[u8], off: usize) -> (r: u32)
    requires
        off + 4 <= b@.len(),
    ensures
        r == u32_of_be(b@[off as int], b@[off + 1], b@[off + 2], b@[off + 3]),
{
    ((b[off] as u32) << 24u32) | ((b[off + 1] as u32) << 16u32) | ((b[off + 2] as u32) << 8u32)
        | (b[off + 3] as u32)
}

pub fn read_le_u64(b: &[u8], off: usize) -> (r: u64)
    requires
        off + 8 <= b@.len(),
    ensures
        r == u64_of_le(b@.subrange(off as int, off + 8)),
{
    (b[off] as u64) | ((b[off + 1] as u64) << 8u64) | ((b[off + 2] as u64) << 16u64) | ((b[off
        + 3] as u64) << 24u64) | ((b[off + 4] as u64) << 32u64) | ((b[off + 5] as u64) << 40u64)
        | ((b[off + 6] as u64) << 48u64) | ((b[off + 7] as u64) << 56u64)
}

pub fn read_le_i16(b: &[u8], off: usize) -> (r: i16)
    requires
        off + 2 <= b@.len(),
    ensures
        r == i16_of_le(b@[off as int], b@[off + 1]),
{
    ((b[off] as u16) | ((b[off + 1] as u16) << 8u16)) as i16
}

pub proof fn lemma_le_u32_round_trip(x: u32)
    ensures
        u32_of_le(le_u32(x)[0], le_u32(x)[1], le_u32(x)[2], le_u32(x)[3]) == x,
{
    assert((x as u8 as u32) | (((x >> 8u32) as u8 as u32) << 8u32) | (((x >> 16u32) as u8 as u32)
        << 16u32) | (((x >> 24u32) as u8 as u32) << 24u32) == x) by (bit_vector);
}

pub proof fn lemma_be_u32_round_trip(x: u32)
    ensures
        u32_of_be(be_u32(x)[0], be_u32(x)[1], be_u32(x)[2], be_u32(x)[3]) == x,
{
    assert((((x >> 24u32) as u8 as u32) << 24u32) | (((x >> 16u32) as u8 as u32) << 16u32) | (((x
        >> 8u32) as u8 as u32) << 8u32) | (x as u8 as u32) == x) by (bit_vector);
}

pub proof fn lemma_le_u64_round_trip(x: u64)
    ensures
        u64_of_le(le_u64(x)) == x,
{
    assert((x as u8 as u64) | (((x >> 8u64) as u8 as u64) << 8u64) | (((x >> 16u64) as u8 as u64)
        << 16u64) | (((x >> 24u64) as u8 as u64) << 24u64) | (((x >> 32u64) as u8 as u64)
        << 32u64) | (((x >> 40u64) as u8 as u64) << 40u64) | (((x >> 48u64) as u8 as u64)
        << 48u64) | (((x >> 56u64) as u8 as u64) << 56u64) == x) by (bit_vector);
}

pub proof fn lemma_le_i16_round_trip(x: i16)
    ensures
        i16_of_le(le_i16(x)[0], le_i16(x)[1]) == x,
{
    let u = x as u16;
    assert((u as u8 as u16) | (((u >> 8u16) as u8 as u16) << 8u16) == u) by (bit_vector);
    assert((x as u16) as i16 == x) by (bit_vector);
}

} // verus!
