//! Little-endian integer fields of the buffer.
use vstd::prelude::*;

verus! {

/// The four bytes of `x`, least significant first.
pub open spec fn u32_le(x: u32) -> Seq<u8> {
    seq![x as u8, (x >> 8u32) as u8, (x >> 16u32) as u8, (x >> 24u32) as u8]
}

/// The eight bytes of `x`, least significant first.
pub open spec fn u64_le(x: u64) -> Seq<u8> {
    seq![
        x as u8,
        (x >> 8u64) as u8,
        (x >> 16u64) as u8,
        (x >> 24u64) as u8,
        (x >> 32u64) as u8,
        (x >> 40u64) as u8,
        (x >> 48u64) as u8,
        (x >> 56u64) as u8,
    ]
}

/// The number whose little-endian bytes are `b0 .. b3`.
pub open spec fn join_u32(b0: u8, b1: u8, b2: u8, b3: u8) -> u32 {
    (b0 as u32) | ((b1 as u32) << 8u32) | ((b2 as u32) << 16u32) | ((b3 as u32) << 24u32)
}

/// The number whose little-endian bytes are `b0 .. b7`.
pub open spec fn join_u64(b0: u8, b1: u8, b2: u8, b3: u8, b4: u8, b5: u8, b6: u8, b7: u8) -> u64 {
    (b0 as u64) | ((b1 as u64) << 8u64) | ((b2 as u64) << 16u64) | ((b3 as u64) << 24u64) | ((
    b4 as u64) << 32u64) | ((b5 as u64) << 40u64) | ((b6 as u64) << 48u64) | ((b7 as u64)
        << 56u64)
}

/// The number that the first four bytes of `b` spell, least significant first.
pub open spec fn le_u32(b: Seq<u8>) -> u32 {
    join_u32(b[0], b[1], b[2], b[3])
}

/// The number that the first eight bytes of `b` spell, least significant first.
pub open spec fn le_u64(b: Seq<u8>) -> u64 {
    join_u64(b[0], b[1], b[2], b[3], b[4], b[5], b[6], b[7])
}

proof fn lemma_join_u32_bytes(b0: u8, b1: u8, b2: u8, b3: u8)
    ensures
        ({
            let x = join_u32(b0, b1, b2, b3);
            x as u8 == b0 && (x >> 8u32) as u8 == b1 && (x >> 16u32) as u8 == b2 && (x >> 24u32)
                as u8 == b3
        }),
{
    assert(({
        let x = (b0 as u32) | ((b1 as u32) << 8u32) | ((b2 as u32) << 16u32) | ((b3 as u32)
            << 24u32);
        x as u8 == b0 && (x >> 8u32) as u8 == b1 && (x >> 16u32) as u8 == b2 && (x >> 24u32)
            as u8 == b3
    })) by (bit_vector);
}

proof fn lemma_split_u32(x: u32)
    ensures
        join_u32(x as u8, (x >> 8u32) as u8, (x >> 16u32) as u8, (x >> 24u32) as u8) == x,
{
    assert(((x as u8) as u32) | ((((x >> 8u32) as u8) as u32) << 8u32) | ((((x >> 16u32) as u8)
        as u32) << 16u32) | ((((x >> 24u32) as u8) as u32) << 24u32) == x) by (bit_vector);
}

proof fn lemma_join_u64_bytes(b0: u8, b1: u8, b2: u8, b3: u8, b4: u8, b5: u8, b6: u8, b7: u8)
    ensures
        ({
            let x = join_u64(b0, b1, b2, b3, b4, b5, b6, b7);
            x as u8 == b0 && (x >> 8u64) as u8 == b1 && (x >> 16u64) as u8 == b2 && (x >> 24u64)
                as u8 == b3 && (x >> 32u64) as u8 == b4 && (x >> 40u64) as u8 == b5 && (x
                >> 48u64) as u8 == b6 && (x >> 56u64) as u8 == b7
        }),
{
    assert(({
        let x = (b0 as u64) | ((b1 as u64) << 8u64) | ((b2 as u64) << 16u64) | ((b3 as u64)
            << 24u64) | ((b4 as u64) << 32u64) | ((b5 as u64) << 40u64) | ((b6 as u64) << 48u64)
            | ((b7 as u64) << 56u64);
        x as u8 == b0 && (x >> 8u64) as u8 == b1 && (x >> 16u64) as u8 == b2 && (x >> 24u64)
            as u8 == b3 && (x >> 32u64) as u8 == b4 && (x >> 40u64) as u8 == b5 && (x >> 48u64)
            as u8 == b6 && (x >> 56u64) as u8 == b7
    })) by (bit_vector);
}

proof fn lemma_split_u64(x: u64)
    ensures
        join_u64(
            x as u8,
            (x >> 8u64) as u8,
            (x >> 16u64) as u8,
            (x >> 24u64) as u8,
            (x >> 32u64) as u8,
            (x >> 40u64) as u8,
            (x >> 48u64) as u8,
            (x >> 56u64) as u8,
        ) == x,
{
    assert(((x as u8) as u64) | ((((x >> 8u64) as u8) as u64) << 8u64) | ((((x >> 16u64) as u8)
        as u64) << 16u64) | ((((x >> 24u64) as u8) as u64) << 24u64) | ((((x >> 32u64) as u8)
        as u64) << 32u64) | ((((x >> 40u64) as u8) as u64) << 40u64) | ((((x >> 48u64) as u8)
        as u64) << 48u64) | ((((x >> 56u64) as u8) as u64) << 56u64) == x) by (bit_vector);
}

/// Reading back the bytes of a number gives the number.
pub proof fn lemma_u32_le_round_trip(x: u32)
    ensures
        le_u32(u32_le(x)) == x,
        u32_le(x).len() == 4,
{
    lemma_split_u32(x);
}

/// Reading back the bytes of a number gives the number.
pub proof fn lemma_u64_le_round_trip(x: u64)
    ensures
        le_u64(u64_le(x)) == x,
        u64_le(x).len() == 8,
{
    lemma_split_u64(x);
}

/// Four bytes are the bytes of the number they spell.
pub proof fn lemma_le_u32_bytes(b: Seq<u8>)
    requires
        b.len() == 4,
    ensures
        u32_le(le_u32(b)) == b,
{
    lemma_join_u32_bytes(b[0], b[1], b[2], b[3]);
    assert(u32_le(le_u32(b)) =~= b);
}

/// Eight bytes are the bytes of the number they spell.
pub proof fn lemma_le_u64_bytes(b: Seq<u8>)
    requires
        b.len() == 8,
    ensures
        u64_le(le_u64(b)) == b,
{
    lemma_join_u64_bytes(b[0], b[1], b[2], b[3], b[4], b[5], b[6], b[7]);
    assert(u64_le(le_u64(b)) =~= b);
}

/// Appends the little-endian bytes of `x`.
pub fn push_u32_le(buf: &mut Vec<u8>, x: u32)
    ensures
        final(buf)@ == old(buf)@ + u32_le(x),
{
    buf.push(x as u8);
    buf.push((x >> 8u32) as u8);
    buf.push((x >> 16u32) as u8);
    buf.push((x >> 24u32) as u8);
    assert(final(buf)@ =~= old(buf)@ + u32_le(x));
}

/// Appends the little-endian bytes of `x`.
pub fn push_u64_le(buf: &mut Vec<u8>, x: u64)
    ensures
        final(buf)@ == old(buf)@ + u64_le(x),
{
    buf.push(x as u8);
    buf.push((x >> 8u64) as u8);
    buf.push((x >> 16u64) as u8);
    buf.push((x >> 24u64) as u8);
    buf.push((x >> 32u64) as u8);
    buf.push((x >> 40u64) as u8);
    buf.push((x >> 48u64) as u8);
    buf.push((x >> 56u64) as u8);
    assert(final(buf)@ =~= old(buf)@ + u64_le(x));
}

/// The number spelled by the four bytes of `buf` from `pos` on.
pub fn read_u32_le(buf: &[u8], pos: usize) -> (r: u32)
    requires
        pos + 4 <= buf@.len(),
    ensures
        r == le_u32(buf@.subrange(pos as int, pos + 4)),
{
    (buf[pos] as u32) | ((buf[pos + 1] as u32) << 8u32) | ((buf[pos + 2] as u32) << 16u32) | ((
    buf[pos + 3] as u32) << 24u32)
}

/// The number spelled by the eight bytes of `buf` from `pos` on.
pub fn read_u64_le(buf: &[u8], pos: usize) -> (r: u64)
    requires
        pos + 8 <= buf@.len(),
    ensures
        r == le_u64(buf@.subrange(pos as int, pos + 8)),
{
    (buf[pos] as u64) | ((buf[pos + 1] as u64) << 8u64) | ((buf[pos + 2] as u64) << 16u64) | ((
    buf[pos + 3] as u64) << 24u64) | ((buf[pos + 4] as u64) << 32u64) | ((buf[pos + 5] as u64)
        << 40u64) | ((buf[pos + 6] as u64) << 48u64) | ((buf[pos + 7] as u64) << 56u64)
}

} // verus!
