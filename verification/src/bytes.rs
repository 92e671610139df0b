//! Big-endian 32-bit length prefixes.
//!
//! Every frame of the wire protocol starts with the length of its body as a
//! 32-bit unsigned integer in big-endian byte order. This module defines that
//! encoding once, in both directions, and proves the two directions inverse.

use vstd::prelude::*;

verus! {

/// The four big-endian bytes of a 32-bit unsigned integer.
pub open spec fn be32_bytes(n: u32) -> Seq<u8> {
    seq![
        (n >> 24) as u8,
        ((n >> 16) & 0xff) as u8,
        ((n >> 8) & 0xff) as u8,
        (n & 0xff) as u8,
    ]
}

/// The 32-bit unsigned integer that four big-endian bytes denote.
pub open spec fn u32_of_be(b: Seq<u8>) -> u32
    recommends
        b.len() == 4,
{
    (((b[0] as u32) << 24) | ((b[1] as u32) << 16) | ((b[2] as u32) << 8) | (b[3] as u32)) as u32
}

/// Reading back the four bytes of `n` gives `n`.
pub proof fn lemma_be32_round_trip(n: u32)
    ensures
        u32_of_be(be32_bytes(n)) == n,
{
    assert((((((n >> 24) as u8) as u32) << 24) | (((((n >> 16) & 0xff) as u8) as u32) << 16) | ((((
    (n >> 8) & 0xff) as u8) as u32) << 8) | (((n & 0xff) as u8) as u32)) as u32 == n)
        by (bit_vector);
}

/// Four bytes are exactly the big-endian form of the integer they denote.
pub proof fn lemma_u32_of_be_round_trip(b: Seq<u8>)
    requires
        b.len() == 4,
    ensures
        be32_bytes(u32_of_be(b)) == b,
{
    let b0 = b[0];
    let b1 = b[1];
    let b2 = b[2];
    let b3 = b[3];
    let n = ((((b0 as u32) << 24) | ((b1 as u32) << 16) | ((b2 as u32) << 8) | (b3 as u32))) as u32;
    assert((n >> 24) as u8 == b0) by (bit_vector)
        requires
            n == ((((b0 as u32) << 24) | ((b1 as u32) << 16) | ((b2 as u32) << 8) | (b3 as u32)))
                as u32,
    ;
    assert(((n >> 16) & 0xff) as u8 == b1) by (bit_vector)
        requires
            n == ((((b0 as u32) << 24) | ((b1 as u32) << 16) | ((b2 as u32) << 8) | (b3 as u32)))
                as u32,
    ;
    assert(((n >> 8) & 0xff) as u8 == b2) by (bit_vector)
        requires
            n == ((((b0 as u32) << 24) | ((b1 as u32) << 16) | ((b2 as u32) << 8) | (b3 as u32)))
                as u32,
    ;
    assert((n & 0xff) as u8 == b3) by (bit_vector)
        requires
            n == ((((b0 as u32) << 24) | ((b1 as u32) << 16) | ((b2 as u32) << 8) | (b3 as u32)))
                as u32,
    ;
    assert(be32_bytes(u32_of_be(b)) =~= b);
}

/// Write `n` as its four big-endian bytes.
pub fn u32_to_be(n: u32) -> (r: Vec<u8>)
    ensures
        r@ == be32_bytes(n),
{
    assert(n >> 24 <= 0xff) by (bit_vector);
    assert((n >> 16) & 0xff <= 0xff) by (bit_vector);
    assert((n >> 8) & 0xff <= 0xff) by (bit_vector);
    assert(n & 0xff <= 0xff) by (bit_vector);
    let mut r: Vec<u8> = Vec::new();
    r.push((n >> 24) as u8);
    r.push(((n >> 16) & 0xff) as u8);
    r.push(((n >> 8) & 0xff) as u8);
    r.push((n & 0xff) as u8);
    proof {
        assert(r@ =~= be32_bytes(n));
    }
    r
}

/// Read the 32-bit unsigned integer from exactly four big-endian bytes.
pub fn u32_from_be(b: &[u8]) -> (r: u32)
    requires
        b@.len() == 4,
    ensures
        r == u32_of_be(b@),
{
    ((b[0] as u32) << 24u32) | ((b[1] as u32) << 16u32) | ((b[2] as u32) << 8u32) | (b[3] as u32)
}

} // verus!
