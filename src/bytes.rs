//! Big-endian encoding of 32-bit integers, as used by PNG length and
//! checksum fields.

use vstd::prelude::*;

verus! {

/// The unsigned value of four bytes read in big-endian order.
pub open spec fn be_u32(b: Seq<u8>) -> u32
    recommends
        b.len() == 4,
{
    (b[0] as int * 0x1000000 + b[1] as int * 0x10000 + b[2] as int * 0x100 + b[3] as int) as u32
}

/// The four big-endian bytes of `v`.
pub open spec fn u32_be(v: u32) -> Seq<u8> {
    seq![(v / 0x1000000) as u8, ((v / 0x10000) % 0x100) as u8, ((v / 0x100) % 0x100) as u8, (v % 0x100) as u8]
}

/// Reading back the bytes of a value gives the value.
pub proof fn lemma_be_u32_of_u32_be(v: u32)
    ensures
        be_u32(u32_be(v)) == v,
{
    let b = u32_be(v);
    assert(b[0] as int * 0x1000000 + b[1] as int * 0x10000 + b[2] as int * 0x100 + b[3] as int == v) by {
        assert(((v / 0x1000000) as u8) as int == v / 0x1000000);
        assert(((v / 0x10000) % 0x100) as u8 as int == (v / 0x10000) % 0x100);
        assert(((v / 0x100) % 0x100) as u8 as int == (v / 0x100) % 0x100);
        assert((v % 0x100) as u8 as int == v % 0x100);
        assert((v / 0x1000000) * 0x1000000 + ((v / 0x10000) % 0x100) * 0x10000 + ((v / 0x100) % 0x100)
            * 0x100 + v % 0x100 == v) by (nonlinear_arith);
    }
}

/// Decodes four big-endian bytes.
pub fn bytes_to_u32(bytes: [u8; 4]) -> (r: u32)
    ensures
        r == be_u32(bytes@),
{
    let (b0, b1, b2, b3) = (bytes[0], bytes[1], bytes[2], bytes[3]);
    let r = (b3 as u32) | ((b2 as u32) << 8) | ((b1 as u32) << 16) | ((b0 as u32) << 24);
    assert(r == b0 as u32 * 0x1000000 + b1 as u32 * 0x10000 + b2 as u32 * 0x100 + b3 as u32)
        by (bit_vector)
        requires
            r == (b3 as u32) | ((b2 as u32) << 8) | ((b1 as u32) << 16) | ((b0 as u32) << 24),
    ;
    r
}

/// Encodes `v` as four big-endian bytes.
pub fn u32_to_bytes(v: u32) -> (r: [u8; 4])
    ensures
        r@ == u32_be(v),
{
    let b0 = (v >> 24) as u8;
    let b1 = (v >> 16) as u8;
    let b2 = (v >> 8) as u8;
    let b3 = v as u8;
    assert(b0 == (v / 0x1000000) as u8 && b1 == ((v / 0x10000) % 0x100) as u8 && b2 == ((v / 0x100)
        % 0x100) as u8 && b3 == (v % 0x100) as u8) by (bit_vector)
        requires
            b0 == (v >> 24) as u8,
            b1 == (v >> 16) as u8,
            b2 == (v >> 8) as u8,
            b3 == v as u8,
    ;
    let r = [b0, b1, b2, b3];
    assert(r@ =~= u32_be(v));
    r
}

/// Writing out the value of four bytes gives the bytes back.
pub proof fn lemma_u32_be_of_be_u32(b: Seq<u8>)
    requires
        b.len() == 4,
    ensures
        u32_be(be_u32(b)) == b,
{
    let (b0, b1, b2, b3) = (b[0], b[1], b[2], b[3]);
    let v = be_u32(b);
    assert(v == b0 as u32 * 0x1000000 + b1 as u32 * 0x10000 + b2 as u32 * 0x100 + b3 as u32);
    assert((v / 0x1000000) as u8 == b0 && ((v / 0x10000) % 0x100) as u8 == b1 && ((v / 0x100)
        % 0x100) as u8 == b2 && (v % 0x100) as u8 == b3) by (bit_vector)
        requires
            v == b0 as u32 * 0x1000000 + b1 as u32 * 0x10000 + b2 as u32 * 0x100 + b3 as u32,
    ;
    assert(u32_be(v) =~= b);
}

} // verus!
