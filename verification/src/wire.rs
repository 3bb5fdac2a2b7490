//! Byte-level primitives of the wire format: 64-bit values as little-endian
//! bytes, and the bit pattern that carries a signed coordinate.

use vstd::prelude::*;

verus! {

/// The eight little-endian bytes of a 64-bit value.
pub open spec fn u64_le_bytes(v: u64) -> Seq<u8> {
    seq![
        (v & 0xff) as u8,
        ((v >> 8) & 0xff) as u8,
        ((v >> 16) & 0xff) as u8,
        ((v >> 24) & 0xff) as u8,
        ((v >> 32) & 0xff) as u8,
        ((v >> 40) & 0xff) as u8,
        ((v >> 48) & 0xff) as u8,
        ((v >> 56) & 0xff) as u8,
    ]
}

/// The 64-bit value that eight little-endian bytes denote.
pub open spec fn u64_from_le(b: Seq<u8>) -> u64
    recommends
        b.len() == 8,
{
    (b[0] as u64) | ((b[1] as u64) << 8) | ((b[2] as u64) << 16) | ((b[3] as u64) << 24)
        | ((b[4] as u64) << 32) | ((b[5] as u64) << 40) | ((b[6] as u64) << 48)
        | ((b[7] as u64) << 56)
}

/// Reading back the eight bytes of a value yields the value.
pub proof fn lemma_u64_le_roundtrip(v: u64)
    ensures
        u64_from_le(u64_le_bytes(v)) == v,
{
    let b = u64_le_bytes(v);
    assert(((v & 0xff) as u64) | ((((v >> 8) & 0xff) as u64) << 8)
        | ((((v >> 16) & 0xff) as u64) << 16) | ((((v >> 24) & 0xff) as u64) << 24)
        | ((((v >> 32) & 0xff) as u64) << 32) | ((((v >> 40) & 0xff) as u64) << 40)
        | ((((v >> 48) & 0xff) as u64) << 48) | ((((v >> 56) & 0xff) as u64) << 56) == v)
        by (bit_vector);
    assert(b[0] == (v & 0xff) as u8);
    assert((b[0] as u64) == ((v & 0xff) as u8) as u64);
    assert(((v & 0xff) as u8) as u64 == (v & 0xff) as u64) by (bit_vector);
    assert(((v >> 8) & 0xff) as u8 as u64 == ((v >> 8) & 0xff) as u64) by (bit_vector);
    assert(((v >> 16) & 0xff) as u8 as u64 == ((v >> 16) & 0xff) as u64) by (bit_vector);
    assert(((v >> 24) & 0xff) as u8 as u64 == ((v >> 24) & 0xff) as u64) by (bit_vector);
    assert(((v >> 32) & 0xff) as u8 as u64 == ((v >> 32) & 0xff) as u64) by (bit_vector);
    assert(((v >> 40) & 0xff) as u8 as u64 == ((v >> 40) & 0xff) as u64) by (bit_vector);
    assert(((v >> 48) & 0xff) as u8 as u64 == ((v >> 48) & 0xff) as u64) by (bit_vector);
    assert(((v >> 56) & 0xff) as u8 as u64 == ((v >> 56) & 0xff) as u64) by (bit_vector);
}

/// Any eight bytes are the encoding of the value they denote: the format has
/// one byte string per value and one value per byte string.
pub proof fn lemma_u64_le_canonical(b: Seq<u8>)
    requires
        b.len() == 8,
    ensures
        u64_le_bytes(u64_from_le(b)) == b,
{
    let b0 = b[0];
    let b1 = b[1];
    let b2 = b[2];
    let b3 = b[3];
    let b4 = b[4];
    let b5 = b[5];
    let b6 = b[6];
    let b7 = b[7];
    let v = (b0 as u64) | ((b1 as u64) << 8) | ((b2 as u64) << 16) | ((b3 as u64) << 24)
        | ((b4 as u64) << 32) | ((b5 as u64) << 40) | ((b6 as u64) << 48) | ((b7 as u64) << 56);
    assert((v & 0xff) as u8 == b0 && ((v >> 8) & 0xff) as u8 == b1
        && ((v >> 16) & 0xff) as u8 == b2 && ((v >> 24) & 0xff) as u8 == b3
        && ((v >> 32) & 0xff) as u8 == b4 && ((v >> 40) & 0xff) as u8 == b5
        && ((v >> 48) & 0xff) as u8 == b6 && ((v >> 56) & 0xff) as u8 == b7) by (bit_vector)
        requires
            v == (b0 as u64) | ((b1 as u64) << 8) | ((b2 as u64) << 16) | ((b3 as u64) << 24)
                | ((b4 as u64) << 32) | ((b5 as u64) << 40) | ((b6 as u64) << 48)
                | ((b7 as u64) << 56),
    ;
    assert(u64_le_bytes(u64_from_le(b)) =~= b);
}

/// The bit pattern that carries a signed coordinate on the wire.
pub open spec fn i64_bits(x: i64) -> u64 {
    x as u64
}

/// The signed coordinate a wire bit pattern denotes.
pub open spec fn i64_of_bits(u: u64) -> i64 {
    u as i64
}

/// A bit pattern survives the trip through the coordinate it denotes.
pub proof fn lemma_i64_bits_canonical(u: u64)
    ensures
        i64_bits(i64_of_bits(u)) == u,
{
    assert(((u as i64) as u64) == u) by (bit_vector);
}

/// Appends the eight little-endian bytes of `v`.
pub fn write_u64_le(out: &mut Vec<u8>, v: u64)
    ensures
        final(out)@ == old(out)@ + u64_le_bytes(v),
{
    out.push((v & 0xff) as u8);
    out.push(((v >> 8) & 0xff) as u8);
    out.push(((v >> 16) & 0xff) as u8);
    out.push(((v >> 24) & 0xff) as u8);
    out.push(((v >> 32) & 0xff) as u8);
    out.push(((v >> 40) & 0xff) as u8);
    out.push(((v >> 48) & 0xff) as u8);
    out.push(((v >> 56) & 0xff) as u8);
    proof {
        assert(out@ =~= old(out)@ + u64_le_bytes(v));
    }
}

/// Reads the 64-bit value held in `b[off .. off + 8]`, little-endian.
pub fn read_u64_le(b: &Vec<u8>, off: usize) -> (r: u64)
    requires
        off + 8 <= b@.len(),
    ensures
        r == u64_from_le(b@.subrange(off as int, off as int + 8)),
{
    // Reading the length pins b@.len() inside the usize range, which the
    // index arithmetic below needs.
    let n = b.len();
    let r = (b[off] as u64) | ((b[off + 1] as u64) << 8) | ((b[off + 2] as u64) << 16)
        | ((b[off + 3] as u64) << 24) | ((b[off + 4] as u64) << 32)
        | ((b[off + 5] as u64) << 40) | ((b[off + 6] as u64) << 48)
        | ((b[off + 7] as u64) << 56);
    proof {
        let s = b@.subrange(off as int, off as int + 8);
        assert(s[0] == b@[off as int]);
        assert(s[1] == b@[off as int + 1]);
        assert(s[2] == b@[off as int + 2]);
        assert(s[3] == b@[off as int + 3]);
        assert(s[4] == b@[off as int + 4]);
        assert(s[5] == b@[off as int + 5]);
        assert(s[6] == b@[off as int + 6]);
        assert(s[7] == b@[off as int + 7]);
    }
    r
}

} // verus!
