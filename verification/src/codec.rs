//! Big-endian encoding and decoding of 32-bit integers, as used by the
//! length and checksum fields of a PNG chunk record.

use vstd::prelude::*;
use vstd::seq_lib::*;

verus! {

/// The 32-bit value stored big-endian in a 4-byte sequence.
pub open spec fn spec_u32_from_be_bytes(s: Seq<u8>) -> u32
    recommends
        s.len() == 4,
{
    (s[0] as u32) << 24 | (s[1] as u32) << 16 | (s[2] as u32) << 8 | (s[3] as u32)
}

/// The 4-byte big-endian encoding of a 32-bit value.
pub open spec fn spec_u32_to_be_bytes(x: u32) -> Seq<u8> {
    seq![
        ((x >> 24) & 0xff) as u8,
        ((x >> 16) & 0xff) as u8,
        ((x >> 8) & 0xff) as u8,
        (x & 0xff) as u8,
    ]
}

/// Decoding inverts encoding: a value written big-endian is read back intact.
pub proof fn lemma_u32_be_bytes_round_trip(x: u32)
    ensures
        spec_u32_to_be_bytes(x).len() == 4,
        spec_u32_from_be_bytes(spec_u32_to_be_bytes(x)) == x,
{
    assert((((((x >> 24) & 0xff) as u8) as u32) << 24 | ((((x >> 16) & 0xff) as u8) as u32) << 16
        | ((((x >> 8) & 0xff) as u8) as u32) << 8 | (((x & 0xff) as u8) as u32)) == x)
        by (bit_vector);
}

/// Encoding inverts decoding: the 4 bytes of a buffer are recovered from the
/// value they encode.
pub proof fn lemma_u32_be_bytes_inverse(s: Seq<u8>)
    requires
        s.len() == 4,
    ensures
        spec_u32_to_be_bytes(spec_u32_from_be_bytes(s)) == s,
{
    let b0 = s[0];
    let b1 = s[1];
    let b2 = s[2];
    let b3 = s[3];
    let x = spec_u32_from_be_bytes(s);
    assert(((x >> 24) & 0xff) as u8 == b0 && ((x >> 16) & 0xff) as u8 == b1 && ((x >> 8) & 0xff)
        as u8 == b2 && (x & 0xff) as u8 == b3) by (bit_vector)
        requires
            x == (b0 as u32) << 24 | (b1 as u32) << 16 | (b2 as u32) << 8 | (b3 as u32),
    ;
    assert(spec_u32_to_be_bytes(spec_u32_from_be_bytes(s)) =~= s);
}

/// Two distinct 4-byte buffers decode to distinct values.
pub proof fn lemma_u32_from_be_bytes_injective(s1: Seq<u8>, s2: Seq<u8>)
    requires
        s1.len() == 4,
        s2.len() == 4,
        s1 != s2,
    ensures
        spec_u32_from_be_bytes(s1) != spec_u32_from_be_bytes(s2),
{
    if spec_u32_from_be_bytes(s1) == spec_u32_from_be_bytes(s2) {
        lemma_u32_be_bytes_inverse(s1);
        lemma_u32_be_bytes_inverse(s2);
    }
}

/// Reads the big-endian 32-bit value held in 4 bytes.
pub fn u32_from_be_bytes(b0: u8, b1: u8, b2: u8, b3: u8) -> (r: u32)
    ensures
        r == spec_u32_from_be_bytes(seq![b0, b1, b2, b3]),
{
    (b0 as u32) << 24u32 | (b1 as u32) << 16u32 | (b2 as u32) << 8u32 | (b3 as u32)
}

/// Appends the 4-byte big-endian encoding of a value to a buffer.
pub fn u32_to_be_bytes(x: u32, out: &mut Vec<u8>)
    ensures
        final(out)@ == old(out)@ + spec_u32_to_be_bytes(x),
{
    proof {
        assert((x >> 24) & 0xff < 256 && (x >> 16) & 0xff < 256 && (x >> 8) & 0xff < 256 && x
            & 0xff < 256) by (bit_vector);
    }
    out.push(((x >> 24u32) & 0xff) as u8);
    out.push(((x >> 16u32) & 0xff) as u8);
    out.push(((x >> 8u32) & 0xff) as u8);
    out.push((x & 0xff) as u8);
    proof {
        assert(out@ =~= old(out)@ + spec_u32_to_be_bytes(x));
    }
}

} // verus!
