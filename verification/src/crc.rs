//! The 32-bit cyclic redundancy check (IEEE polynomial, reflected form, as
//! used by zlib) that validates the integrity of each PNG chunk.

use vstd::prelude::*;

verus! {

/// The reflected IEEE CRC-32 generator polynomial.
pub const CRC_POLY: u32 = 0xEDB88320;

/// One shift-and-conditionally-xor round of the bitwise CRC computation.
pub open spec fn spec_crc_step(c: u32) -> u32 {
    if c & 1 == 1 {
        (c >> 1) ^ CRC_POLY
    } else {
        c >> 1
    }
}

/// `n` rounds of the bitwise CRC computation.
pub open spec fn spec_crc_steps(c: u32, n: nat) -> u32
    decreases n,
{
    if n == 0 {
        c
    } else {
        spec_crc_steps(spec_crc_step(c), (n - 1) as nat)
    }
}

/// Folds one input byte into the running CRC state.
pub open spec fn spec_crc_update(c: u32, b: u8) -> u32 {
    spec_crc_steps(c ^ (b as u32), 8)
}

/// Folds a whole byte sequence into the running CRC state.
pub open spec fn spec_crc_fold(c: u32, s: Seq<u8>) -> u32
    decreases s.len(),
{
    if s.len() == 0 {
        c
    } else {
        spec_crc_fold(spec_crc_update(c, s[0]), s.skip(1))
    }
}

/// The IEEE CRC-32 checksum of a byte sequence: the fold started from the
/// all-ones state, with the final state complemented.
pub open spec fn spec_crc32(s: Seq<u8>) -> u32 {
    spec_crc_fold(0xFFFFFFFFu32, s) ^ 0xFFFFFFFFu32
}

/// Running one more round equals applying one step to the result so far.
pub proof fn lemma_crc_steps_snoc(c: u32, n: nat)
    ensures
        spec_crc_steps(c, n + 1) == spec_crc_step(spec_crc_steps(c, n)),
    decreases n,
{
    if n == 0 {
        reveal_with_fuel(spec_crc_steps, 2);
    } else {
        lemma_crc_steps_snoc(spec_crc_step(c), (n - 1) as nat);
    }
}

/// Folding one more byte equals updating the fold of the prefix.
pub proof fn lemma_crc_fold_snoc(c: u32, s: Seq<u8>, b: u8)
    ensures
        spec_crc_fold(c, s.push(b)) == spec_crc_update(spec_crc_fold(c, s), b),
    decreases s.len(),
{
    if s.len() == 0 {
        reveal_with_fuel(spec_crc_fold, 2);
        assert(s.push(b)[0] == b);
        assert(s.push(b).skip(1) =~= Seq::<u8>::empty());
    } else {
        assert(s.push(b)[0] == s[0]);
        assert(s.push(b).skip(1) =~= s.skip(1).push(b));
        lemma_crc_fold_snoc(spec_crc_update(c, s[0]), s.skip(1), b);
    }
}

/// Computes the IEEE CRC-32 checksum of a byte slice.
pub fn checksum_ieee(bytes: &[u8]) -> (r: u32)
    ensures
        r == spec_crc32(bytes@),
{
    let mut c: u32 = 0xFFFFFFFF;
    let mut i: usize = 0;
    while i < bytes.len()
        invariant
            i <= bytes@.len(),
            c == spec_crc_fold(0xFFFFFFFFu32, bytes@.take(i as int)),
        decreases bytes@.len() - i,
    {
        let ghost prefix = bytes@.take(i as int);
        let ghost cprev = c;
        c = c ^ (bytes[i] as u32);
        let ghost cstart = c;
        let mut k: usize = 0;
        while k < 8
            invariant
                k <= 8,
                c == spec_crc_steps(cstart, k as nat),
            decreases 8 - k,
        {
            proof {
                lemma_crc_steps_snoc(cstart, k as nat);
            }
            if c & 1 == 1 {
                c = (c >> 1u32) ^ CRC_POLY;
            } else {
                c = c >> 1u32;
            }
            k = k + 1;
        }
        proof {
            assert(c == spec_crc_update(cprev, bytes@[i as int]));
            lemma_crc_fold_snoc(0xFFFFFFFFu32, prefix, bytes@[i as int]);
            assert(bytes@.take(i + 1) =~= prefix.push(bytes@[i as int]));
        }
        i = i + 1;
    }
    proof {
        assert(bytes@.take(i as int) =~= bytes@);
    }
    c ^ 0xFFFFFFFF
}

} // verus!
