//! The 4-byte PNG chunk-type code. Bit 5 (0x20) of each byte — the case bit
//! of an ASCII letter — encodes one boolean property of the chunk.

use crate::text::{bytes_to_text, spec_chars_of};
use crate::PngError;
use vstd::prelude::*;
use vstd::string::{StrSliceExecFns, StringSliceAdditionalSpecFns};

verus! {

/// Whether a byte is an ASCII letter (`A`–`Z` or `a`–`z`).
pub open spec fn spec_is_letter(b: u8) -> bool {
    (65 <= b && b <= 90) || (97 <= b && b <= 122)
}

/// Whether every byte of a type code is an ASCII letter.
pub open spec fn spec_all_letters(t: Seq<u8>) -> bool {
    forall|i: int| 0 <= i < t.len() ==> spec_is_letter(#[trigger] t[i])
}

/// Whether a byte sequence is acceptable as the text of a type code:
/// exactly 4 bytes, each an ASCII letter.
pub open spec fn spec_valid_type_text(t: Seq<u8>) -> bool {
    t.len() == 4 && spec_all_letters(t)
}

/// Critical chunk: bit 5 of byte 0 is clear (the first letter is uppercase).
pub open spec fn spec_is_critical(t: Seq<u8>) -> bool {
    t[0] & 0x20 == 0
}

/// Public chunk: bit 5 of byte 1 is clear.
pub open spec fn spec_is_public(t: Seq<u8>) -> bool {
    t[1] & 0x20 == 0
}

/// Reserved bit valid: bit 5 of byte 2 is clear.
pub open spec fn spec_is_reserved_bit_valid(t: Seq<u8>) -> bool {
    t[2] & 0x20 == 0
}

/// Safe to copy: bit 5 of byte 3 is set.
pub open spec fn spec_is_safe_to_copy(t: Seq<u8>) -> bool {
    t[3] & 0x20 == 0x20
}

/// Fully valid type code: every byte an ASCII letter and the reserved bit
/// clear (byte 2 uppercase).
pub open spec fn spec_is_valid(t: Seq<u8>) -> bool {
    spec_all_letters(t) && spec_is_reserved_bit_valid(t)
}

/// A 4-byte chunk-type identifier. Any bytes can be stored (a decoder must
/// represent whatever occurs in a file); construction from text additionally
/// checks that each byte is an ASCII letter.
#[derive(Debug, Clone, PartialEq, Eq)]
pub struct ChunkType([u8; 4]);

impl View for ChunkType {
    type V = Seq<u8>;

    closed spec fn view(&self) -> Seq<u8> {
        self.0@
    }
}

impl ChunkType {
    /// Builds a type code from raw bytes; always succeeds, whatever the
    /// bytes, so that malformed producer chunks still round-trip.
    pub fn try_from(chunktype: [u8; 4]) -> (r: Result<ChunkType, PngError>)
        ensures
            r is Ok,
            r->Ok_0@ == chunktype@,
    {
        Ok(ChunkType(chunktype))
    }

    /// Builds a type code from text: the string must be exactly 4 bytes,
    /// each an ASCII letter.
    pub fn from_str(s: &str) -> (r: Result<ChunkType, PngError>)
        ensures
            match r {
                Ok(t) => spec_valid_type_text(s.spec_bytes()) && t@ == s.spec_bytes(),
                Err(e) => !spec_valid_type_text(s.spec_bytes()) && e == (
                if s.spec_bytes().len() != 4 {
                    PngError::InvalidFormat
                } else {
                    PngError::InvalidCharacter
                }),
            },
    {
        let b: &[u8] = s.as_bytes();
        if b.len() != 4 {
            return Err(PngError::InvalidFormat);
        }
        let mut i: usize = 0;
        while i < 4
            invariant
                i <= 4,
                b@.len() == 4,
                b@ == s.spec_bytes(),
                forall|j: int| 0 <= j < i ==> spec_is_letter(#[trigger] b@[j]),
            decreases 4 - i,
        {
            let c = b[i];
            if !((c >= 65 && c <= 90) || (c >= 97 && c <= 122)) {
                proof {
                    assert(!spec_is_letter(s.spec_bytes()[i as int]));
                }
                return Err(PngError::InvalidCharacter);
            }
            i = i + 1;
        }
        let arr: [u8; 4] = [b[0], b[1], b[2], b[3]];
        proof {
            assert(arr@ =~= b@);
        }
        Ok(ChunkType(arr))
    }

    /// The 4 raw bytes of the type code.
    pub fn bytes(&self) -> (r: [u8; 4])
        ensures
            r@ == self@,
    {
        self.0
    }

    /// Renders the type code as text, one character per byte.
    pub fn to_string(&self) -> (r: String)
        ensures
            r@ == spec_chars_of(self@),
    {
        bytes_to_text(self.0.as_slice())
    }

    /// Whether the chunk is critical: bit 5 of byte 0 clear.
    pub fn is_critical(&self) -> (r: bool)
        ensures
            r == spec_is_critical(self@),
    {
        let byte = self.0[0];
        let bit = (byte >> 5) & 1;
        proof {
            assert(((byte >> 5) & 1 == 0) == (byte & 0x20 == 0)) by (bit_vector);
        }
        bit == 0
    }

    /// Whether the chunk is public: bit 5 of byte 1 clear.
    pub fn is_public(&self) -> (r: bool)
        ensures
            r == spec_is_public(self@),
    {
        let byte = self.0[1];
        let bit = (byte >> 5) & 1;
        proof {
            assert(((byte >> 5) & 1 == 0) == (byte & 0x20 == 0)) by (bit_vector);
        }
        bit == 0
    }

    /// Whether the reserved bit is valid: bit 5 of byte 2 clear.
    pub fn is_reserved_bit_valid(&self) -> (r: bool)
        ensures
            r == spec_is_reserved_bit_valid(self@),
    {
        let byte = self.0[2];
        let bit = (byte >> 5) & 1;
        proof {
            assert(((byte >> 5) & 1 == 0) == (byte & 0x20 == 0)) by (bit_vector);
        }
        bit == 0
    }

    /// Whether the chunk is safe to copy: bit 5 of byte 3 set.
    pub fn is_safe_to_copy(&self) -> (r: bool)
        ensures
            r == spec_is_safe_to_copy(self@),
    {
        let byte = self.0[3];
        let bit = (byte >> 5) & 1;
        proof {
            assert(((byte >> 5) & 1 == 1) == (byte & 0x20 == 0x20)) by (bit_vector);
        }
        bit == 1
    }

    /// Whether this type code's text rendering equals the given name,
    /// character by character.
    pub fn matches_name(&self, name: &str) -> (r: bool)
        ensures
            r == (spec_chars_of(self@) == name@),
    {
        let len = name.unicode_len();
        if len != 4 {
            proof {
                assert(spec_chars_of(self@).len() == 4);
            }
            return false;
        }
        let mut i: usize = 0;
        while i < 4
            invariant
                i <= 4,
                name@.len() == 4,
                forall|j: int| 0 <= j < i ==> spec_chars_of(self@)[j] == name@[j],
            decreases 4 - i,
        {
            let c = self.0[i];
            if (c as char) != name.get_char(i) {
                proof {
                    assert(spec_chars_of(self@)[i as int] == self@[i as int] as char);
                }
                return false;
            }
            proof {
                assert(spec_chars_of(self@)[i as int] == self@[i as int] as char);
            }
            i = i + 1;
        }
        proof {
            assert(spec_chars_of(self@) =~= name@);
        }
        true
    }

    /// Whether the whole type code is valid: every byte an ASCII letter and
    /// the reserved bit clear.
    pub fn is_valid(&self) -> (r: bool)
        ensures
            r == spec_is_valid(self@),
    {
        let mut i: usize = 0;
        while i < 4
            invariant
                i <= 4,
                forall|j: int| 0 <= j < i ==> spec_is_letter(#[trigger] self@[j]),
            decreases 4 - i,
        {
            let c = self.0[i];
            if !((c >= 65 && c <= 90) || (c >= 97 && c <= 122)) {
                return false;
            }
            i = i + 1;
        }
        let b2 = self.0[2];
        proof {
            assert(((65 <= b2 && b2 <= 90) || (97 <= b2 && b2 <= 122)) ==> ((65 <= b2 && b2 <= 90)
                == (b2 & 0x20 == 0))) by (bit_vector);
        }
        b2 >= 65 && b2 <= 90
    }
}

/// Rendering a type code built from a valid 4-letter text recovers that text:
/// for every 4-character all-letter string, encoding it to bytes and widening
/// those bytes back to characters is the identity.
pub proof fn lemma_type_text_round_trip(s: Seq<char>)
    requires
        s.len() == 4,
        forall|i: int|
            0 <= i < 4 ==> (('A' <= #[trigger] s[i] && s[i] <= 'Z') || ('a' <= s[i] && s[i]
                <= 'z')),
    ensures
        spec_valid_type_text(vstd::utf8::encode_utf8(s)),
        spec_chars_of(vstd::utf8::encode_utf8(s)) == s,
{
    assert(vstd::utf8::is_ascii_chars(s));
    vstd::utf8::is_ascii_chars_encode_utf8(s);
    let e = vstd::utf8::encode_utf8(s);
    assert forall|i: int| 0 <= i < e.len() implies spec_is_letter(#[trigger] e[i]) by {
        assert(e[i] == s[i] as u8);
    }
    assert forall|i: int| 0 <= i < 4 implies spec_chars_of(e)[i] == s[i] by {
        assert(e[i] == s[i] as u8);
    }
    assert(spec_chars_of(e) =~= s);
}

} // verus!
