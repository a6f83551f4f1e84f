//! One PNG chunk record: a length-prefixed, type-tagged, checksummed payload.
//! The binary layout is big-endian: 4 length bytes, 4 type bytes, the data,
//! and a trailing 4-byte CRC-32 over type and data.

use crate::chunk_type::ChunkType;
use crate::codec::{
    lemma_u32_be_bytes_inverse, lemma_u32_be_bytes_round_trip, lemma_u32_from_be_bytes_injective,
    spec_u32_from_be_bytes, spec_u32_to_be_bytes, u32_from_be_bytes, u32_to_be_bytes,
};
use crate::crc::{checksum_ieee, spec_crc32};
use crate::text::{bytes_to_text, spec_chars_of};
use crate::PngError;
use vstd::prelude::*;

verus! {

/// The mathematical content of a chunk record: the four fields as plain
/// values.
pub ghost struct ChunkModel {
    pub length: u32,
    pub ctype: Seq<u8>,
    pub data: Seq<u8>,
    pub crc: u32,
}

impl ChunkModel {
    /// Structural soundness: 4 type bytes, and a stored checksum that equals
    /// the CRC-32 recomputed over type and data.
    pub open spec fn wf(self) -> bool {
        &&& self.ctype.len() == 4
        &&& self.crc == spec_crc32(self.ctype + self.data)
    }

    /// The length field agrees with the actual size of the data.
    pub open spec fn length_consistent(self) -> bool {
        self.length == self.data.len()
    }

    /// The serialized record: big-endian length, type bytes, data bytes,
    /// big-endian checksum.
    pub open spec fn spec_serialize(self) -> Seq<u8> {
        spec_u32_to_be_bytes(self.length) + self.ctype + self.data + spec_u32_to_be_bytes(self.crc)
    }
}

/// What parsing a chunk record out of a byte buffer yields. The data span is
/// derived from the buffer bounds, not from the embedded length field; the
/// stored checksum must match the one recomputed over type and data.
pub open spec fn spec_parse_chunk(b: Seq<u8>) -> Result<ChunkModel, PngError> {
    if b.len() < 12 {
        Err(PngError::TruncatedBuffer)
    } else {
        let m = ChunkModel {
            length: spec_u32_from_be_bytes(b.subrange(0, 4)),
            ctype: b.subrange(4, 8),
            data: b.subrange(8, b.len() - 4),
            crc: spec_u32_from_be_bytes(b.subrange(b.len() - 4, b.len() as int)),
        };
        let expected = spec_crc32(m.ctype + m.data);
        if m.crc != expected {
            Err(PngError::ChecksumMismatch { expected, actual: m.crc })
        } else {
            Ok(m)
        }
    }
}

/// One length-prefixed, type-tagged, checksummed data record of a PNG
/// stream. Immutable once constructed; the stored checksum always matches
/// the type and data bytes.
#[derive(Debug, Clone)]
pub struct Chunk {
    length: u32,
    chunk_type: ChunkType,
    data: Vec<u8>,
    crc: u32,
}

impl View for Chunk {
    type V = ChunkModel;

    closed spec fn view(&self) -> ChunkModel {
        ChunkModel {
            length: self.length,
            ctype: self.chunk_type@,
            data: self.data@,
            crc: self.crc,
        }
    }
}

/// Computes the CRC-32 over the concatenation of the 4 type bytes and the
/// data bytes.
fn checksum_of(tb: &[u8; 4], data: &Vec<u8>) -> (r: u32)
    ensures
        r == spec_crc32(tb@ + data@),
{
    let mut buf: Vec<u8> = Vec::new();
    buf.push(tb[0]);
    buf.push(tb[1]);
    buf.push(tb[2]);
    buf.push(tb[3]);
    proof {
        assert(buf@ =~= tb@ + data@.take(0));
    }
    let mut i: usize = 0;
    while i < data.len()
        invariant
            i <= data@.len(),
            buf@ == tb@ + data@.take(i as int),
        decreases data@.len() - i,
    {
        buf.push(data[i]);
        proof {
            assert(tb@ + data@.take(i + 1) =~= (tb@ + data@.take(i as int)).push(
                data@[i as int],
            ));
        }
        i = i + 1;
    }
    proof {
        assert(tb@ + data@.take(i as int) =~= tb@ + data@);
    }
    checksum_ieee(buf.as_slice())
}

impl Chunk {
    /// Builds a chunk from a type code and a data buffer, computing the
    /// length and checksum fields.
    pub fn new(chunk_type: ChunkType, data: Vec<u8>) -> (r: Chunk)
        requires
            data@.len() <= u32::MAX,
        ensures
            r@ == (ChunkModel {
                length: data@.len() as u32,
                ctype: chunk_type@,
                data: data@,
                crc: spec_crc32(chunk_type@ + data@),
            }),
            r@.wf(),
            r@.length_consistent(),
    {
        let length: u32 = data.len() as u32;
        let tb = chunk_type.bytes();
        let crc: u32 = checksum_of(&tb, &data);
        Chunk { length, chunk_type, data, crc }
    }

    /// Parses a chunk record out of a byte buffer, validating its checksum.
    pub fn parse(value: &[u8]) -> (r: Result<Chunk, PngError>)
        ensures
            match r {
                Ok(c) => spec_parse_chunk(value@) == Ok::<ChunkModel, PngError>(c@) && c@.wf(),
                Err(e) => spec_parse_chunk(value@) == Err::<ChunkModel, PngError>(e),
            },
    {
        let n = value.len();
        if n < 12 {
            return Err(PngError::TruncatedBuffer);
        }
        let length = u32_from_be_bytes(value[0], value[1], value[2], value[3]);
        proof {
            assert(seq![value@[0], value@[1], value@[2], value@[3]] =~= value@.subrange(0, 4));
        }
        let ctype_arr: [u8; 4] = [value[4], value[5], value[6], value[7]];
        proof {
            assert(ctype_arr@ =~= value@.subrange(4, 8));
        }
        let chunk_type = ChunkType::try_from(ctype_arr).unwrap();
        let mut data: Vec<u8> = Vec::new();
        let mut i: usize = 8;
        while i < n - 4
            invariant
                8 <= i <= n - 4,
                n == value@.len(),
                12 <= n,
                data@ == value@.subrange(8, i as int),
            decreases n - 4 - i,
        {
            data.push(value[i]);
            proof {
                assert(value@.subrange(8, i + 1) =~= value@.subrange(8, i as int).push(
                    value@[i as int],
                ));
            }
            i = i + 1;
        }
        let crc = u32_from_be_bytes(value[n - 4], value[n - 3], value[n - 2], value[n - 1]);
        proof {
            assert(seq![
                value@[n - 4],
                value@[n - 3],
                value@[n - 2],
                value@[n - 1],
            ] =~= value@.subrange(n - 4, n as int));
        }
        let expected = checksum_of(&ctype_arr, &data);
        if crc != expected {
            return Err(PngError::ChecksumMismatch { expected, actual: crc });
        }
        Ok(Chunk { length, chunk_type, data, crc })
    }

    /// The stored length field.
    pub fn length(&self) -> (r: u32)
        ensures
            r == self@.length,
    {
        self.length
    }

    /// The chunk's type code.
    pub fn chunk_type(&self) -> (r: &ChunkType)
        ensures
            r@ == self@.ctype,
    {
        &self.chunk_type
    }

    /// The data bytes.
    pub fn data(&self) -> (r: &[u8])
        ensures
            r@ == self@.data,
    {
        self.data.as_slice()
    }

    /// The stored checksum.
    pub fn crc(&self) -> (r: u32)
        ensures
            r == self@.crc,
    {
        self.crc
    }

    /// Renders the data bytes as text, one character per byte, with no
    /// encoding validation; total, so the result is always `Ok`.
    pub fn data_as_string(&self) -> (r: Result<String, PngError>)
        ensures
            r is Ok,
            r->Ok_0@ == spec_chars_of(self@.data),
    {
        Ok(bytes_to_text(self.data.as_slice()))
    }

    /// Serializes the record: big-endian length, type bytes, data bytes,
    /// big-endian checksum — the exact inverse of a successful parse.
    pub fn as_bytes(&self) -> (r: Vec<u8>)
        ensures
            r@ == self@.spec_serialize(),
    {
        let mut out: Vec<u8> = Vec::new();
        u32_to_be_bytes(self.length, &mut out);
        let tb = self.chunk_type.bytes();
        out.push(tb[0]);
        out.push(tb[1]);
        out.push(tb[2]);
        out.push(tb[3]);
        proof {
            assert(out@ =~= spec_u32_to_be_bytes(self@.length) + self@.ctype + self@.data.take(0));
        }
        let mut i: usize = 0;
        while i < self.data.len()
            invariant
                i <= self@.data.len(),
                out@ == spec_u32_to_be_bytes(self@.length) + self@.ctype + self@.data.take(
                    i as int,
                ),
            decreases self@.data.len() - i,
        {
            out.push(self.data[i]);
            proof {
                assert(spec_u32_to_be_bytes(self@.length) + self@.ctype + self@.data.take(i + 1)
                    =~= (spec_u32_to_be_bytes(self@.length) + self@.ctype + self@.data.take(
                    i as int,
                )).push(self@.data[i as int]));
            }
            i = i + 1;
        }
        u32_to_be_bytes(self.crc, &mut out);
        proof {
            assert(self@.data.take(i as int) =~= self@.data);
            assert(out@ =~= self@.spec_serialize());
        }
        out
    }
}

/// Parsing inverts serialization: a well-formed chunk record, written out,
/// parses back to exactly the same model.
pub proof fn lemma_chunk_round_trip(m: ChunkModel)
    requires
        m.wf(),
    ensures
        spec_parse_chunk(m.spec_serialize()) == Ok::<ChunkModel, PngError>(m),
{
    let b = m.spec_serialize();
    lemma_u32_be_bytes_round_trip(m.length);
    lemma_u32_be_bytes_round_trip(m.crc);
    assert(b.len() == 12 + m.data.len());
    assert(b.subrange(0, 4) =~= spec_u32_to_be_bytes(m.length));
    assert(b.subrange(4, 8) =~= m.ctype);
    assert(b.subrange(8, b.len() - 4) =~= m.data);
    assert(b.subrange(b.len() - 4, b.len() as int) =~= spec_u32_to_be_bytes(m.crc));
}

/// A freshly built chunk survives the write/read cycle: for any data bytes
/// and any 4-byte type, the record that `new` constructs, once serialized,
/// parses back with identical type, data and checksum.
pub proof fn lemma_new_chunk_round_trip(ctype: Seq<u8>, data: Seq<u8>)
    requires
        ctype.len() == 4,
        data.len() <= u32::MAX,
    ensures
        ({
            let m = ChunkModel {
                length: data.len() as u32,
                ctype,
                data,
                crc: spec_crc32(ctype + data),
            };
            spec_parse_chunk(m.spec_serialize()) == Ok::<ChunkModel, PngError>(m)
        }),
{
    let m = ChunkModel { length: data.len() as u32, ctype, data, crc: spec_crc32(ctype + data) };
    lemma_chunk_round_trip(m);
}

/// Serialization inverts parsing: writing out whatever a successful parse
/// produced reproduces the parsed buffer byte for byte.
pub proof fn lemma_chunk_parse_serialize(b: Seq<u8>)
    requires
        spec_parse_chunk(b) is Ok,
    ensures
        (spec_parse_chunk(b)->Ok_0).spec_serialize() == b,
        (spec_parse_chunk(b)->Ok_0).wf(),
{
    let m = spec_parse_chunk(b)->Ok_0;
    lemma_u32_be_bytes_inverse(b.subrange(0, 4));
    lemma_u32_be_bytes_inverse(b.subrange(b.len() - 4, b.len() as int));
    assert(m.spec_serialize() =~= b);
}

/// Corrupting the stored checksum of a parsable chunk record is always
/// detected: if the bytes before the 4-byte checksum field are unchanged but
/// the checksum field differs, parsing fails with a checksum mismatch.
pub proof fn lemma_crc_corruption_detected(b: Seq<u8>, b2: Seq<u8>)
    requires
        spec_parse_chunk(b) is Ok,
        b2.len() == b.len(),
        b2.subrange(0, b.len() - 4) == b.subrange(0, b.len() - 4),
        b2.subrange(b.len() - 4, b.len() as int) != b.subrange(b.len() - 4, b.len() as int),
    ensures
        spec_parse_chunk(b2) matches Err(e) && e is ChecksumMismatch,
{
    let n = b.len() as int;
    assert forall|i: int| 0 <= i < n - 4 implies b2[i] == b[i] by {
        assert(b2.subrange(0, n - 4)[i] == b2[i]);
        assert(b.subrange(0, n - 4)[i] == b[i]);
    }
    assert(b2.subrange(4, 8) =~= b.subrange(4, 8));
    assert(b2.subrange(8, n - 4) =~= b.subrange(8, n - 4));
    lemma_u32_from_be_bytes_injective(
        b2.subrange(n - 4, n),
        b.subrange(n - 4, n),
    );
}

} // verus!
