//! The PNG container: a fixed 8-byte signature followed by an ordered
//! sequence of chunk records, with lookup, insertion and removal that keep
//! the stream re-serializable byte for byte.

use crate::chunk::{
    lemma_chunk_parse_serialize, lemma_chunk_round_trip, spec_parse_chunk, Chunk, ChunkModel,
};
use crate::codec::{lemma_u32_be_bytes_round_trip, spec_u32_from_be_bytes, u32_from_be_bytes};
use crate::text::spec_chars_of;
use crate::PngError;
use vstd::prelude::*;
use vstd::slice::slice_subrange;

verus! {

/// The fixed 8-byte signature that begins every PNG stream.
pub open spec fn spec_signature() -> Seq<u8> {
    seq![137u8, 80u8, 78u8, 71u8, 13u8, 10u8, 26u8, 10u8]
}

/// The models of the chunks held in a vector.
pub open spec fn spec_models(v: Seq<Chunk>) -> Seq<ChunkModel> {
    Seq::new(v.len(), |i: int| v[i]@)
}

/// The concatenated serialization of a sequence of chunk records.
pub open spec fn spec_serialize_chunks(chunks: Seq<ChunkModel>) -> Seq<u8>
    decreases chunks.len(),
{
    if chunks.len() == 0 {
        Seq::empty()
    } else {
        chunks[0].spec_serialize() + spec_serialize_chunks(chunks.skip(1))
    }
}

/// The serialization of a whole container: the signature, then the chunks
/// in sequence order, with no padding.
pub open spec fn spec_serialize_png(chunks: Seq<ChunkModel>) -> Seq<u8> {
    spec_signature() + spec_serialize_chunks(chunks)
}

/// What parsing the chunk region of a buffer yields. Each record's extent
/// is 12 bytes plus its length field; every record must parse, and a
/// truncated tail or a checksum failure fails the whole parse.
pub open spec fn spec_parse_chunks(b: Seq<u8>) -> Result<Seq<ChunkModel>, PngError>
    decreases b.len(),
{
    if b.len() == 0 {
        Ok(Seq::empty())
    } else if b.len() < 12 {
        Err(PngError::TruncatedBuffer)
    } else {
        let length = spec_u32_from_be_bytes(b.subrange(0, 4)) as int;
        if b.len() < 12 + length {
            Err(PngError::TruncatedBuffer)
        } else {
            match spec_parse_chunk(b.subrange(0, 12 + length)) {
                Err(e) => Err(e),
                Ok(m) => match spec_parse_chunks(b.skip(12 + length)) {
                    Err(e) => Err(e),
                    Ok(rest) => Ok(seq![m] + rest),
                },
            }
        }
    }
}

/// What parsing a whole container yields: the signature must match, and the
/// rest of the buffer must parse as chunk records.
pub open spec fn spec_parse_png(b: Seq<u8>) -> Result<Seq<ChunkModel>, PngError> {
    if b.len() < 8 || b.subrange(0, 8) != spec_signature() {
        Err(PngError::BadSignature)
    } else {
        spec_parse_chunks(b.skip(8))
    }
}

/// Already-parsed chunks prefixed onto the outcome of parsing the rest.
pub open spec fn spec_prepend(
    pre: Seq<ChunkModel>,
    r: Result<Seq<ChunkModel>, PngError>,
) -> Result<Seq<ChunkModel>, PngError> {
    match r {
        Ok(rest) => Ok(pre + rest),
        Err(e) => Err(e),
    }
}

/// Whether a chunk's type renders as the given name.
pub open spec fn spec_matches_type(m: ChunkModel, name: Seq<char>) -> bool {
    spec_chars_of(m.ctype) == name
}

/// The position of the first chunk whose type renders as the given name.
pub open spec fn spec_find_index(chunks: Seq<ChunkModel>, name: Seq<char>) -> Option<int>
    decreases chunks.len(),
{
    if chunks.len() == 0 {
        None
    } else if spec_matches_type(chunks[0], name) {
        Some(0)
    } else {
        match spec_find_index(chunks.skip(1), name) {
            None => None,
            Some(i) => Some(i + 1),
        }
    }
}

/// The first chunk whose type renders as the given name.
pub open spec fn spec_first_match(chunks: Seq<ChunkModel>, name: Seq<char>) -> Option<ChunkModel> {
    match spec_find_index(chunks, name) {
        None => None,
        Some(i) => Some(chunks[i]),
    }
}

/// A chunk sequence after an append: the new chunk goes immediately before
/// the last element (conventionally the terminal image-end marker), or
/// alone into an empty sequence.
pub open spec fn spec_append(chunks: Seq<ChunkModel>, m: ChunkModel) -> Seq<ChunkModel> {
    if chunks.len() == 0 {
        seq![m]
    } else {
        chunks.insert(chunks.len() - 1, m)
    }
}

/// If position `i` holds a match and nothing before it does, the find
/// returns `i`.
pub proof fn lemma_find_index_at(chunks: Seq<ChunkModel>, name: Seq<char>, i: int)
    requires
        0 <= i < chunks.len(),
        spec_matches_type(chunks[i], name),
        forall|j: int| 0 <= j < i ==> !spec_matches_type(#[trigger] chunks[j], name),
    ensures
        spec_find_index(chunks, name) == Some(i),
    decreases i,
{
    if i > 0 {
        assert(!spec_matches_type(chunks[0], name));
        assert forall|j: int| 0 <= j < i - 1 implies !spec_matches_type(
            #[trigger] chunks.skip(1)[j],
            name,
        ) by {
            assert(chunks.skip(1)[j] == chunks[j + 1]);
        }
        assert(chunks.skip(1)[i - 1] == chunks[i]);
        lemma_find_index_at(chunks.skip(1), name, i - 1);
    }
}

/// If no chunk matches, the find returns nothing.
pub proof fn lemma_find_index_none(chunks: Seq<ChunkModel>, name: Seq<char>)
    requires
        forall|j: int| 0 <= j < chunks.len() ==> !spec_matches_type(#[trigger] chunks[j], name),
    ensures
        spec_find_index(chunks, name) == None::<int>,
    decreases chunks.len(),
{
    if chunks.len() > 0 {
        assert forall|j: int| 0 <= j < chunks.skip(1).len() implies !spec_matches_type(
            #[trigger] chunks.skip(1)[j],
            name,
        ) by {
            assert(chunks.skip(1)[j] == chunks[j + 1]);
        }
        lemma_find_index_none(chunks.skip(1), name);
    }
}

/// Serializing one more chunk appends its record to the stream.
pub proof fn lemma_serialize_chunks_snoc(chunks: Seq<ChunkModel>, m: ChunkModel)
    ensures
        spec_serialize_chunks(chunks.push(m)) == spec_serialize_chunks(chunks)
            + m.spec_serialize(),
    decreases chunks.len(),
{
    if chunks.len() == 0 {
        reveal_with_fuel(spec_serialize_chunks, 2);
        assert(chunks.push(m)[0] == m);
        assert(chunks.push(m).skip(1) =~= Seq::<ChunkModel>::empty());
        assert(spec_serialize_chunks(chunks.push(m)) =~= spec_serialize_chunks(chunks)
            + m.spec_serialize());
    } else {
        assert(chunks.push(m)[0] == chunks[0]);
        assert(chunks.push(m).skip(1) =~= chunks.skip(1).push(m));
        lemma_serialize_chunks_snoc(chunks.skip(1), m);
        assert(spec_serialize_chunks(chunks.push(m)) =~= spec_serialize_chunks(chunks)
            + m.spec_serialize());
    }
}

/// One unfolding of the chunk-region parse on a successful, non-empty
/// buffer: the first record parses, the rest parses, and the results are
/// concatenated.
#[verifier::spinoff_prover]
proof fn lemma_parse_chunks_step(b: Seq<u8>)
    requires
        b.len() > 0,
        spec_parse_chunks(b) is Ok,
    ensures
        ({
            let length = spec_u32_from_be_bytes(b.subrange(0, 4)) as int;
            &&& b.len() >= 12 + length
            &&& spec_parse_chunk(b.subrange(0, 12 + length)) is Ok
            &&& spec_parse_chunks(b.skip(12 + length)) is Ok
            &&& spec_parse_chunks(b)->Ok_0 == seq![
                spec_parse_chunk(b.subrange(0, 12 + length))->Ok_0,
            ] + (spec_parse_chunks(b.skip(12 + length))->Ok_0)
        }),
{
}

/// Serialization inverts parsing over the chunk region: writing out
/// whatever parsed reproduces the region byte for byte.
#[verifier::rlimit(100)]
#[verifier::spinoff_prover]
pub proof fn lemma_parse_chunks_serialize(b: Seq<u8>)
    requires
        spec_parse_chunks(b) is Ok,
    ensures
        spec_serialize_chunks(spec_parse_chunks(b)->Ok_0) == b,
    decreases b.len(),
{
    if b.len() == 0 {
        assert(spec_serialize_chunks(spec_parse_chunks(b)->Ok_0) =~= b);
    } else {
        lemma_parse_chunks_step(b);
        let length = spec_u32_from_be_bytes(b.subrange(0, 4)) as int;
        let front = b.subrange(0, 12 + length);
        let tail = b.skip(12 + length);
        let m = spec_parse_chunk(front)->Ok_0;
        let rest = spec_parse_chunks(tail)->Ok_0;
        let all = spec_parse_chunks(b)->Ok_0;
        assert(all == seq![m] + rest);
        lemma_chunk_parse_serialize(front);
        lemma_parse_chunks_serialize(tail);
        assert(all[0] == m && all.skip(1) == rest) by {
            assert((seq![m] + rest)[0] == m);
            assert((seq![m] + rest).skip(1) =~= rest);
        }
        assert(spec_serialize_chunks(all) == front + tail);
        assert(front + tail == b) by {
            assert forall|i: int| 0 <= i < b.len() implies (front + tail)[i] == b[i] by {
                if i < 12 + length {
                    assert(front[i] == b[i]);
                } else {
                    assert(tail[i - (12 + length)] == b[i]);
                }
            }
            assert(front + tail =~= b);
        }
    }
}

/// Parsing inverts serialization over the chunk region, for chunks that are
/// well-formed and whose length fields are consistent with their data.
#[verifier::rlimit(100)]
#[verifier::spinoff_prover]
pub proof fn lemma_serialize_chunks_parse(chunks: Seq<ChunkModel>)
    requires
        forall|i: int|
            0 <= i < chunks.len() ==> (#[trigger] chunks[i]).wf() && chunks[i].length_consistent(),
    ensures
        spec_parse_chunks(spec_serialize_chunks(chunks)) == Ok::<Seq<ChunkModel>, PngError>(chunks),
    decreases chunks.len(),
{
    if chunks.len() == 0 {
        assert(chunks =~= Seq::<ChunkModel>::empty());
    } else {
        let m = chunks[0];
        let b = spec_serialize_chunks(chunks);
        let rest_b = spec_serialize_chunks(chunks.skip(1));
        assert(b == m.spec_serialize() + rest_b);
        assert(m.spec_serialize().len() == 12 + m.data.len());
        assert(b.subrange(0, 4) =~= crate::codec::spec_u32_to_be_bytes(m.length));
        lemma_u32_be_bytes_round_trip(m.length);
        let length = spec_u32_from_be_bytes(b.subrange(0, 4)) as int;
        assert(length == m.data.len());
        assert(b.len() >= 12 + length);
        assert(b.subrange(0, 12 + length) =~= m.spec_serialize());
        lemma_chunk_round_trip(m);
        assert(b.skip(12 + length) =~= rest_b);
        assert forall|i: int| 0 <= i < chunks.skip(1).len() implies (#[trigger] chunks.skip(
            1,
        )[i]).wf() && chunks.skip(1)[i].length_consistent() by {
            assert(chunks.skip(1)[i] == chunks[i + 1]);
        }
        lemma_serialize_chunks_parse(chunks.skip(1));
        assert(seq![m] + chunks.skip(1) =~= chunks);
    }
}

/// Round-trip fidelity, first direction: a container parsed from a
/// well-formed buffer serializes back to that buffer byte for byte.
pub proof fn lemma_png_parse_serialize(b: Seq<u8>)
    requires
        spec_parse_png(b) is Ok,
    ensures
        spec_serialize_png(spec_parse_png(b)->Ok_0) == b,
{
    assert(b.len() >= 8 && b.subrange(0, 8) == spec_signature());
    lemma_parse_chunks_serialize(b.skip(8));
    assert forall|i: int| 0 <= i < b.len() implies (spec_signature() + b.skip(8))[i] == b[i] by {
        if i < 8 {
            assert(b.subrange(0, 8)[i] == b[i]);
        }
    }
    assert(spec_signature() + b.skip(8) =~= b);
}

/// Round-trip fidelity, second direction: a serialized container parses
/// back to exactly the same chunk sequence.
pub proof fn lemma_png_serialize_parse(chunks: Seq<ChunkModel>)
    requires
        forall|i: int|
            0 <= i < chunks.len() ==> (#[trigger] chunks[i]).wf() && chunks[i].length_consistent(),
    ensures
        spec_parse_png(spec_serialize_png(chunks)) == Ok::<Seq<ChunkModel>, PngError>(chunks),
{
    let b = spec_serialize_png(chunks);
    assert(b.subrange(0, 8) =~= spec_signature());
    assert(b.skip(8) =~= spec_serialize_chunks(chunks));
    lemma_serialize_chunks_parse(chunks);
}

/// Appending a chunk under a type that no existing chunk uses, then looking
/// that type up, finds exactly the appended chunk.
pub proof fn lemma_append_then_find(chunks: Seq<ChunkModel>, m: ChunkModel, name: Seq<char>)
    requires
        spec_matches_type(m, name),
        forall|i: int| 0 <= i < chunks.len() ==> !spec_matches_type(#[trigger] chunks[i], name),
    ensures
        spec_first_match(spec_append(chunks, m), name) == Some(m),
{
    let s2 = spec_append(chunks, m);
    if chunks.len() == 0 {
        lemma_find_index_at(s2, name, 0);
    } else {
        let k = chunks.len() - 1;
        assert(s2[k as int] == m);
        assert forall|j: int| 0 <= j < k implies !spec_matches_type(#[trigger] s2[j], name) by {
            assert(s2[j] == chunks[j]);
        }
        lemma_find_index_at(s2, name, k as int);
    }
}

/// The in-memory PNG container: an ordered sequence of chunks. Parsing
/// validates the signature and every chunk's checksum; serialization writes
/// the signature and the chunks back in order.
pub struct Png {
    chunks: Vec<Chunk>,
}

impl View for Png {
    type V = Seq<ChunkModel>;

    closed spec fn view(&self) -> Seq<ChunkModel> {
        spec_models(self.chunks@)
    }
}

impl Png {
    /// Every held chunk is structurally sound and its length field agrees
    /// with its data, so the container re-serializes to a parsable stream.
    pub open spec fn wf(self) -> bool {
        forall|i: int|
            0 <= i < self@.len() ==> (#[trigger] self@[i]).wf() && self@[i].length_consistent()
    }

    /// The fixed 8-byte signature as plain bytes.
    pub fn signature() -> (r: [u8; 8])
        ensures
            r@ == spec_signature(),
    {
        let r: [u8; 8] = [137, 80, 78, 71, 13, 10, 26, 10];
        proof {
            assert(r@ =~= spec_signature());
        }
        r
    }

    /// Parses a container out of raw bytes: checks the signature, then
    /// parses chunk records until the buffer is exhausted. Never returns a
    /// partial container.
    pub fn parse(bytes: &[u8]) -> (r: Result<Png, PngError>)
        ensures
            match r {
                Ok(p) => spec_parse_png(bytes@) == Ok::<Seq<ChunkModel>, PngError>(p@) && p.wf(),
                Err(e) => spec_parse_png(bytes@) == Err::<Seq<ChunkModel>, PngError>(e),
            },
    {
        let n = bytes.len();
        if n < 8 {
            return Err(PngError::BadSignature);
        }
        let sig = Png::signature();
        let mut k: usize = 0;
        while k < 8
            invariant
                k <= 8,
                8 <= n == bytes@.len(),
                sig@ == spec_signature(),
                forall|j: int| 0 <= j < k ==> bytes@[j] == spec_signature()[j],
            decreases 8 - k,
        {
            if bytes[k] != sig[k] {
                proof {
                    assert(bytes@.subrange(0, 8)[k as int] == bytes@[k as int]);
                    assert(bytes@.subrange(0, 8) != spec_signature());
                }
                return Err(PngError::BadSignature);
            }
            k = k + 1;
        }
        proof {
            assert(bytes@.subrange(0, 8) =~= spec_signature());
        }
        let mut chunks: Vec<Chunk> = Vec::new();
        let mut cursor: usize = 8;
        proof {
            assert(Seq::<ChunkModel>::empty() + (spec_parse_chunks(bytes@.skip(8))->Ok_0)
                =~= spec_parse_chunks(bytes@.skip(8))->Ok_0);
            assert(spec_models(chunks@) =~= Seq::<ChunkModel>::empty());
        }
        while cursor < n
            invariant
                8 <= cursor <= n,
                n == bytes@.len(),
                bytes@.subrange(0, 8) == spec_signature(),
                forall|i: int|
                    0 <= i < spec_models(chunks@).len() ==> (#[trigger] spec_models(
                        chunks@,
                    )[i]).wf() && spec_models(chunks@)[i].length_consistent(),
                spec_parse_chunks(bytes@.skip(8)) == spec_prepend(
                    spec_models(chunks@),
                    spec_parse_chunks(bytes@.skip(cursor as int)),
                ),
            decreases n - cursor,
        {
            let ghost rem = bytes@.skip(cursor as int);
            proof {
                assert(rem.len() == n - cursor);
            }
            if n - cursor < 12 {
                return Err(PngError::TruncatedBuffer);
            }
            let length_u32 = u32_from_be_bytes(
                bytes[cursor],
                bytes[cursor + 1],
                bytes[cursor + 2],
                bytes[cursor + 3],
            );
            proof {
                assert(seq![
                    bytes@[cursor as int],
                    bytes@[cursor + 1],
                    bytes@[cursor + 2],
                    bytes@[cursor + 3],
                ] =~= rem.subrange(0, 4));
            }
            let length = length_u32 as usize;
            if length > n - cursor - 12 {
                return Err(PngError::TruncatedBuffer);
            }
            let sub = slice_subrange(bytes, cursor, cursor + 12 + length);
            proof {
                assert(sub@ =~= rem.subrange(0, 12 + length as int));
            }
            match Chunk::parse(sub) {
                Err(e) => {
                    return Err(e);
                },
                Ok(c) => {
                    proof {
                        assert(c@.data.len() == length);
                        assert(c@.length == length_u32);
                        assert(rem.skip(12 + length as int) =~= bytes@.skip(
                            cursor + 12 + length as int,
                        ));
                        assert(spec_models(chunks@.push(c)) =~= spec_models(chunks@).push(c@));
                        let pre = spec_models(chunks@);
                        let tail = spec_parse_chunks(bytes@.skip(cursor + 12 + length as int));
                        if tail is Ok {
                            assert(pre + (seq![c@] + tail->Ok_0) =~= pre.push(c@) + tail->Ok_0);
                        }
                    }
                    chunks.push(c);
                    cursor = cursor + 12 + length;
                },
            }
        }
        proof {
            assert(bytes@.skip(cursor as int) =~= Seq::<u8>::empty());
            assert(spec_models(chunks@) + Seq::<ChunkModel>::empty() =~= spec_models(chunks@));
        }
        Ok(Png { chunks })
    }

    /// Serializes the container: the signature, then every chunk record in
    /// sequence order.
    pub fn as_bytes(&self) -> (r: Vec<u8>)
        ensures
            r@ == spec_serialize_png(self@),
    {
        let mut out: Vec<u8> = Vec::new();
        let sig = Png::signature();
        out.push(sig[0]);
        out.push(sig[1]);
        out.push(sig[2]);
        out.push(sig[3]);
        out.push(sig[4]);
        out.push(sig[5]);
        out.push(sig[6]);
        out.push(sig[7]);
        proof {
            assert(out@ =~= spec_signature() + spec_serialize_chunks(self@.take(0)));
        }
        let mut i: usize = 0;
        while i < self.chunks.len()
            invariant
                i <= self.chunks@.len(),
                self@ == spec_models(self.chunks@),
                out@ == spec_signature() + spec_serialize_chunks(self@.take(i as int)),
            decreases self.chunks@.len() - i,
        {
            let mut cb = self.chunks[i].as_bytes();
            out.append(&mut cb);
            proof {
                lemma_serialize_chunks_snoc(self@.take(i as int), self@[i as int]);
                assert(self@.take(i + 1) =~= self@.take(i as int).push(self@[i as int]));
                assert(out@ =~= spec_signature() + spec_serialize_chunks(self@.take(i + 1)));
            }
            i = i + 1;
        }
        proof {
            assert(self@.take(i as int) =~= self@);
        }
        out
    }

    /// Returns the first chunk whose type renders as the given name, if any.
    pub fn chunk_by_type(&self, chunk_type: &str) -> (r: Option<&Chunk>)
        ensures
            match r {
                Some(c) => spec_first_match(self@, chunk_type@) == Some(c@),
                None => spec_first_match(self@, chunk_type@) == None::<ChunkModel>,
            },
    {
        let mut i: usize = 0;
        while i < self.chunks.len()
            invariant
                i <= self.chunks@.len(),
                self@ == spec_models(self.chunks@),
                forall|j: int|
                    0 <= j < i ==> !spec_matches_type(#[trigger] self@[j], chunk_type@),
            decreases self.chunks@.len() - i,
        {
            if self.chunks[i].chunk_type().matches_name(chunk_type) {
                proof {
                    lemma_find_index_at(self@, chunk_type@, i as int);
                }
                return Some(&self.chunks[i]);
            }
            i = i + 1;
        }
        proof {
            lemma_find_index_none(self@, chunk_type@);
        }
        None
    }

    /// Inserts a chunk immediately before the last element of the sequence
    /// (conventionally the terminal image-end marker); into an empty
    /// container the chunk goes alone.
    pub fn append_chunk(&mut self, chunk: Chunk)
        ensures
            final(self)@ == spec_append(old(self)@, chunk@),
            old(self).wf() && chunk@.wf() && chunk@.length_consistent() ==> final(self).wf(),
    {
        if self.chunks.len() == 0 {
            self.chunks.push(chunk);
            proof {
                assert(self@ =~= spec_append(old(self)@, self.chunks@[0]@));
            }
        } else {
            let idx = self.chunks.len() - 1;
            let ghost m = chunk@;
            self.chunks.insert(idx, chunk);
            proof {
                assert(self@ =~= spec_append(old(self)@, m));
            }
        }
    }

    /// Removes and returns the first chunk whose type renders as the given
    /// name; if none matches, fails and leaves the sequence untouched.
    pub fn remove_chunk(&mut self, chunk_type: &str) -> (r: Result<Chunk, PngError>)
        ensures
            match r {
                Ok(c) => spec_find_index(old(self)@, chunk_type@) matches Some(i)
                    && c@ == old(self)@[i] && final(self)@ == old(self)@.remove(i)
                    && (old(self).wf() ==> final(self).wf()),
                Err(e) => e == PngError::ChunkNotFound
                    && spec_find_index(old(self)@, chunk_type@) == None::<int>
                    && final(self)@ == old(self)@,
            },
    {
        let mut i: usize = 0;
        while i < self.chunks.len()
            invariant
                i <= self.chunks@.len(),
                self.chunks@ == old(self).chunks@,
                forall|j: int|
                    0 <= j < i ==> !spec_matches_type(#[trigger] self@[j], chunk_type@),
            decreases self.chunks@.len() - i,
        {
            if self.chunks[i].chunk_type().matches_name(chunk_type) {
                proof {
                    lemma_find_index_at(self@, chunk_type@, i as int);
                }
                let c = self.chunks.remove(i);
                proof {
                    assert(self@ =~= old(self)@.remove(i as int));
                    if old(self).wf() {
                        assert forall|j: int| 0 <= j < self@.len() implies (
                        #[trigger] self@[j]).wf() && self@[j].length_consistent() by {
                            if j < i {
                                assert(self@[j] == old(self)@[j]);
                            } else {
                                assert(self@[j] == old(self)@[j + 1]);
                            }
                        }
                    }
                }
                return Ok(c);
            }
            i = i + 1;
        }
        proof {
            lemma_find_index_none(self@, chunk_type@);
        }
        Err(PngError::ChunkNotFound)
    }
}

} // verus!
