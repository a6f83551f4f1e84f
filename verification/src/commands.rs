//! The computational core of each command: byte buffer in, byte buffer (or
//! text) out. Reading and writing files is the caller's business.

use crate::args::{Decode, Encode, Remove};
use crate::chunk::{Chunk, ChunkModel};
use crate::chunk_type::{spec_valid_type_text, ChunkType};
use crate::crc::spec_crc32;
use crate::png::{
    spec_append, spec_find_index, spec_first_match, spec_parse_png, spec_serialize_png, Png,
};
use crate::text::spec_chars_of;
use crate::PngError;
use vstd::prelude::*;
use vstd::string::{StrSliceExecFns, StringSliceAdditionalSpecFns};

verus! {

/// The chunk that an encode command embeds: the message bytes under the
/// requested type, with the checksum over both.
pub open spec fn spec_encoded_chunk(args: &Encode) -> ChunkModel {
    ChunkModel {
        length: vstd::utf8::encode_utf8(args.message@).len() as u32,
        ctype: vstd::utf8::encode_utf8(args.chunktype@),
        data: vstd::utf8::encode_utf8(args.message@),
        crc: spec_crc32(
            vstd::utf8::encode_utf8(args.chunktype@) + vstd::utf8::encode_utf8(args.message@),
        ),
    }
}

/// Embeds a message in a PNG stream: parses the container, builds a chunk
/// of the requested type around the message bytes, appends it before the
/// terminal chunk, and serializes the result.
pub fn encode(input: &[u8], args: &Encode) -> (r: Result<Vec<u8>, PngError>)
    requires
        vstd::utf8::encode_utf8(args.message@).len() <= u32::MAX,
    ensures
        match r {
            Ok(out) => {
                &&& spec_parse_png(input@) is Ok
                &&& spec_valid_type_text(vstd::utf8::encode_utf8(args.chunktype@))
                &&& out@ == spec_serialize_png(
                    spec_append(spec_parse_png(input@)->Ok_0, spec_encoded_chunk(args)),
                )
            },
            Err(e) => match spec_parse_png(input@) {
                Err(pe) => e == pe,
                Ok(_) => {
                    &&& !spec_valid_type_text(vstd::utf8::encode_utf8(args.chunktype@))
                    &&& e == (if vstd::utf8::encode_utf8(args.chunktype@).len() != 4 {
                        PngError::InvalidFormat
                    } else {
                        PngError::InvalidCharacter
                    })
                },
            },
        },
{
    let mut png = match Png::parse(input) {
        Ok(p) => p,
        Err(e) => {
            return Err(e);
        },
    };
    let chunktype = match ChunkType::from_str(args.chunktype.as_str()) {
        Ok(t) => t,
        Err(e) => {
            return Err(e);
        },
    };
    let data: Vec<u8> = args.message.as_str().as_bytes_vec();
    let chunk = Chunk::new(chunktype, data);
    png.append_chunk(chunk);
    Ok(png.as_bytes())
}

/// Extracts the message stored under a chunk type: parses the container and
/// renders the data of the first matching chunk as text, if one exists.
pub fn decode(input: &[u8], args: &Decode) -> (r: Result<Option<String>, PngError>)
    ensures
        match r {
            Ok(found) => spec_parse_png(input@) is Ok && (match found {
                Some(s) => spec_first_match(
                    spec_parse_png(input@)->Ok_0,
                    args.chunktype@,
                ) matches Some(m) && s@ == spec_chars_of(m.data),
                None => spec_first_match(spec_parse_png(input@)->Ok_0, args.chunktype@)
                    == None::<ChunkModel>,
            }),
            Err(e) => spec_parse_png(input@) == Err::<Seq<ChunkModel>, PngError>(e),
        },
{
    let png = match Png::parse(input) {
        Ok(p) => p,
        Err(e) => {
            return Err(e);
        },
    };
    match png.chunk_by_type(args.chunktype.as_str()) {
        Some(chunk) => {
            let text = chunk.data_as_string()?;
            Ok(Some(text))
        },
        None => Ok(None),
    }
}

/// Removes the first chunk with the given type from a PNG stream: parses
/// the container, takes the chunk out, and returns the re-serialized stream
/// together with the removed chunk's data rendered as text.
pub fn remove(input: &[u8], args: &Remove) -> (r: Result<(Vec<u8>, String), PngError>)
    ensures
        match r {
            Ok(out) => {
                &&& spec_parse_png(input@) is Ok
                &&& spec_find_index(
                    spec_parse_png(input@)->Ok_0,
                    args.chunktype@,
                ) matches Some(i) && out.1@ == spec_chars_of(
                    (spec_parse_png(input@)->Ok_0)[i].data,
                ) && out.0@ == spec_serialize_png((spec_parse_png(input@)->Ok_0).remove(i))
            },
            Err(e) => match spec_parse_png(input@) {
                Err(pe) => e == pe,
                Ok(chunks) => e == PngError::ChunkNotFound && spec_find_index(
                    chunks,
                    args.chunktype@,
                ) == None::<int>,
            },
        },
{
    let mut png = match Png::parse(input) {
        Ok(p) => p,
        Err(e) => {
            return Err(e);
        },
    };
    match png.remove_chunk(args.chunktype.as_str()) {
        Ok(chunk) => {
            let text = chunk.data_as_string()?;
            Ok((png.as_bytes(), text))
        },
        Err(e) => Err(e),
    }
}

} // verus!
