//! A library for manipulating PNG files at the chunk level: parsing the
//! container format into a structured representation, validating each chunk
//! against its CRC-32 checksum, inserting and removing chunks, and
//! re-serializing the structure back into a byte-exact PNG stream.

use vstd::prelude::*;

pub mod args;
pub mod chunk;
pub mod chunk_type;
pub mod codec;
pub mod commands;
pub mod crc;
pub mod png;
pub mod text;

verus! {

/// The ways in which a chunk-level PNG operation can fail.
#[derive(Debug, Clone, Copy, PartialEq, Eq, Structural)]
pub enum PngError {
    /// A chunk-type string does not have length 4.
    InvalidFormat,
    /// A chunk-type byte is outside the ASCII-letter ranges.
    InvalidCharacter,
    /// The first 8 bytes of a buffer are not the PNG signature.
    BadSignature,
    /// A chunk's stored CRC does not match the checksum recomputed
    /// over its type and data bytes.
    ChecksumMismatch { expected: u32, actual: u32 },
    /// No chunk with the requested type is present.
    ChunkNotFound,
    /// Fewer than 12 bytes remain where a full chunk record is expected.
    TruncatedBuffer,
}

} // verus!
