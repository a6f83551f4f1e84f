//! The command surface as plain data: which operation to perform and its
//! arguments. Argument parsing and file access live outside the library;
//! callers fill these records and hand them to the command cores.

use vstd::prelude::*;

verus! {

/// Embed a message under a chunk type in a PNG stream.
pub struct Encode {
    pub path: String,
    pub chunktype: String,
    pub message: String,
    pub output: Option<String>,
}

/// Extract the message stored under a chunk type.
pub struct Decode {
    pub path: String,
    pub chunktype: String,
}

/// Remove the first chunk with the given type.
pub struct Remove {
    pub path: String,
    pub chunktype: String,
}

/// Show a PNG file's raw bytes.
pub struct Print {
    pub path: String,
}

/// One of the four operations.
pub enum Commands {
    Encode(Encode),
    Decode(Decode),
    Remove(Remove),
    Print(Print),
}

/// A full command line: the chosen operation with its arguments.
pub struct Args {
    pub command: Commands,
}

} // verus!
