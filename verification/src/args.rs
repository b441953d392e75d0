//! The four commands and their arguments, as plain values. Reading the
//! command line and the files it names is the caller's concern; the
//! library receives these records together with the file's bytes.

use vstd::prelude::*;

verus! {

/// One command to run over one PNG file.
pub enum PngMeArgs {
    Encode(EncodeArgs),
    Decode(DecodeArgs),
    Remove(RemoveArgs),
    Print(PrintArgs),
}

/// Store `message` under the chunk type `chunk`, writing the result to
/// `output_file` when one is given.
#[derive(Debug)]
pub struct EncodeArgs {
    pub path: String,
    pub chunk: String,
    pub message: String,
    pub output_file: Option<String>,
}

/// Read back the message stored under the chunk type `chunk`.
#[derive(Debug)]
pub struct DecodeArgs {
    pub path: String,
    pub chunk: String,
}

/// Strip the first chunk of type `chunk`.
#[derive(Debug)]
pub struct RemoveArgs {
    pub path: String,
    pub chunk: String,
}

/// List the chunk types present in the file.
#[derive(Debug)]
pub struct PrintArgs {
    pub path: String,
}

} // verus!
