use vstd::prelude::*;

verus! {

/// Every way a codec or container operation can fail.
#[derive(Debug, Clone, Copy, PartialEq, Eq, Structural)]
pub enum PngError {
    /// A chunk-type tag built from text is not 4 ASCII alphabetic bytes.
    InvalidChunkType,
    /// A byte buffer does not begin with the 8-byte PNG signature.
    InvalidSignature,
    /// A chunk record claims more bytes than the buffer holds.
    UnexpectedEof,
    /// The checksum trailing a chunk record does not match the one
    /// recomputed over its type and data bytes.
    ChecksumMismatch,
    /// No chunk of the requested type is present.
    ChunkNotFound,
    /// A payload is not valid UTF-8 text.
    InvalidEncoding,
}

} // verus!
