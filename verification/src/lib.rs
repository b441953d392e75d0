//! PNG chunk manipulation: a binary codec for the PNG container format,
//! used to store and retrieve byte payloads under 4-character chunk-type
//! tags.

pub mod args;
pub mod chunk;
pub mod commands;
pub mod chunk_type;
pub mod crc;
pub mod error;
pub mod png;
mod text;

pub use args::{DecodeArgs, EncodeArgs, PngMeArgs, PrintArgs, RemoveArgs};
pub use chunk::Chunk;
pub use chunk_type::{ChunkType, ChunkTypeError};
pub use commands::{process, remove_command, ProcessOutcome};
pub use error::PngError;
pub use png::{append, remove, PngContainer};
