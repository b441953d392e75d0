//! What each command computes, split from the I/O around it: every
//! function here takes the file's bytes and the command's arguments,
//! and returns what the caller should write or show.

use vstd::prelude::*;
use vstd::slice::slice_to_vec;
use vstd::utf8::{decode_utf8, encode_utf8, valid_utf8};

use crate::args::{DecodeArgs, EncodeArgs, PngMeArgs, PrintArgs, RemoveArgs};
use crate::chunk::{Chunk, ChunkModel};
use crate::chunk_type::{spec_type_bytes_of_text, spec_valid_type_text, ChunkType};
use crate::error::PngError;
use crate::png::{
    lemma_first_match_unique, spec_first_match, spec_has_type, spec_parse_png, spec_png_bytes,
    PngContainer,
};

verus! {

/// What a command asks its caller to do afterwards.
#[derive(Debug, PartialEq, Eq)]
pub enum ProcessOutcome {
    /// Write `bytes` to the file at `path`.
    FileOut { path: String, bytes: Vec<u8> },
    /// Show the message decoded from the requested chunk.
    Message { text: String },
    /// Report that no chunk of the requested type exists.
    NotFound,
    /// Show one line per chunk: its type rendered as text.
    Listing { entries: Vec<String> },
    /// Nothing to write or show.
    Silent,
}

/// The chunk sequence after storing `msg` under tag text `t`: the first
/// chunk already carrying `t` has its payload replaced, else a new
/// chunk is appended.
pub open spec fn spec_chunks_after_encode(
    cs: Seq<ChunkModel>,
    t: Seq<char>,
    msg: Seq<u8>,
) -> Seq<ChunkModel> {
    if spec_has_type(cs, t) {
        cs.update(
            spec_first_match(cs, t),
            ChunkModel { type_bytes: cs[spec_first_match(cs, t)].type_bytes, data: msg },
        )
    } else {
        cs.push(ChunkModel { type_bytes: spec_type_bytes_of_text(t), data: msg })
    }
}

/// What `encode` returns: the updated file's bytes when an output path
/// asks for them, and silence otherwise; `InvalidChunkType` when a
/// fresh chunk would need an invalid tag; and the parse error itself
/// when the file does not parse.
pub open spec fn spec_encode_result(
    args: EncodeArgs,
    input: Seq<u8>,
    r: Result<ProcessOutcome, PngError>,
) -> bool {
    match spec_parse_png(input) {
        Err(e) => r == Err::<ProcessOutcome, PngError>(e),
        Ok(cs) => {
            let t = args.chunk@;
            let msg = encode_utf8(args.message@);
            if !spec_has_type(cs, t) && !spec_valid_type_text(t) {
                r == Err::<ProcessOutcome, PngError>(PngError::InvalidChunkType)
            } else {
                let cs2 = spec_chunks_after_encode(cs, t, msg);
                match args.output_file {
                    Some(p) => r matches Ok(o) && o matches ProcessOutcome::FileOut { path, bytes }
                        && path@ == p@ && bytes@ == spec_png_bytes(cs2),
                    None => r == Ok::<ProcessOutcome, PngError>(ProcessOutcome::Silent),
                }
            }
        },
    }
}

/// What `decode` returns: the text of the first matching chunk's
/// payload; `NotFound` when no chunk matches (absence is the caller's
/// decision, not an error); `InvalidEncoding` when the payload is not
/// text; and the parse error itself when the file does not parse.
pub open spec fn spec_decode_result(
    args: DecodeArgs,
    input: Seq<u8>,
    r: Result<ProcessOutcome, PngError>,
) -> bool {
    match spec_parse_png(input) {
        Err(e) => r == Err::<ProcessOutcome, PngError>(e),
        Ok(cs) => {
            let t = args.chunk@;
            if !spec_has_type(cs, t) {
                r == Ok::<ProcessOutcome, PngError>(ProcessOutcome::NotFound)
            } else {
                let m = cs[spec_first_match(cs, t)];
                if valid_utf8(m.data) {
                    r matches Ok(o) && o matches ProcessOutcome::Message { text } && text@
                        == decode_utf8(m.data)
                } else {
                    r == Err::<ProcessOutcome, PngError>(PngError::InvalidEncoding)
                }
            }
        },
    }
}

/// What `remove` returns: the file's bytes with the first matching
/// chunk stripped, to be written back over the file itself;
/// `ChunkNotFound` when no chunk matches; and the parse error itself
/// when the file does not parse.
pub open spec fn spec_remove_result(
    args: RemoveArgs,
    input: Seq<u8>,
    r: Result<ProcessOutcome, PngError>,
) -> bool {
    match spec_parse_png(input) {
        Err(e) => r == Err::<ProcessOutcome, PngError>(e),
        Ok(cs) => {
            let t = args.chunk@;
            if !spec_has_type(cs, t) {
                r == Err::<ProcessOutcome, PngError>(PngError::ChunkNotFound)
            } else {
                r matches Ok(o) && o matches ProcessOutcome::FileOut { path, bytes } && path@
                    == args.path@ && bytes@ == spec_png_bytes(cs.remove(spec_first_match(cs, t)))
            }
        },
    }
}

/// What `print` returns: one text entry per chunk, in order;
/// `InvalidEncoding` when some chunk type does not render as text; and
/// the parse error itself when the file does not parse.
pub open spec fn spec_print_result(
    input: Seq<u8>,
    r: Result<ProcessOutcome, PngError>,
) -> bool {
    match spec_parse_png(input) {
        Err(e) => r == Err::<ProcessOutcome, PngError>(e),
        Ok(cs) => {
            if forall|i: int| 0 <= i < cs.len() ==> valid_utf8((#[trigger] cs[i]).type_bytes) {
                r matches Ok(o) && o matches ProcessOutcome::Listing { entries } && entries@.len()
                    == cs.len() && forall|i: int|
                    0 <= i < cs.len() ==> (#[trigger] entries@[i])@ == decode_utf8(
                        cs[i].type_bytes,
                    )
            } else {
                r == Err::<ProcessOutcome, PngError>(PngError::InvalidEncoding)
            }
        },
    }
}

/// The one precondition a caller owes: an encoded message must fit the
/// 32-bit length field of a chunk record.
pub open spec fn spec_process_requires(args: PngMeArgs) -> bool {
    match args {
        PngMeArgs::Encode(a) => encode_utf8(a.message@).len() <= u32::MAX,
        _ => true,
    }
}

/// Runs one command against the bytes of the file it names.
pub fn process(args: PngMeArgs, input: &[u8]) -> (r: Result<ProcessOutcome, PngError>)
    requires
        spec_process_requires(args),
    ensures
        match args {
            PngMeArgs::Encode(a) => spec_encode_result(a, input@, r),
            PngMeArgs::Decode(a) => spec_decode_result(a, input@, r),
            PngMeArgs::Remove(a) => spec_remove_result(a, input@, r),
            PngMeArgs::Print(_) => spec_print_result(input@, r),
        },
{
    match args {
        PngMeArgs::Encode(a) => encode(a, input),
        PngMeArgs::Decode(a) => decode(a, input),
        PngMeArgs::Remove(a) => remove_command(a, input),
        PngMeArgs::Print(a) => print(a, input),
    }
}

/// Stores the message under the chunk type named by `args`: replaces
/// the payload of the first matching chunk, or appends a fresh chunk
/// when none matches.
pub fn encode(args: EncodeArgs, input: &[u8]) -> (r: Result<ProcessOutcome, PngError>)
    requires
        encode_utf8(args.message@).len() <= u32::MAX,
    ensures
        spec_encode_result(args, input@, r),
{
    let mut png = match PngContainer::from_bytes(input) {
        Ok(p) => p,
        Err(e) => {
            return Err(e);
        },
    };
    let msg: Vec<u8> = slice_to_vec(args.message.as_str().as_bytes());
    match png.chunk_index_by_type(args.chunk.as_str()) {
        Some(i) => {
            proof {
                lemma_first_match_unique(png@, args.chunk@, i as int);
            }
            png.set_data_at(i, msg);
        },
        None => {
            let ct = match ChunkType::from_str(args.chunk.as_str()) {
                Ok(ct) => ct,
                Err(_) => {
                    return Err(PngError::InvalidChunkType);
                },
            };
            png.append_chunk(Chunk::new(ct, msg));
        },
    }
    match args.output_file {
        Some(p) => Ok(ProcessOutcome::FileOut { path: p, bytes: png.as_bytes() }),
        None => Ok(ProcessOutcome::Silent),
    }
}

/// Reads back the message stored under the chunk type named by `args`.
pub fn decode(args: DecodeArgs, input: &[u8]) -> (r: Result<ProcessOutcome, PngError>)
    ensures
        spec_decode_result(args, input@, r),
{
    let png = match PngContainer::from_bytes(input) {
        Ok(p) => p,
        Err(e) => {
            return Err(e);
        },
    };
    match png.chunk_by_type(args.chunk.as_str()) {
        Some(c) => match c.data_as_string() {
            Ok(text) => Ok(ProcessOutcome::Message { text }),
            Err(e) => Err(e),
        },
        None => Ok(ProcessOutcome::NotFound),
    }
}

/// Strips the first chunk of the named type and hands back the file's
/// new bytes, to be written over the file itself; fails with
/// `ChunkNotFound` when no chunk matches.
pub fn remove_command(args: RemoveArgs, input: &[u8]) -> (r: Result<ProcessOutcome, PngError>)
    ensures
        spec_remove_result(args, input@, r),
{
    let mut png = match PngContainer::from_bytes(input) {
        Ok(p) => p,
        Err(e) => {
            return Err(e);
        },
    };
    match png.remove_chunk(args.chunk.as_str()) {
        Ok(_) => Ok(ProcessOutcome::FileOut { path: args.path, bytes: png.as_bytes() }),
        Err(e) => Err(e),
    }
}

/// Renders each chunk's type as one listing entry, in file order.
pub fn print(_args: PrintArgs, input: &[u8]) -> (r: Result<ProcessOutcome, PngError>)
    ensures
        spec_print_result(input@, r),
{
    let png = match PngContainer::from_bytes(input) {
        Ok(p) => p,
        Err(e) => {
            return Err(e);
        },
    };
    let chunks: &Vec<Chunk> = png.chunks();
    let mut entries: Vec<String> = Vec::new();
    let mut i: usize = 0;
    while i < chunks.len()
        invariant
            i <= png@.len(),
            spec_parse_png(input@) == Ok::<Seq<ChunkModel>, PngError>(png@),
            chunks@.len() == png@.len(),
            chunks@.map(|k: int, c: Chunk| c@) == png@,
            entries@.len() == i,
            forall|j: int| 0 <= j < i ==> valid_utf8((#[trigger] png@[j]).type_bytes),
            forall|j: int|
                0 <= j < i ==> (#[trigger] entries@[j])@ == decode_utf8(png@[j].type_bytes),
        decreases chunks@.len() - i,
    {
        proof {
            assert(chunks@.map(|k: int, c: Chunk| c@)[i as int] == chunks@[i as int]@);
        }
        let ct: ChunkType = chunks[i].chunk_type();
        match ct.to_text() {
            Ok(t) => entries.push(t),
            Err(_) => {
                proof {
                    let cs = spec_parse_png(input@)->Ok_0;
                    assert(cs == png@);
                    assert(!valid_utf8(cs[i as int].type_bytes));
                    assert(!(forall|k: int|
                        0 <= k < cs.len() ==> valid_utf8((#[trigger] cs[k]).type_bytes)));
                }
                return Err(PngError::InvalidEncoding);
            },
        }
        i = i + 1;
    }
    Ok(ProcessOutcome::Listing { entries })
}

} // verus!
