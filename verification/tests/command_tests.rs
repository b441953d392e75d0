use pngme::chunk::Chunk;
use pngme::chunk_type::ChunkType;
use pngme::commands::{decode, encode, print, remove_command, ProcessOutcome};
use pngme::error::PngError;
use pngme::png::PngContainer;
use pngme::{process, DecodeArgs, EncodeArgs, PngMeArgs, PrintArgs, RemoveArgs};

fn sample_bytes() -> Vec<u8> {
    let mut png = PngContainer::new();
    png.append_chunk(Chunk::new(
        ChunkType::from_str("oNCe").unwrap(),
        b"already here".to_vec(),
    ));
    png.as_bytes()
}

fn encode_args(chunk: &str, message: &str, output_file: Option<&str>) -> EncodeArgs {
    EncodeArgs {
        path: String::from("in.png"),
        chunk: String::from(chunk),
        message: String::from(message),
        output_file: output_file.map(String::from),
    }
}

#[test]
fn encode_appends_a_fresh_chunk_and_serializes() {
    let input = sample_bytes();
    let args = encode_args("ruSt", "hidden words", Some("out.png"));
    match encode(args, &input).unwrap() {
        ProcessOutcome::FileOut { path, bytes } => {
            assert_eq!(path, "out.png");
            let png = PngContainer::from_bytes(&bytes).unwrap();
            let found = png.chunk_by_type("ruSt").unwrap();
            assert_eq!(found.data_as_string().unwrap(), "hidden words");
            assert!(png.chunk_by_type("oNCe").is_some());
        }
        other => panic!("expected a file to write, got {:?}", other),
    }
}

#[test]
fn encode_overwrites_an_existing_chunk() {
    let input = sample_bytes();
    let args = encode_args("oNCe", "replaced", Some("out.png"));
    match encode(args, &input).unwrap() {
        ProcessOutcome::FileOut { bytes, .. } => {
            let png = PngContainer::from_bytes(&bytes).unwrap();
            assert_eq!(png.chunks().len(), 1);
            let found = png.chunk_by_type("oNCe").unwrap();
            assert_eq!(found.data_as_string().unwrap(), "replaced");
        }
        other => panic!("expected a file to write, got {:?}", other),
    }
}

#[test]
fn encode_without_output_file_is_silent() {
    let input = sample_bytes();
    let args = encode_args("ruSt", "hidden words", None);
    assert_eq!(encode(args, &input).unwrap(), ProcessOutcome::Silent);
}

#[test]
fn encode_rejects_an_invalid_fresh_tag() {
    let input = sample_bytes();
    let args = encode_args("ru5t", "hidden words", Some("out.png"));
    assert_eq!(encode(args, &input), Err(PngError::InvalidChunkType));
}

#[test]
fn encode_of_an_unparseable_file_propagates_the_error() {
    let args = encode_args("ruSt", "hidden words", Some("out.png"));
    assert_eq!(encode(args, b"not a png"), Err(PngError::InvalidSignature));
}

#[test]
fn decode_of_a_corrupt_file_propagates_checksum_mismatch() {
    let mut input = sample_bytes();
    // Corrupt one data byte of the only chunk: signature + length + type.
    input[8 + 4 + 4] ^= 0x01;
    let args = DecodeArgs { path: String::from("in.png"), chunk: String::from("oNCe") };
    assert_eq!(decode(args, &input), Err(PngError::ChecksumMismatch));
}

#[test]
fn print_of_a_truncated_file_propagates_eof() {
    let input = sample_bytes();
    let args = PrintArgs { path: String::from("in.png") };
    assert_eq!(print(args, &input[..input.len() - 1]), Err(PngError::UnexpectedEof));
}

#[test]
fn print_of_a_bad_signature_propagates_the_error() {
    let args = PrintArgs { path: String::from("in.png") };
    assert_eq!(print(args, b"junk"), Err(PngError::InvalidSignature));
}

#[test]
fn remove_command_strips_the_chunk_and_returns_the_new_file() {
    let input = sample_bytes();
    let args = RemoveArgs { path: String::from("in.png"), chunk: String::from("oNCe") };
    match remove_command(args, &input).unwrap() {
        ProcessOutcome::FileOut { path, bytes } => {
            assert_eq!(path, "in.png");
            let png = PngContainer::from_bytes(&bytes).unwrap();
            assert_eq!(png.chunks().len(), 0);
        }
        other => panic!("expected a file to write, got {:?}", other),
    }
}

#[test]
fn remove_command_of_an_absent_type_fails() {
    let input = sample_bytes();
    let args = RemoveArgs { path: String::from("in.png"), chunk: String::from("NoNe") };
    assert_eq!(remove_command(args, &input), Err(PngError::ChunkNotFound));
}

#[test]
fn remove_command_of_an_unparseable_file_propagates_the_error() {
    let args = RemoveArgs { path: String::from("in.png"), chunk: String::from("oNCe") };
    assert_eq!(remove_command(args, b"junk"), Err(PngError::InvalidSignature));
}

#[test]
fn encode_replaces_even_a_non_alphabetic_existing_type() {
    let mut png = PngContainer::new();
    png.append_chunk(Chunk::new(ChunkType::try_from(*b"ab1d").unwrap(), b"old".to_vec()));
    let input = png.as_bytes();
    let args = encode_args("ab1d", "new data", Some("out.png"));
    match encode(args, &input).unwrap() {
        ProcessOutcome::FileOut { bytes, .. } => {
            let reparsed = PngContainer::from_bytes(&bytes).unwrap();
            assert_eq!(reparsed.chunk_by_type("ab1d").unwrap().data().as_slice(), b"new data");
        }
        other => panic!("expected a file to write, got {:?}", other),
    }
}

#[test]
fn decode_finds_the_stored_message() {
    let input = sample_bytes();
    let args = DecodeArgs { path: String::from("in.png"), chunk: String::from("oNCe") };
    assert_eq!(
        decode(args, &input).unwrap(),
        ProcessOutcome::Message { text: String::from("already here") }
    );
}

#[test]
fn decode_of_an_absent_type_reports_not_found() {
    let input = sample_bytes();
    let args = DecodeArgs { path: String::from("in.png"), chunk: String::from("NoNe") };
    assert_eq!(decode(args, &input).unwrap(), ProcessOutcome::NotFound);
}

#[test]
fn decode_of_a_non_text_payload_fails() {
    let mut png = PngContainer::new();
    png.append_chunk(Chunk::new(ChunkType::from_str("BaDd").unwrap(), vec![0xFF]));
    let input = png.as_bytes();
    let args = DecodeArgs { path: String::from("in.png"), chunk: String::from("BaDd") };
    assert_eq!(decode(args, &input), Err(PngError::InvalidEncoding));
}

#[test]
fn print_lists_chunk_types_in_order() {
    let mut png = PngContainer::new();
    png.append_chunk(Chunk::new(ChunkType::from_str("FrSt").unwrap(), Vec::new()));
    png.append_chunk(Chunk::new(ChunkType::from_str("LASt").unwrap(), Vec::new()));
    let input = png.as_bytes();
    let args = PrintArgs { path: String::from("in.png") };
    assert_eq!(
        print(args, &input).unwrap(),
        ProcessOutcome::Listing { entries: vec![String::from("FrSt"), String::from("LASt")] }
    );
}

#[test]
fn process_dispatches_each_command() {
    let input = sample_bytes();
    let r = process(
        PngMeArgs::Encode(encode_args("ruSt", "via process", Some("out.png"))),
        &input,
    );
    assert!(matches!(r.unwrap(), ProcessOutcome::FileOut { .. }));

    let r = process(
        PngMeArgs::Decode(DecodeArgs { path: String::from("in.png"), chunk: String::from("oNCe") }),
        &input,
    );
    assert_eq!(r.unwrap(), ProcessOutcome::Message { text: String::from("already here") });

    let r = process(
        PngMeArgs::Remove(RemoveArgs { path: String::from("in.png"), chunk: String::from("oNCe") }),
        &input,
    );
    match r.unwrap() {
        ProcessOutcome::FileOut { path, bytes } => {
            assert_eq!(path, "in.png");
            let png = PngContainer::from_bytes(&bytes).unwrap();
            assert!(png.chunk_by_type("oNCe").is_none());
        }
        other => panic!("expected a file to write, got {:?}", other),
    }

    let r = process(PngMeArgs::Print(PrintArgs { path: String::from("in.png") }), &input);
    assert_eq!(
        r.unwrap(),
        ProcessOutcome::Listing { entries: vec![String::from("oNCe")] }
    );
}
