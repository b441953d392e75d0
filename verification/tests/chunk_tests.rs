use pngme::chunk::Chunk;
use pngme::chunk_type::ChunkType;
use pngme::error::PngError;

fn record(type_bytes: [u8; 4], data: &[u8], crc: u32) -> Vec<u8> {
    let mut out: Vec<u8> = Vec::new();
    out.extend_from_slice(&(data.len() as u32).to_be_bytes());
    out.extend_from_slice(&type_bytes);
    out.extend_from_slice(data);
    out.extend_from_slice(&crc.to_be_bytes());
    out
}

fn message_chunk() -> Chunk {
    let ct = ChunkType::from_str("RuSt").unwrap();
    let data: Vec<u8> = "This is where your secret message will be!".bytes().collect();
    Chunk::new(ct, data)
}

#[test]
fn chunk_length_and_crc_are_derived() {
    let chunk = message_chunk();
    assert_eq!(chunk.length(), 42);
    assert_eq!(chunk.crc(), 2882656334);
    assert_eq!(chunk.chunk_type().bytes(), *b"RuSt");
}

#[test]
fn crc_of_empty_payload_matches_reference_value() {
    let ct = ChunkType::from_str("IEND").unwrap();
    let chunk = Chunk::new(ct, Vec::new());
    assert_eq!(chunk.crc(), 0xAE42_6082);
}

#[test]
fn chunk_round_trip() {
    let chunk = message_chunk();
    let bytes = chunk.as_bytes();
    let reparsed = Chunk::from_bytes(&bytes).unwrap();
    assert_eq!(reparsed, chunk);
    assert_eq!(reparsed.length(), chunk.length());
    assert_eq!(reparsed.crc(), chunk.crc());
    assert_eq!(reparsed.as_bytes(), bytes);
}

#[test]
fn serialized_layout_is_exact() {
    let ct = ChunkType::from_str("FrSt").unwrap();
    let chunk = Chunk::new(ct, vec![b'a', b'b']);
    assert_eq!(chunk.as_bytes(), record(*b"FrSt", b"ab", 3201024303));
}

#[test]
fn from_bytes_rejects_wrong_checksum() {
    let bytes = record(*b"FrSt", b"ab", 3201024303 + 1);
    assert_eq!(Chunk::from_bytes(&bytes), Err(PngError::ChecksumMismatch));
}

#[test]
fn flipping_any_bit_of_type_or_data_is_caught() {
    let bytes = record(*b"FrSt", b"ab", 3201024303);
    // The type and data region: bytes 4 through 8 + L.
    for pos in 4..(8 + 2) {
        for bit in 0..8 {
            let mut mutated = bytes.clone();
            mutated[pos] ^= 1 << bit;
            assert_eq!(
                Chunk::from_bytes(&mutated),
                Err(PngError::ChecksumMismatch),
                "flip of bit {bit} at byte {pos} went unnoticed"
            );
        }
    }
}

#[test]
fn from_bytes_rejects_short_buffers() {
    let bytes = record(*b"FrSt", b"ab", 3201024303);
    for cut in 0..bytes.len() {
        assert_eq!(Chunk::from_bytes(&bytes[..cut]), Err(PngError::UnexpectedEof));
    }
}

#[test]
fn from_bytes_ignores_trailing_bytes() {
    let chunk = message_chunk();
    let mut bytes = chunk.as_bytes();
    bytes.extend_from_slice(b"trailing");
    assert_eq!(Chunk::from_bytes(&bytes).unwrap(), chunk);
}

#[test]
fn set_data_replaces_payload_and_checksum() {
    let mut chunk = message_chunk();
    chunk.set_data(vec![b'a', b'b']);
    assert_eq!(chunk.length(), 2);
    assert_eq!(chunk.crc(), 2494324146);
    assert_eq!(chunk.data().as_slice(), b"ab");
    assert_eq!(chunk.chunk_type().bytes(), *b"RuSt");
}

#[test]
fn data_as_string_decodes_utf8() {
    let ct = ChunkType::from_str("EuRo").unwrap();
    let chunk = Chunk::new(ct, vec![0xE2, 0x82, 0xAC]);
    assert_eq!(chunk.data_as_string().unwrap(), "\u{20ac}");
}

#[test]
fn data_as_string_rejects_invalid_utf8() {
    let ct = ChunkType::from_str("BaDd").unwrap();
    let chunk = Chunk::new(ct, vec![0xFF, 0x00]);
    assert_eq!(chunk.data_as_string(), Err(PngError::InvalidEncoding));
}
