use pngme::chunk_type::ChunkType;

#[test]
pub fn test_chunk_type_from_bytes() {
    let expected = [82, 117, 83, 116];
    let actual = ChunkType::try_from([82, 117, 83, 116]).unwrap();

    assert_eq!(expected, actual.bytes());
}

#[test]
pub fn test_chunk_type_from_str() {
    let expected = ChunkType::try_from([82, 117, 83, 116]).unwrap();
    let actual = ChunkType::from_str("RuSt").unwrap();
    assert_eq!(expected, actual);
}

#[test]
pub fn test_chunk_type_is_critical() {
    let chunk = ChunkType::from_str("RuSt").unwrap();
    assert!(chunk.is_critical());
}

#[test]
pub fn test_chunk_type_is_not_critical() {
    let chunk = ChunkType::from_str("ruSt").unwrap();
    assert!(!chunk.is_critical());
}

#[test]
pub fn test_chunk_type_is_public() {
    let chunk = ChunkType::from_str("RUSt").unwrap();
    assert!(chunk.is_public());
}

#[test]
pub fn test_chunk_type_is_not_public() {
    let chunk = ChunkType::from_str("RuSt").unwrap();
    assert!(!chunk.is_public());
}

#[test]
pub fn test_chunk_type_is_reserved_bit_valid() {
    let chunk = ChunkType::from_str("RuSt").unwrap();
    assert!(chunk.is_reserved_bit_valid());
}

#[test]
pub fn test_chunk_type_is_reserved_bit_invalid() {
    let chunk = ChunkType::from_str("Rust").unwrap();
    assert!(!chunk.is_reserved_bit_valid());
}

#[test]
pub fn test_chunk_type_is_safe_to_copy() {
    let chunk = ChunkType::from_str("RuSt").unwrap();
    assert!(chunk.is_safe_to_copy());
}

#[test]
pub fn test_chunk_type_is_unsafe_to_copy() {
    let chunk = ChunkType::from_str("RuST").unwrap();
    assert!(!chunk.is_safe_to_copy());
}

#[test]
pub fn test_valid_chunk_is_valid() {
    let chunk = ChunkType::from_str("RuSt").unwrap();
    assert!(chunk.is_valid());
}

#[test]
pub fn test_invalid_chunk_is_valid() {
    let chunk = ChunkType::from_str("Rust").unwrap();
    assert!(!chunk.is_valid());

    let chunk = ChunkType::from_str("Ru1t");
    assert!(chunk.is_err());
}

#[test]
pub fn test_chunk_type_string() {
    let chunk = ChunkType::from_str("RuSt").unwrap();
    assert_eq!(&chunk.to_text().unwrap(), "RuSt");
}

#[test]
pub fn test_chunk_type_trait_impls() {
    let chunk_type_1: ChunkType = ChunkType::try_from([82, 117, 83, 116]).unwrap();
    let chunk_type_2: ChunkType = ChunkType::from_str("RuSt").unwrap();
    let _chunk_string = chunk_type_1.to_text().unwrap();
    let _are_chunks_equal = chunk_type_1 == chunk_type_2;
}

#[test]
fn text_round_trip_of_every_case_mix() {
    for s in ["RuSt", "ruSt", "RUSt", "rust", "ABCD", "zzzz"] {
        let ct = ChunkType::from_str(s).unwrap();
        assert_eq!(ct.to_text().unwrap(), s);
    }
}

#[test]
fn from_str_rejects_wrong_length_and_non_alphabetic() {
    assert!(ChunkType::from_str("").is_err());
    assert!(ChunkType::from_str("Rus").is_err());
    assert!(ChunkType::from_str("Rusty").is_err());
    assert!(ChunkType::from_str("Ru1t").is_err());
    assert!(ChunkType::from_str("Ru t").is_err());
    assert!(ChunkType::from_str("Ru_t").is_err());
    assert!(ChunkType::from_str("R\u{fc}st").is_err());
}

#[test]
fn raw_bytes_are_stored_verbatim() {
    let ct = ChunkType::try_from([0, 255, 32, 116]).unwrap();
    assert_eq!(ct.bytes(), [0, 255, 32, 116]);
    assert!(ct.to_text().is_err());
}
