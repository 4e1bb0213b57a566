use pngme::chunk_type::ChunkType;
use pngme::error::ChunkError;
use std::str::FromStr;

#[test]
pub fn test_chunk_type_from_bytes() {
    let expected = [82, 117, 83, 116];
    let actual = ChunkType::try_from([82, 117, 83, 116]).unwrap();

    assert_eq!(expected, actual.bytes());
}

#[test]
pub fn test_chunk_type_from_str() {
    let expected = ChunkType::try_from([82, 117, 83, 116]).unwrap();
    let actual = ChunkType::from_str("RuSt").unwrap();
    assert_eq!(expected, actual);
}

#[test]
pub fn test_chunk_type_is_critical() {
    let chunk = ChunkType::from_str("RuSt").unwrap();
    assert!(chunk.is_critical());
}

#[test]
pub fn test_chunk_type_is_not_critical() {
    let chunk = ChunkType::from_str("ruSt").unwrap();
    assert!(!chunk.is_critical());
}

#[test]
pub fn test_chunk_type_is_public() {
    let chunk = ChunkType::from_str("RUSt").unwrap();
    assert!(chunk.is_public());
}

#[test]
pub fn test_chunk_type_is_not_public() {
    let chunk = ChunkType::from_str("RuSt").unwrap();
    assert!(!chunk.is_public());
}

#[test]
pub fn test_chunk_type_is_reserved_bit_valid() {
    let chunk = ChunkType::from_str("RuSt").unwrap();
    assert!(chunk.is_reserved_bit_valid());
}

#[test]
pub fn test_chunk_type_is_reserved_bit_invalid() {
    let chunk = ChunkType::from_str("Rust").unwrap();
    assert!(!chunk.is_reserved_bit_valid());
}

#[test]
pub fn test_chunk_type_is_safe_to_copy() {
    let chunk = ChunkType::from_str("RuSt").unwrap();
    assert!(chunk.is_safe_to_copy());
}

#[test]
pub fn test_chunk_type_is_unsafe_to_copy() {
    let chunk = ChunkType::from_str("RuST").unwrap();
    assert!(!chunk.is_safe_to_copy());
}

#[test]
pub fn test_valid_chunk_is_valid() {
    let chunk = ChunkType::from_str("RuSt").unwrap();
    assert!(chunk.is_valid());
}

#[test]
pub fn test_invalid_chunk_is_valid() {
    let chunk = ChunkType::from_str("Rust").unwrap();
    assert!(!chunk.is_valid());
    let chunk = ChunkType::from_str("Ru1t");
    assert!(chunk.is_err());
}

#[test]
pub fn test_chunk_type_string() {
    let chunk = ChunkType::from_str("RuSt").unwrap();
    assert_eq!(&chunk.to_string(), "RuSt");
}

#[test]
pub fn test_chunk_type_trait_impls() {
    let chunk_type_1: ChunkType = TryFrom::try_from([82, 117, 83, 116]).unwrap();
    let chunk_type_2: ChunkType = FromStr::from_str("RuSt").unwrap();
    let _chunk_string = chunk_type_1.to_string();
    let _are_chunks_equal = chunk_type_1 == chunk_type_2;
}

#[test]
fn type_flags_of_rust_codes() {
    let t = ChunkType::from_str("RuSt").unwrap();
    assert!(t.is_critical());
    assert!(!t.is_public());
    assert!(t.is_reserved_bit_valid());
    assert!(t.is_safe_to_copy());
    assert!(t.is_valid());
    let u = ChunkType::from_str("Rust").unwrap();
    assert!(!u.is_reserved_bit_valid());
    assert!(!u.is_valid());
    assert_eq!(u.bytes(), [82, 117, 115, 116]);
}

#[test]
fn type_reports_first_bad_byte() {
    assert_eq!(
        ChunkType::try_from([82, 49, 50, 116]),
        Err(ChunkError::InvalidTypeByte(49))
    );
    assert_eq!(ChunkType::from_str("Ru1t"), Err(ChunkError::InvalidTypeByte(49)));
    assert_eq!(ChunkType::from_str("a b"), Err(ChunkError::InvalidTypeByte(32)));
    assert_eq!(ChunkType::try_from([64, 65, 65, 65]), Err(ChunkError::InvalidTypeByte(64)));
    assert_eq!(ChunkType::try_from([65, 91, 65, 65]), Err(ChunkError::InvalidTypeByte(91)));
    assert_eq!(ChunkType::try_from([65, 65, 96, 65]), Err(ChunkError::InvalidTypeByte(96)));
    assert_eq!(ChunkType::try_from([65, 65, 65, 123]), Err(ChunkError::InvalidTypeByte(123)));
    assert!(ChunkType::try_from([65, 90, 97, 122]).is_ok());
}

#[test]
fn type_of_wrong_length_is_refused() {
    assert_eq!(ChunkType::from_str("RuS"), Err(ChunkError::InvalidTypeLength));
    assert_eq!(ChunkType::from_str("RuStt"), Err(ChunkError::InvalidTypeLength));
    assert_eq!(ChunkType::from_str(""), Err(ChunkError::InvalidTypeLength));
    assert_eq!(ChunkType::from_str("Ru\u{e9}"), Err(ChunkError::InvalidTypeByte(0xc3)));
}

#[test]
fn type_bit_test_and_name() {
    let t = ChunkType::from_str("RuSt").unwrap();
    assert!(t.is_nbit_set(0b0010_0000, 5));
    assert!(!t.is_nbit_set(0b1101_1111, 5));
    assert!(t.is_nbit_set(1, 0));
    assert!(t.is_nbit_set(0x80, 7));
    assert!(!t.is_nbit_set(0x7f, 7));
    assert!(t.has_name("RuSt"));
    assert!(!t.has_name("Rust"));
    assert!(!t.has_name("RuStx"));
    assert!(!t.has_name("RuS"));
    let copy = t.clone();
    assert_eq!(copy, t);
    assert_eq!(copy.bytes(), [82, 117, 83, 116]);
}
