use pngme::{ChunkType, ChunkTypeError};
use std::convert::TryFrom;
use std::str::FromStr;

#[test]
pub fn test_chunk_type_from_bytes() {
    let expected = [82, 117, 83, 116];
    let actual = ChunkType::try_from([82, 117, 83, 116]).unwrap();

    assert_eq!(expected, actual.bytes());
}

#[test]
pub fn test_chunk_type_from_str() {
    let expected = ChunkType::try_from([82, 117, 83, 116]).unwrap();
    let actual = ChunkType::from_str("RuSt").unwrap();
    assert_eq!(expected, actual);
}

#[test]
pub fn test_chunk_type_is_critical() {
    let chunk = ChunkType::from_str("RuSt").unwrap();
    assert!(chunk.is_critical());
}

#[test]
pub fn test_chunk_type_is_not_critical() {
    let chunk = ChunkType::from_str("ruSt").unwrap();
    assert!(!chunk.is_critical());
}

#[test]
pub fn test_chunk_type_is_public() {
    let chunk = ChunkType::from_str("RUSt").unwrap();
    assert!(chunk.is_public());
}

#[test]
pub fn test_chunk_type_is_not_public() {
    let chunk = ChunkType::from_str("RuSt").unwrap();
    assert!(!chunk.is_public());
}

#[test]
pub fn test_chunk_type_is_reserved_bit_valid() {
    let chunk = ChunkType::from_str("RuSt").unwrap();
    assert!(chunk.is_reserved_bit_valid());
}

#[test]
pub fn test_chunk_type_is_reserved_bit_invalid() {
    let chunk = ChunkType::from_str("Rust").unwrap();
    assert!(!chunk.is_reserved_bit_valid());
}

#[test]
pub fn test_chunk_type_is_safe_to_copy() {
    let chunk = ChunkType::from_str("RuSt").unwrap();
    assert!(chunk.is_safe_to_copy());
}

#[test]
pub fn test_chunk_type_is_unsafe_to_copy() {
    let chunk = ChunkType::from_str("RuST").unwrap();
    assert!(!chunk.is_safe_to_copy());
}

#[test]
pub fn test_valid_chunk_is_valid() {
    let chunk = ChunkType::from_str("RuSt").unwrap();
    assert!(chunk.is_valid());
}

#[test]
pub fn test_invalid_chunk_is_valid() {
    let chunk = ChunkType::from_str("Rust").unwrap();
    assert!(!chunk.is_valid());

    let chunk = ChunkType::from_str("Ru1t");
    assert!(chunk.is_err());
}

#[test]
pub fn test_chunk_type_string() {
    let chunk = ChunkType::from_str("RuSt").unwrap();
    assert_eq!(&chunk.to_string(), "RuSt");
}

#[test]
pub fn test_chunk_type_trait_impls() {
    let chunk_type_1: ChunkType = TryFrom::try_from([82, 117, 83, 116]).unwrap();
    let chunk_type_2: ChunkType = FromStr::from_str("RuSt").unwrap();
    let _chunk_string = chunk_type_1.to_string();
    let _are_chunks_equal = chunk_type_1 == chunk_type_2;
}

#[test]
fn tag_properties_of_rust_spellings() {
    let t = ChunkType::from_str("RuSt").unwrap();
    assert!(t.is_critical());
    assert!(!t.is_public());
    assert!(t.is_reserved_bit_valid());
    assert!(t.is_safe_to_copy());
    assert!(t.is_valid());

    let t = ChunkType::from_str("RuST").unwrap();
    assert!(!t.is_safe_to_copy());

    let t = ChunkType::from_str("Rust").unwrap();
    assert!(!t.is_reserved_bit_valid());
    assert!(!t.is_valid());
}

#[test]
fn lower_case_z_is_a_letter() {
    let t = ChunkType::from_str("zzZz").unwrap();
    assert!(t.is_valid());
    let t = ChunkType::try_from([b'a', b'z', b'Z', b'z']).unwrap();
    assert!(t.is_valid());
}

#[test]
fn bytes_that_are_not_letters_make_an_invalid_tag() {
    let t = ChunkType::try_from([b'R', b'u', b'S', b'{']).unwrap();
    assert!(!t.is_valid());
    let t = ChunkType::try_from([b'R', b'@', b'S', b't']).unwrap();
    assert!(!t.is_valid());
}

#[test]
fn text_of_wrong_length_is_refused() {
    assert_eq!(ChunkType::from_str("RuStx"), Err(ChunkTypeError::ByteLengthError(5)));
    assert_eq!(ChunkType::from_str(""), Err(ChunkTypeError::ByteLengthError(0)));
    // "é" takes two bytes, so this text has four bytes but only three characters.
    assert_eq!(ChunkType::from_str("Ru\u{e9}"), Err(ChunkTypeError::InvalidCharacter));
}

#[test]
fn text_with_a_non_letter_is_refused() {
    assert_eq!(ChunkType::from_str("Ru1t"), Err(ChunkTypeError::InvalidCharacter));
    assert_eq!(ChunkType::from_str("Ru t"), Err(ChunkTypeError::InvalidCharacter));
}

#[test]
fn tag_text_of_bytes_that_are_not_utf8_is_none() {
    let t = ChunkType::try_from([0xff, b'u', b'S', b't']).unwrap();
    assert_eq!(t.to_text(), None);
    let t = ChunkType::try_from([82, 117, 83, 116]).unwrap();
    assert_eq!(t.to_text(), Some(String::from("RuSt")));
}

#[test]
fn tag_error_messages() {
    assert_eq!(
        ChunkTypeError::ByteLengthError(17).to_string(),
        "Expected 4 bytes but received 17 when creating chunk type"
    );
    assert_eq!(
        ChunkTypeError::InvalidCharacter.to_string(),
        "Input contains one or more invalid characters"
    );
}
