use std::convert::TryFrom;
use std::str::FromStr;

use png_chunk::chunk_type::ChunkType;
use png_chunk::error::Error;

#[test]
pub fn test_chunk_type_from_bytes() {
    let expected = [82, 117, 83, 116];
    let actual = ChunkType::try_from([82, 117, 83, 116]).unwrap();

    assert_eq!(expected, actual.bytes());
}

#[test]
pub fn test_chunk_type_from_str() {
    let expected = ChunkType::try_from([82, 117, 83, 116]).unwrap();
    let actual = ChunkType::from_str("RuSt").unwrap();
    assert_eq!(expected, actual);
}

#[test]
pub fn test_chunk_type_from_str_not_equal() {
    let expected = ChunkType::try_from([82, 117, 83, 116]).unwrap();
    let actual = ChunkType::from_str("Rust").unwrap();
    assert_ne!(expected, actual);
}

#[test]
pub fn test_chunk_type_is_critical() {
    let chunk = ChunkType::from_str("RuSt").unwrap();
    assert!(chunk.is_critical());
}

#[test]
pub fn test_chunk_type_is_not_critical() {
    let chunk = ChunkType::from_str("ruSt").unwrap();
    assert!(!chunk.is_critical());
}

#[test]
pub fn test_valid_chunk_is_valid() {
    let chunk = ChunkType::from_str("RuSt").unwrap();
    assert!(chunk.is_valid());
}

#[test]
pub fn test_invalid_chunk_is_valid() {
    let chunk = ChunkType::from_str("Rust").unwrap();
    assert!(!chunk.is_valid());

    let chunk = ChunkType::from_str("Ru1t");
    assert!(chunk.is_err());
}

#[test]
pub fn test_chunk_type_trait_impls() {
    let chunk_type_1: ChunkType = TryFrom::try_from([82, 117, 83, 116]).unwrap();
    let chunk_type_2: ChunkType = FromStr::from_str("RuSt").unwrap();
    let _chunk_string = chunk_type_1.to_string();
    let _are_chunks_equal = chunk_type_1 == chunk_type_2;
}

#[test]
pub fn chunk_type_text_of_wrong_length_is_refused() {
    assert_eq!(ChunkType::from_str("Ru"), Err(Error::InvalidFormat));
    assert_eq!(ChunkType::from_str(""), Err(Error::InvalidFormat));
    assert_eq!(ChunkType::from_str("RuStx"), Err(Error::InvalidFormat));
}

#[test]
pub fn chunk_type_text_with_a_non_letter_is_refused() {
    assert_eq!(ChunkType::from_str("Ru1t"), Err(Error::InvalidFormat));
    assert_eq!(ChunkType::from_str("1uSt"), Err(Error::InvalidFormat));
    assert_eq!(ChunkType::from_str("RuS "), Err(Error::InvalidFormat));
    assert_eq!(ChunkType::from_str("Ru@t"), Err(Error::InvalidFormat));
    assert_eq!(ChunkType::from_str("Ru[t"), Err(Error::InvalidFormat));
    assert_eq!(ChunkType::from_str("Ru`t"), Err(Error::InvalidFormat));
    assert_eq!(ChunkType::from_str("Ru{t"), Err(Error::InvalidFormat));
}

#[test]
pub fn chunk_type_text_of_four_bytes_that_are_not_ascii_is_refused() {
    // 'R', a two-byte letter, 't': four bytes, three characters.
    assert_eq!("R\u{fc}t".len(), 4);
    assert_eq!(ChunkType::from_str("R\u{fc}t"), Err(Error::InvalidFormat));
}

#[test]
pub fn chunk_type_text_at_the_edges_of_the_alphabet_is_taken() {
    assert_eq!(ChunkType::from_str("AZaz").unwrap().bytes(), [65, 90, 97, 122]);
}

#[test]
pub fn chunk_type_from_bytes_takes_any_bytes() {
    let code = ChunkType::try_from([0, 49, 255, 32]).unwrap();
    assert_eq!(code.bytes(), [0, 49, 255, 32]);
}

#[test]
pub fn reserved_bit_needs_an_upper_case_letter() {
    assert!(ChunkType::from_str("RuSt").unwrap().is_reserved_bit_valid());
    assert!(!ChunkType::from_str("Rust").unwrap().is_reserved_bit_valid());
    // Case bit unset, but no letter.
    assert!(!ChunkType::try_from([82, 117, 0, 116]).unwrap().is_reserved_bit_valid());
    assert!(!ChunkType::try_from([82, 117, 64, 116]).unwrap().is_reserved_bit_valid());
    assert!(!ChunkType::try_from([82, 117, 91, 116]).unwrap().is_reserved_bit_valid());
    assert!(ChunkType::try_from([82, 117, 65, 116]).unwrap().is_reserved_bit_valid());
    assert!(ChunkType::try_from([82, 117, 90, 116]).unwrap().is_reserved_bit_valid());
}

#[test]
pub fn validity_is_the_reserved_bit_alone() {
    for text in ["RuSt", "ruSt", "RUST", "rust", "Rust", "ruST"] {
        let code = ChunkType::from_str(text).unwrap();
        assert_eq!(code.is_valid(), code.is_reserved_bit_valid());
        assert_eq!(code.is_valid(), text.as_bytes()[2].is_ascii_uppercase());
    }
}

#[test]
pub fn criticality_is_the_case_bit_of_the_first_byte() {
    assert!(ChunkType::try_from([0, 0, 0, 0]).unwrap().is_critical());
    assert!(!ChunkType::try_from([0x20, 0, 0, 0]).unwrap().is_critical());
    assert!(ChunkType::try_from([0xdf, 0xff, 0xff, 0xff]).unwrap().is_critical());
    assert!(!ChunkType::try_from([0xff, 0, 0, 0]).unwrap().is_critical());
}

#[test]
pub fn chunk_type_to_string_gives_the_four_characters() {
    assert_eq!(ChunkType::from_str("RuSt").unwrap().to_string(), "RuSt");
    assert_eq!(ChunkType::try_from([48, 49, 32, 126]).unwrap().to_string(), "01 ~");
    assert_eq!(ChunkType::try_from([0xe9, 65, 66, 67]).unwrap().to_string(), "\u{e9}ABC");
}

#[test]
pub fn chunk_types_are_equal_when_all_four_bytes_are() {
    let code = ChunkType::try_from([1, 2, 3, 4]).unwrap();
    assert_eq!(code, ChunkType::try_from([1, 2, 3, 4]).unwrap());
    for i in 0..4 {
        let mut other = [1, 2, 3, 4];
        other[i] ^= 0x20;
        assert_ne!(code, ChunkType::try_from(other).unwrap());
    }
}
