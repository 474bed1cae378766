use std::convert::TryFrom;

use png_chunk::chunk_type::ChunkType;
use png_chunk::error::Error;
use png_chunk::text::{push_bytes, push_decimal};
use png_chunk::wire::{push_be_u32, read_be_u32, split_record, write_record};

#[test]
fn read_be_u32_puts_the_first_byte_highest() {
    assert_eq!(read_be_u32(&[0, 0, 0, 42], 0), 42);
    assert_eq!(read_be_u32(&[1, 2, 3, 4], 0), 0x01020304);
    assert_eq!(read_be_u32(&[9, 0xff, 0xff, 0xff, 0xff], 1), u32::MAX);
    assert_eq!(read_be_u32(&[9, 9, 0x80, 0, 0, 0, 9], 2), 0x8000_0000);
    assert_eq!(read_be_u32(&[0xab, 0xd1, 0xd8, 0x4e], 0), 2882656334);
}

#[test]
fn push_be_u32_appends_four_bytes() {
    let mut out = vec![7u8];
    push_be_u32(&mut out, 0x01020304);
    assert_eq!(out, vec![7, 1, 2, 3, 4]);
    push_be_u32(&mut out, 0);
    push_be_u32(&mut out, u32::MAX);
    assert_eq!(out, vec![7, 1, 2, 3, 4, 0, 0, 0, 0, 255, 255, 255, 255]);
}

#[test]
fn be_u32_read_and_push_agree_with_std() {
    for x in [0u32, 1, 255, 256, 65535, 65536, 0x00ff_ffff, 0x0100_0000, 2882656334, u32::MAX] {
        let mut out = Vec::new();
        push_be_u32(&mut out, x);
        assert_eq!(out, x.to_be_bytes().to_vec());
        assert_eq!(read_be_u32(&out, 0), x);
    }
}

#[test]
fn write_record_lays_out_length_type_payload_checksum() {
    let code = ChunkType::try_from(*b"RuSt").unwrap();
    let out = write_record(code, &[7], 0x01020304);
    assert_eq!(out, vec![0, 0, 0, 1, 82, 117, 83, 116, 7, 1, 2, 3, 4]);
    let out = write_record(code, &[], 5);
    assert_eq!(out, vec![0, 0, 0, 0, 82, 117, 83, 116, 0, 0, 0, 5]);
}

#[test]
fn split_record_does_not_judge_the_checksum() {
    let bytes = [0, 0, 0, 2, 82, 117, 83, 116, 7, 8, 1, 2, 3, 4, 99];
    let (code, data, crc) = split_record(&bytes).unwrap();
    assert_eq!(code.bytes(), *b"RuSt");
    assert_eq!(data, vec![7, 8]);
    assert_eq!(crc, 0x01020304);
}

#[test]
fn split_record_refuses_what_is_too_short() {
    let bytes = [0, 0, 0, 2, 82, 117, 83, 116, 7, 8, 1, 2, 3, 4];
    assert!(split_record(&bytes).is_ok());
    for n in 0..bytes.len() {
        assert_eq!(split_record(&bytes[..n]).unwrap_err(), Error::TruncatedInput);
    }
    let bytes = [0xff, 0xff, 0xff, 0xff, 82, 117, 83, 116, 0, 0, 0, 0];
    assert_eq!(split_record(&bytes).unwrap_err(), Error::TruncatedInput);
}

#[test]
fn push_decimal_writes_the_numeral() {
    let mut s = String::from("n=");
    push_decimal(&mut s, 0);
    assert_eq!(s, "n=0");
    for n in [1u64, 9, 10, 42, 99, 100, 2882656334, 4294967295, u64::MAX] {
        let mut s = String::new();
        push_decimal(&mut s, n);
        assert_eq!(s, format!("{}", n));
    }
}

#[test]
fn push_bytes_writes_each_byte_as_one_character() {
    let mut s = String::from(">");
    push_bytes(&mut s, b"RuSt");
    assert_eq!(s, ">RuSt");
    push_bytes(&mut s, &[]);
    assert_eq!(s, ">RuSt");
    push_bytes(&mut s, &[0xe9, 0x00]);
    assert_eq!(s, ">RuSt\u{e9}\u{0}");
}
