//! Tests of the big-endian field readers and writers.

use woff2otf::read_u16_be;
use woff2otf::read_u32_be;
use woff2otf::write_u16_be;
use woff2otf::write_u32_be;
use woff2otf::ConvertError;

#[test]
fn reads_u32_and_advances() {
    let data = [0x12, 0x34, 0x56, 0x78, 0x9A, 0xBC, 0xDE, 0xF0];
    let mut pos = 0usize;
    assert_eq!(read_u32_be(&data, &mut pos), Ok(0x12345678));
    assert_eq!(pos, 4);
    assert_eq!(read_u32_be(&data, &mut pos), Ok(0x9ABCDEF0));
    assert_eq!(pos, 8);
    assert_eq!(read_u32_be(&data, &mut pos), Err(ConvertError::TruncatedInput));
    assert_eq!(pos, 8);
}

#[test]
fn reads_u16_and_advances() {
    let data = [0xFF, 0x01, 0x02];
    let mut pos = 0usize;
    assert_eq!(read_u16_be(&data, &mut pos), Ok(0xFF01));
    assert_eq!(pos, 2);
    assert_eq!(read_u16_be(&data, &mut pos), Err(ConvertError::TruncatedInput));
    assert_eq!(pos, 2);
}

#[test]
fn writes_big_endian_bytes() {
    let mut out = Vec::new();
    write_u32_be(&mut out, 0x01020304);
    write_u16_be(&mut out, 0xA0B0);
    assert_eq!(out, vec![0x01, 0x02, 0x03, 0x04, 0xA0, 0xB0]);
}

#[test]
fn write_then_read_round_trips() {
    let mut out = Vec::new();
    write_u32_be(&mut out, 0xCAFEBABE);
    write_u16_be(&mut out, 0x1234);
    let mut pos = 0usize;
    assert_eq!(read_u32_be(&out, &mut pos), Ok(0xCAFEBABE));
    assert_eq!(read_u16_be(&out, &mut pos), Ok(0x1234));
}
