//! End-to-end conversion tests on hand-built WOFF files.

use std::io::Write;

use woff2otf::woff2otf;
use woff2otf::ConvertError;

const WOFF_MAGIC: u32 = 0x774F4646;
const FLAVOUR_TTF: u32 = 0x00010000;

fn push32(out: &mut Vec<u8>, v: u32) {
    out.extend_from_slice(&v.to_be_bytes());
}

fn push16(out: &mut Vec<u8>, v: u16) {
    out.extend_from_slice(&v.to_be_bytes());
}

/// A WOFF directory entry for the builder: tag, stored bytes, declared
/// original length, checksum.
struct Table {
    tag: u32,
    stored: Vec<u8>,
    orig_length: u32,
    checksum: u32,
}

fn build_woff(tables: &[Table]) -> Vec<u8> {
    build_woff_with_magic(WOFF_MAGIC, tables)
}

fn build_woff_with_magic(magic: u32, tables: &[Table]) -> Vec<u8> {
    let mut dir = Vec::new();
    let mut data = Vec::new();
    let data_start = 44 + 20 * tables.len() as u32;
    for t in tables {
        push32(&mut dir, t.tag);
        push32(&mut dir, data_start + data.len() as u32);
        push32(&mut dir, t.stored.len() as u32);
        push32(&mut dir, t.orig_length);
        push32(&mut dir, t.checksum);
        data.extend_from_slice(&t.stored);
    }
    let mut out = Vec::new();
    push32(&mut out, magic);
    push32(&mut out, FLAVOUR_TTF);
    push32(&mut out, (44 + dir.len() + data.len()) as u32);
    push16(&mut out, tables.len() as u16);
    push16(&mut out, 0);
    push32(&mut out, 0);
    push16(&mut out, 0);
    push16(&mut out, 0);
    push32(&mut out, 0);
    push32(&mut out, 0);
    push32(&mut out, 0);
    push32(&mut out, 0);
    push32(&mut out, 0);
    out.extend_from_slice(&dir);
    out.extend_from_slice(&data);
    out
}

fn zlib_compress(data: &[u8]) -> Vec<u8> {
    let mut enc = flate2::write::ZlibEncoder::new(Vec::new(), flate2::Compression::default());
    enc.write_all(data).unwrap();
    enc.finish().unwrap()
}

#[test]
fn converts_single_stored_table() {
    let input = build_woff(&[Table {
        tag: 0x74657374,
        stored: vec![1, 2, 3, 4],
        orig_length: 4,
        checksum: 0xAABBCCDD,
    }]);
    let out = woff2otf(&input).unwrap();

    let mut expected = Vec::new();
    push32(&mut expected, FLAVOUR_TTF);
    push16(&mut expected, 1);
    push16(&mut expected, 16); // searchRange = 2^0 * 16
    push16(&mut expected, 0); // entrySelector
    push16(&mut expected, 0); // rangeShift
    push32(&mut expected, 0x74657374);
    push32(&mut expected, 0xAABBCCDD);
    push32(&mut expected, 28); // 12-byte header + one 16-byte record
    push32(&mut expected, 4);
    expected.extend_from_slice(&[1, 2, 3, 4]);
    assert_eq!(out, expected);
}

#[test]
fn pads_table_to_four_byte_boundary() {
    let input = build_woff(&[Table {
        tag: 1,
        stored: vec![9, 8, 7],
        orig_length: 3,
        checksum: 0,
    }]);
    let out = woff2otf(&input).unwrap();
    assert_eq!(out.len(), 32); // table ends at 31, padded to 32
    assert_eq!(&out[28..32], &[9, 8, 7, 0]);
}

#[test]
fn offsets_are_aligned_and_monotonic() {
    let input = build_woff(&[
        Table { tag: 1, stored: vec![1, 2, 3], orig_length: 3, checksum: 0 },
        Table { tag: 2, stored: vec![4, 5, 6, 7, 8], orig_length: 5, checksum: 0 },
        Table { tag: 3, stored: vec![9], orig_length: 1, checksum: 0 },
    ]);
    let out = woff2otf(&input).unwrap();
    let mut offsets = Vec::new();
    for i in 0..3usize {
        let base = 12 + 16 * i;
        let off = u32::from_be_bytes([out[base + 8], out[base + 9], out[base + 10], out[base + 11]]);
        offsets.push(off);
    }
    assert_eq!(offsets, vec![60, 64, 72]);
    for off in &offsets {
        assert_eq!(off % 4, 0);
    }
    assert!(offsets[0] < offsets[1] && offsets[1] < offsets[2]);
    // directory order is preserved: first table's bytes come first
    assert_eq!(&out[60..63], &[1, 2, 3]);
    assert_eq!(out.len(), 76); // last table ends at 73, padded to 76
}

#[test]
fn checksum_is_passed_through_unchanged() {
    let input = build_woff(&[Table {
        tag: 7,
        stored: vec![0; 8],
        orig_length: 8,
        checksum: 0xDEADBEEF,
    }]);
    let out = woff2otf(&input).unwrap();
    assert_eq!(&out[16..20], &0xDEADBEEFu32.to_be_bytes());
}

#[test]
fn decompresses_compressed_table() {
    let payload: Vec<u8> = (0u8..=99).collect();
    let compressed = zlib_compress(&payload);
    assert_ne!(compressed.len(), payload.len());
    let input = build_woff(&[Table {
        tag: 2,
        stored: compressed,
        orig_length: payload.len() as u32,
        checksum: 5,
    }]);
    let out = woff2otf(&input).unwrap();
    assert_eq!(&out[28..128], payload.as_slice());
}

#[test]
fn stored_table_is_copied_verbatim_even_if_compressible() {
    let payload = vec![0u8; 64]; // highly compressible, but stored raw
    let input = build_woff(&[Table {
        tag: 2,
        stored: payload.clone(),
        orig_length: 64,
        checksum: 0,
    }]);
    let out = woff2otf(&input).unwrap();
    assert_eq!(&out[28..92], payload.as_slice());
}

#[test]
fn search_fields_for_eleven_tables() {
    let tables: Vec<Table> = (0..11)
        .map(|i| Table { tag: i, stored: vec![0, 0, 0, 0], orig_length: 4, checksum: 0 })
        .collect();
    let input = build_woff(&tables);
    let out = woff2otf(&input).unwrap();
    let num_tables = u16::from_be_bytes([out[4], out[5]]);
    let search_range = u16::from_be_bytes([out[6], out[7]]);
    let entry_selector = u16::from_be_bytes([out[8], out[9]]);
    let range_shift = u16::from_be_bytes([out[10], out[11]]);
    assert_eq!(num_tables, 11);
    assert_eq!(search_range, 128);
    assert_eq!(entry_selector, 3);
    assert_eq!(range_shift, 48);
}

#[test]
fn search_params_brackets_table_count() {
    let (sr, es, rs) = woff2otf::convert::search_params(1);
    assert_eq!((sr, es, rs), (16, 0, 0));
    let (sr, es, rs) = woff2otf::convert::search_params(2);
    assert_eq!((sr, es, rs), (32, 1, 0));
    let (sr, es, rs) = woff2otf::convert::search_params(16);
    assert_eq!((sr, es, rs), (256, 4, 0));
    let (sr, es, rs) = woff2otf::convert::search_params(65535);
    assert_eq!((sr, es, rs), (524288, 15, 65535 * 16 - 524288));
    let (sr, es, rs) = woff2otf::convert::search_params(0);
    assert_eq!((sr, es, rs), (0, 0, 0));
}

#[test]
fn empty_directory_yields_bare_header() {
    let input = build_woff(&[]);
    let out = woff2otf(&input).unwrap();
    let mut expected = Vec::new();
    push32(&mut expected, FLAVOUR_TTF);
    push16(&mut expected, 0);
    push16(&mut expected, 0);
    push16(&mut expected, 0);
    push16(&mut expected, 0);
    assert_eq!(out, expected);
}

#[test]
fn full_conversion_matches_reference_bytes() {
    // Two tables, the first compressed, the second stored with padding:
    // the whole output is compared against independently assembled bytes.
    let glyf: Vec<u8> = (0u8..30).collect();
    let compressed = zlib_compress(&glyf);
    assert_ne!(compressed.len(), glyf.len());
    let head: Vec<u8> = vec![0xAA; 6];
    let input = build_woff(&[
        Table {
            tag: 0x676C7966,
            stored: compressed,
            orig_length: 30,
            checksum: 0x11111111,
        },
        Table { tag: 0x68656164, stored: head.clone(), orig_length: 6, checksum: 0x22222222 },
    ]);
    let out = woff2otf(&input).unwrap();

    let mut expected = Vec::new();
    push32(&mut expected, FLAVOUR_TTF);
    push16(&mut expected, 2);
    push16(&mut expected, 32); // searchRange = 2^1 * 16
    push16(&mut expected, 1); // entrySelector
    push16(&mut expected, 0); // rangeShift
    // first record: starts after the 44-byte header and directory
    push32(&mut expected, 0x676C7966);
    push32(&mut expected, 0x11111111);
    push32(&mut expected, 44);
    push32(&mut expected, 30);
    // second record: 44 + 30 = 74, padded up to 76
    push32(&mut expected, 0x68656164);
    push32(&mut expected, 0x22222222);
    push32(&mut expected, 76);
    push32(&mut expected, 6);
    expected.extend_from_slice(&glyf);
    expected.extend_from_slice(&[0, 0]); // padding to 76
    expected.extend_from_slice(&head);
    expected.extend_from_slice(&[0, 0]); // padding to 84
    assert_eq!(out, expected);
}

#[test]
fn rejects_bad_signature() {
    let input = build_woff_with_magic(0x774F4632, &[]);
    assert_eq!(woff2otf(&input), Err(ConvertError::InvalidSignature));
}

#[test]
fn rejects_input_truncated_mid_header() {
    let input = build_woff(&[]);
    assert_eq!(woff2otf(&input[..20]), Err(ConvertError::TruncatedInput));
    assert_eq!(woff2otf(&[]), Err(ConvertError::TruncatedInput));
}

#[test]
fn rejects_input_truncated_mid_directory() {
    let input = build_woff(&[Table { tag: 1, stored: vec![1], orig_length: 1, checksum: 0 }]);
    assert_eq!(woff2otf(&input[..50]), Err(ConvertError::TruncatedInput));
}

#[test]
fn rejects_input_truncated_mid_payload() {
    let input = build_woff(&[Table {
        tag: 1,
        stored: vec![1, 2, 3, 4, 5, 6, 7, 8],
        orig_length: 8,
        checksum: 0,
    }]);
    assert_eq!(woff2otf(&input[..input.len() - 3]), Err(ConvertError::TruncatedInput));
}

#[test]
fn rejects_corrupt_compressed_data() {
    let input = build_woff(&[Table {
        tag: 1,
        stored: vec![0xFF, 0xFE, 0xFD, 0xFC, 0xFB],
        orig_length: 100,
        checksum: 0,
    }]);
    assert_eq!(woff2otf(&input), Err(ConvertError::DecompressionFailure));
}

#[test]
fn rejects_compressed_data_shorter_than_declared() {
    let compressed = zlib_compress(&[1, 2, 3, 4, 5]);
    let input = build_woff(&[Table {
        tag: 1,
        stored: compressed,
        orig_length: 10,
        checksum: 0,
    }]);
    assert_eq!(woff2otf(&input), Err(ConvertError::DecompressionFailure));
}

#[test]
fn rejects_output_beyond_offset_space() {
    let input = build_woff(&[
        Table { tag: 1, stored: Vec::new(), orig_length: 0xFFFFFFFF, checksum: 0 },
        Table { tag: 2, stored: Vec::new(), orig_length: 0xFFFFFFFF, checksum: 0 },
    ]);
    assert_eq!(woff2otf(&input), Err(ConvertError::OutputTooLarge));
}
