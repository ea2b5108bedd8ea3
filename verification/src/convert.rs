//! The transcoder: parsing the WOFF header and directory, computing the
//! output layout, and emitting the SFNT bytes.

use vstd::prelude::*;

use vstd::arithmetic::div_mod::lemma_small_mod;
use vstd::arithmetic::power2::lemma2_to64;
use vstd::arithmetic::power2::lemma_pow2_adds;
use vstd::arithmetic::power2::pow2;

use crate::bytes::read_u16_be;
use crate::bytes::read_u32_be;
use crate::bytes::write_u16_be;
use crate::bytes::write_u32_be;
use vstd::math::min;

use crate::errors::ConvertError;
use crate::inflate::zlib_decompress;
use crate::inflate::zlib_inflate;
use crate::laws::lemma_directory_arithmetic;
use crate::laws::lemma_entry_selector_unique;
use crate::laws::lemma_pow2_le;
use crate::model::align4;
use crate::model::body_bytes;
use crate::model::dir_bytes;
use crate::model::directory_complete;
use crate::model::entries_all_stored;
use crate::model::entries_in_bounds;
use crate::model::entries_inflate_ok;
use crate::model::entry_in_bounds;
use crate::model::entry_inflate_ok;
use crate::model::entry_pad_len;
use crate::model::header_complete;
use crate::model::lemma_align4;
use crate::model::lemma_assemble_output;
use crate::model::lemma_empty_concat;
use crate::model::lemma_located_eq;
use crate::model::lemma_located_preserves;
use crate::model::located_entries;
use crate::model::spec_num_tables;
use crate::model::offsets_fit;
use crate::model::signature_ok;
use crate::model::sfnt_output;
use crate::model::spec_entries;
use crate::model::table_payload;
use crate::model::zeros;
use crate::model::WOFF_MAGIC;
use crate::model::sfnt_entry_selector;
use crate::model::sfnt_header_bytes;
use crate::model::spec_entries_n;
use crate::model::spec_entry;
use crate::model::spec_header;
use crate::model::spec_range_shift;
use crate::model::spec_search_range;
use crate::model::table_end;
use crate::model::table_start;
use crate::model::trunc_u32;
use crate::model::with_otf_offset;
use crate::model::TableDirectoryEntry;
use crate::model::WoffHeader;

verus! {

/// Parses the 44-byte WOFF header at the start of `input`; fails when the
/// input is shorter than a header.
pub fn parse_header(input: &[u8]) -> (r: Result<WoffHeader, ConvertError>)
    ensures
        input@.len() >= 44 ==> r == Ok::<WoffHeader, ConvertError>(spec_header(input@)),
        input@.len() < 44 ==> r == Err::<WoffHeader, ConvertError>(ConvertError::TruncatedInput),
{
    let mut pos: usize = 0;
    let signature = match read_u32_be(input, &mut pos) {
        Ok(v) => v,
        Err(e) => { return Err(e) },
    };
    let flavour = match read_u32_be(input, &mut pos) {
        Ok(v) => v,
        Err(e) => { return Err(e) },
    };
    let length = match read_u32_be(input, &mut pos) {
        Ok(v) => v,
        Err(e) => { return Err(e) },
    };
    let num_tables = match read_u16_be(input, &mut pos) {
        Ok(v) => v,
        Err(e) => { return Err(e) },
    };
    let reserved = match read_u16_be(input, &mut pos) {
        Ok(v) => v,
        Err(e) => { return Err(e) },
    };
    let total_sfnt_size = match read_u32_be(input, &mut pos) {
        Ok(v) => v,
        Err(e) => { return Err(e) },
    };
    let major_version = match read_u16_be(input, &mut pos) {
        Ok(v) => v,
        Err(e) => { return Err(e) },
    };
    let minor_version = match read_u16_be(input, &mut pos) {
        Ok(v) => v,
        Err(e) => { return Err(e) },
    };
    let meta_offset = match read_u32_be(input, &mut pos) {
        Ok(v) => v,
        Err(e) => { return Err(e) },
    };
    let meta_length = match read_u32_be(input, &mut pos) {
        Ok(v) => v,
        Err(e) => { return Err(e) },
    };
    let meta_orig_length = match read_u32_be(input, &mut pos) {
        Ok(v) => v,
        Err(e) => { return Err(e) },
    };
    let priv_offset = match read_u32_be(input, &mut pos) {
        Ok(v) => v,
        Err(e) => { return Err(e) },
    };
    let priv_length = match read_u32_be(input, &mut pos) {
        Ok(v) => v,
        Err(e) => { return Err(e) },
    };
    Ok(
        WoffHeader {
            signature,
            flavour,
            length,
            num_tables,
            reserved,
            total_sfnt_size,
            major_version,
            minor_version,
            meta_offset,
            meta_length,
            meta_orig_length,
            priv_offset,
            priv_length,
        },
    )
}

/// Reads the `num_tables` directory records that follow the header; fails
/// when the input ends inside the directory.
pub fn parse_directory(input: &[u8], num_tables: u16) -> (r: Result<
    Vec<TableDirectoryEntry>,
    ConvertError,
>)
    requires
        input@.len() >= 44,
    ensures
        input@.len() >= 44 + 20 * num_tables ==> (r matches Ok(v) && v@ == spec_entries_n(
            input@,
            num_tables as int,
        )),
        input@.len() < 44 + 20 * num_tables ==> r == Err::<
            Vec<TableDirectoryEntry>,
            ConvertError,
        >(ConvertError::TruncatedInput),
{
    let mut entries: Vec<TableDirectoryEntry> = Vec::new();
    let mut pos: usize = 44;
    let mut i: u16 = 0;
    while i < num_tables
        invariant
            input@.len() >= 44,
            i <= num_tables,
            pos == 44 + 20 * i,
            i > 0 ==> input@.len() >= 44 + 20 * i,
            entries@.len() == i as int,
            forall|j: int| 0 <= j < i ==> entries@[j] == spec_entry(input@, j),
        decreases num_tables - i,
    {
        let tag = match read_u32_be(input, &mut pos) {
            Ok(v) => v,
            Err(e) => { return Err(e) },
        };
        let offset = match read_u32_be(input, &mut pos) {
            Ok(v) => v,
            Err(e) => { return Err(e) },
        };
        let comp_length = match read_u32_be(input, &mut pos) {
            Ok(v) => v,
            Err(e) => { return Err(e) },
        };
        let orig_length = match read_u32_be(input, &mut pos) {
            Ok(v) => v,
            Err(e) => { return Err(e) },
        };
        let orig_checksum = match read_u32_be(input, &mut pos) {
            Ok(v) => v,
            Err(e) => { return Err(e) },
        };
        entries.push(
            TableDirectoryEntry {
                tag,
                offset,
                comp_length,
                orig_length,
                orig_checksum,
                otf_offset: 0,
            },
        );
        i = i + 1;
    }
    assert(entries@ =~= spec_entries_n(input@, num_tables as int));
    Ok(entries)
}

/// Computes the SFNT binary-search header fields for a directory of
/// `num_tables` tables: search range, entry selector, range shift.  All
/// three are 0 for an empty directory.
pub fn search_params(num_tables: u16) -> (r: (u32, u16, u32))
    ensures
        r.0 == spec_search_range(num_tables as int),
        r.1 == sfnt_entry_selector(num_tables as int),
        r.2 == spec_range_shift(num_tables as int),
        num_tables >= 1 ==> pow2(r.1 as nat) <= num_tables < pow2((r.1 + 1) as nat),
        r.1 < 16,
{
    if num_tables == 0 {
        return (0, 0, 0);
    }
    let nt = num_tables as u32;
    let mut entry_selector: u16 = 0;
    let mut p: u32 = 1;
    proof {
        lemma2_to64();
    }
    while 2 * p <= nt
        invariant
            1 <= nt <= 0xFFFF,
            nt == num_tables,
            p == pow2(entry_selector as nat),
            p <= nt,
            entry_selector < 16,
        decreases 16 - entry_selector,
    {
        proof {
            lemma_pow2_adds(entry_selector as nat, 1);
            lemma2_to64();
        }
        p = 2 * p;
        entry_selector = entry_selector + 1;
        proof {
            if entry_selector >= 16 {
                lemma_pow2_le(16, entry_selector as nat);
                assert(false);
            }
        }
    }
    proof {
        lemma_pow2_adds(entry_selector as nat, 1);
        lemma2_to64();
        lemma_entry_selector_unique(num_tables as int, entry_selector as nat);
        lemma_directory_arithmetic(num_tables as int);
    }
    let search_range = p * 16;
    let range_shift = nt * 16 - search_range;
    (search_range, entry_selector, range_shift)
}

/// Writes the 12-byte SFNT header: flavour, table count, and the three
/// binary-search fields.
pub fn write_sfnt_header(out: &mut Vec<u8>, flavour: u32, num_tables: u16)
    ensures
        final(out)@ == old(out)@ + sfnt_header_bytes(flavour, num_tables),
{
    write_u32_be(out, flavour);
    write_u16_be(out, num_tables);
    let (search_range, entry_selector, range_shift) = search_params(num_tables);
    let sr16 = (search_range % 0x10000) as u16;
    let es16 = (entry_selector as u32 % 0x10000) as u16;
    let rs16 = (range_shift % 0x10000) as u16;
    write_u16_be(out, sr16);
    write_u16_be(out, es16);
    write_u16_be(out, rs16);
    proof {
        reveal(sfnt_header_bytes);
        assert(out@ =~= old(out)@ + sfnt_header_bytes(flavour, num_tables));
    }
}

/// Decides whether every table's end position in the output fits the 32-bit
/// offset and length fields of the SFNT directory.
pub fn check_offsets(entries: &Vec<TableDirectoryEntry>) -> (r: bool)
    requires
        entries@.len() <= 0xFFFF,
    ensures
        r == offsets_fit(entries@),
{
    let n = entries.len();
    let mut offset: u64 = 12 + 16 * (n as u64);
    let mut i: usize = 0;
    while i < n
        invariant
            entries@.len() == n,
            n <= 0xFFFF,
            i <= n,
            offset == table_start(entries@, i as int),
            offset <= 0x100000002,
            forall|j: int| 0 <= j < i ==> table_end(entries@, j) <= u32::MAX,
        decreases n - i,
    {
        let e = entries[i];
        let end = offset + e.orig_length as u64;
        assert(end == table_end(entries@, i as int));
        if end > 0xFFFFFFFF {
            proof {
                reveal(offsets_fit);
                assert(table_end(entries@, i as int) > u32::MAX);
            }
            return false;
        }
        let rem = end % 4;
        let next = if rem == 0 {
            end
        } else {
            end + (4 - rem)
        };
        proof {
            lemma_align4(end as int);
            assert(next == align4(end as int));
        }
        offset = next;
        i = i + 1;
    }
    proof {
        reveal(offsets_fit);
    }
    true
}

/// Emits the full SFNT table directory, assigning each table its output
/// offset: entries keep their input order, each record carries the WOFF
/// checksum unchanged, and offsets advance by the original length rounded up
/// to a 4-byte boundary.
pub fn write_directory(out: &mut Vec<u8>, entries: &Vec<TableDirectoryEntry>) -> (located: Vec<
    TableDirectoryEntry,
>)
    requires
        offsets_fit(entries@),
        entries@.len() <= 0xFFFF,
    ensures
        located@.len() == entries@.len(),
        forall|i: int|
            0 <= i < entries@.len() ==> located@[i] == with_otf_offset(
                entries@[i],
                trunc_u32(table_start(entries@, i)),
            ),
        final(out)@ == old(out)@ + dir_bytes(entries@, entries@.len() as int),
{
    let n = entries.len();
    let mut located: Vec<TableDirectoryEntry> = Vec::new();
    let mut offset: u64 = 12 + 16 * (n as u64);
    let mut i: usize = 0;
    proof {
        reveal(dir_bytes);
        assert(out@ =~= old(out)@ + dir_bytes(entries@, 0));
    }
    while i < n
        invariant
            entries@.len() == n,
            n <= 0xFFFF,
            offsets_fit(entries@),
            i <= n,
            offset == table_start(entries@, i as int),
            offset <= 0x100000002,
            located@.len() == i as int,
            forall|j: int|
                0 <= j < i ==> located@[j] == with_otf_offset(
                    entries@[j],
                    trunc_u32(table_start(entries@, j)),
                ),
            out@ == old(out)@ + dir_bytes(entries@, i as int),
        decreases n - i,
    {
        let e = entries[i];
        proof {
            reveal(offsets_fit);
        }
        assert(table_end(entries@, i as int) <= u32::MAX);
        let off32 = offset as u32;
        proof {
            lemma_small_mod(offset as nat, 0x100000000);
            assert(off32 == trunc_u32(table_start(entries@, i as int)));
        }
        write_u32_be(out, e.tag);
        write_u32_be(out, e.orig_checksum);
        write_u32_be(out, off32);
        write_u32_be(out, e.orig_length);
        located.push(
            TableDirectoryEntry {
                tag: e.tag,
                offset: e.offset,
                comp_length: e.comp_length,
                orig_length: e.orig_length,
                orig_checksum: e.orig_checksum,
                otf_offset: off32,
            },
        );
        let end = offset + e.orig_length as u64;
        let rem = end % 4;
        let next = if rem == 0 {
            end
        } else {
            end + (4 - rem)
        };
        proof {
            lemma_align4(end as int);
            assert(next == align4(end as int));
        }
        offset = next;
        i = i + 1;
        proof {
            reveal(dir_bytes);
            assert(out@ =~= old(out)@ + dir_bytes(entries@, i as int));
        }
    }
    located
}

/// Appends `src[start .. start + len]` to `out`.
pub fn append_slice(out: &mut Vec<u8>, src: &[u8], start: usize, len: usize)
    requires
        start + len <= src@.len(),
    ensures
        final(out)@ == old(out)@ + src@.subrange(start as int, start as int + len as int),
{
    let n = src.len();
    let mut j: usize = 0;
    while j < len
        invariant
            start + len <= src@.len(),
            n == src@.len(),
            j <= len,
            out@ == old(out)@ + src@.subrange(start as int, start as int + j as int),
        decreases len - j,
    {
        let b = src[start + j];
        out.push(b);
        j = j + 1;
        assert(out@ =~= old(out)@ + src@.subrange(start as int, start as int + j as int));
    }
}

/// Accepts a decompressed table only at exactly its declared original
/// length: appends it whole to `out`, or reports a decompression failure and
/// leaves `out` untouched.
pub fn append_decompressed(out: &mut Vec<u8>, data: &Vec<u8>, orig_length: u32) -> (r: Result<
    (),
    ConvertError,
>)
    ensures
        data@.len() == orig_length ==> r == Ok::<(), ConvertError>(()) && final(out)@ == old(out)@
            + data@,
        data@.len() != orig_length ==> r == Err::<(), ConvertError>(
            ConvertError::DecompressionFailure,
        ) && final(out)@ == old(out)@,
{
    if data.len() == orig_length as usize {
        append_slice(out, data.as_slice(), 0, data.len());
        assert(out@ =~= old(out)@ + data@);
        Ok(())
    } else {
        Err(ConvertError::DecompressionFailure)
    }
}

/// Appends the zero bytes that pad a table ending at `end_offset` out to a
/// 4-byte boundary.
pub fn append_padding(out: &mut Vec<u8>, end_offset: u64)
    ensures
        final(out)@ == old(out)@ + zeros(align4(end_offset as int) - end_offset as int),
{
    proof {
        lemma_align4(end_offset as int);
        reveal(zeros);
    }
    let rem = (end_offset % 4) as usize;
    if rem != 0 {
        let pad = 4 - rem;
        assert(pad == align4(end_offset as int) - end_offset as int);
        let mut j: usize = 0;
        proof {
            assert(out@ =~= old(out)@ + zeros(0));
        }
        while j < pad
            invariant
                j <= pad,
                pad <= 3,
                out@ == old(out)@ + zeros(j as int),
            decreases pad - j,
        {
            out.push(0u8);
            j = j + 1;
            proof {
                reveal(zeros);
                assert(out@ =~= old(out)@ + zeros(j as int));
            }
        }
    }
    proof {
        reveal(zeros);
        assert(out@ =~= old(out)@ + zeros(align4(end_offset as int) - end_offset as int));
    }
}

/// Streams one table into `out`: a verbatim copy when the stored and
/// original lengths agree, otherwise the zlib decompression of the stored
/// bytes, then zero padding out to a 4-byte boundary.  On failure `out` is
/// untouched.
pub fn copy_one_table(input: &[u8], out: &mut Vec<u8>, e: &TableDirectoryEntry) -> (r: Result<
    (),
    ConvertError,
>)
    ensures
        r is Ok ==> entry_in_bounds(input@, *e) && entry_inflate_ok(
            input@,
            *e,
        ) && final(out)@ == old(out)@ + table_payload(input@, *e) + zeros(entry_pad_len(*e)),
        entry_in_bounds(input@, *e) && e.comp_length == e.orig_length ==> r is Ok,
        entry_in_bounds(input@, *e) ==> r is Ok || r == Err::<(), ConvertError>(
            ConvertError::DecompressionFailure,
        ),
        !entry_in_bounds(input@, *e) ==> r == Err::<(), ConvertError>(ConvertError::TruncatedInput),
        r is Err ==> final(out)@ == old(out)@,
{
    proof {
        reveal(table_payload);
    }
    let stored_len: u64 = if e.comp_length == e.orig_length {
        e.orig_length as u64
    } else {
        e.comp_length as u64
    };
    if e.offset as u64 + stored_len > input.len() as u64 {
        return Err(ConvertError::TruncatedInput);
    }
    let start = e.offset as usize;
    if e.comp_length == e.orig_length {
        append_slice(out, input, start, e.orig_length as usize);
    } else {
        let end = start + e.comp_length as usize;
        match zlib_decompress(input, start, end, e.orig_length as u64) {
            Some(data) => {
                match append_decompressed(out, &data, e.orig_length) {
                    Ok(()) => {
                        proof {
                            let d = zlib_inflate(
                                input@.subrange(e.offset as int, e.offset + e.comp_length),
                            );
                            assert(data@.len() == min(e.orig_length as int, d.len() as int));
                            assert(d.len() >= e.orig_length);
                        }
                    },
                    Err(err) => {
                        return Err(err);
                    },
                }
            },
            None => {
                return Err(ConvertError::DecompressionFailure);
            },
        }
    }
    let end_offset = e.otf_offset as u64 + e.orig_length as u64;
    append_padding(out, end_offset);
    proof {
        reveal(table_payload);
        assert(out@ =~= old(out)@ + table_payload(input@, *e) + zeros(entry_pad_len(*e)));
    }
    Ok(())
}

/// Streams every table into `out` in directory order.  On failure `out` may
/// hold the tables already copied; the conversion discards it.
pub fn copy_tables(input: &[u8], out: &mut Vec<u8>, entries: &Vec<TableDirectoryEntry>) -> (r:
    Result<(), ConvertError>)
    ensures
        r is Ok ==> entries_in_bounds(input@, entries@)
            && entries_inflate_ok(input@, entries@) && final(out)@ == old(out)@ + body_bytes(
            input@,
            entries@,
            entries@.len() as int,
        ),
        entries_in_bounds(input@, entries@) && entries_all_stored(entries@) ==> r is Ok,
        entries_in_bounds(input@, entries@) ==> r is Ok || r == Err::<(), ConvertError>(
            ConvertError::DecompressionFailure,
        ),
        r == Err::<(), ConvertError>(ConvertError::TruncatedInput) ==> !entries_in_bounds(
            input@,
            entries@,
        ),
        r is Err ==> r == Err::<(), ConvertError>(ConvertError::TruncatedInput) || r == Err::<
            (),
            ConvertError,
        >(ConvertError::DecompressionFailure),
{
    let n = entries.len();
    let mut i: usize = 0;
    proof {
        reveal(body_bytes);
        assert(out@ =~= old(out)@ + body_bytes(input@, entries@, 0));
    }
    while i < n
        invariant
            entries@.len() == n,
            i <= n,
            out@ == old(out)@ + body_bytes(input@, entries@, i as int),
            forall|j: int|
                0 <= j < i ==> entry_in_bounds(input@, entries@[j]) && entry_inflate_ok(
                    input@,
                    entries@[j],
                ),
        decreases n - i,
    {
        let e = entries[i];
        match copy_one_table(input, out, &e) {
            Ok(()) => {},
            Err(err) => {
                proof {
                    reveal(entries_in_bounds);
                    reveal(entries_all_stored);
                    reveal(entries_inflate_ok);
                }
                return Err(err);
            },
        }
        i = i + 1;
        proof {
            reveal(body_bytes);
            assert(out@ =~= old(out)@ + body_bytes(input@, entries@, i as int));
        }
    }
    proof {
        reveal(entries_in_bounds);
        reveal(entries_all_stored);
        reveal(entries_inflate_ok);
    }
    Ok(())
}

/// Emits the SFNT header and the full table directory for `input`,
/// returning the bytes so far and the located directory records.
fn emit_prefix(input: &[u8], header: &WoffHeader, entries: &Vec<TableDirectoryEntry>) -> (pair: (
    Vec<u8>,
    Vec<TableDirectoryEntry>,
))
    requires
        *header == spec_header(input@),
        entries@ == spec_entries(input@),
        offsets_fit(spec_entries(input@)),
    ensures
        pair.1@ == located_entries(input@),
        pair.0@ == sfnt_header_bytes(spec_header(input@).flavour, spec_header(input@).num_tables)
            + dir_bytes(spec_entries(input@), spec_num_tables(input@)),
{
    let ghost s = input@;
    let mut out: Vec<u8> = Vec::new();
    write_sfnt_header(&mut out, header.flavour, header.num_tables);
    proof {
        lemma_empty_concat(sfnt_header_bytes(spec_header(s).flavour, spec_header(s).num_tables));
    }
    let located = write_directory(&mut out, entries);
    proof {
        assert(entries@.len() as int == spec_num_tables(s));
        lemma_located_eq(s, located@);
    }
    (out, located)
}

/// Emits the SFNT bytes for an input whose header and directory have been
/// parsed and whose output offsets are known to fit their 32-bit fields.
fn emit_output(input: &[u8], header: &WoffHeader, entries: &Vec<TableDirectoryEntry>) -> (r: Result<
    Vec<u8>,
    ConvertError,
>)
    requires
        *header == spec_header(input@),
        entries@ == spec_entries(input@),
        offsets_fit(spec_entries(input@)),
    ensures
        r matches Ok(out) ==> entries_in_bounds(input@, spec_entries(input@))
            && entries_inflate_ok(input@, spec_entries(input@)) && out@ == sfnt_output(input@),
        entries_in_bounds(input@, spec_entries(input@)) && entries_all_stored(
            spec_entries(input@),
        ) ==> (r matches Ok(_)),
        entries_in_bounds(input@, spec_entries(input@)) ==> (r matches Ok(_)) || r == Err::<
            Vec<u8>,
            ConvertError,
        >(ConvertError::DecompressionFailure),
        !entries_in_bounds(input@, spec_entries(input@)) ==> r == Err::<Vec<u8>, ConvertError>(
            ConvertError::TruncatedInput,
        ) || r == Err::<Vec<u8>, ConvertError>(ConvertError::DecompressionFailure),
        r is Err ==> r == Err::<Vec<u8>, ConvertError>(ConvertError::TruncatedInput) || r == Err::<
            Vec<u8>,
            ConvertError,
        >(ConvertError::DecompressionFailure),
{
    let ghost s = input@;
    let pair = emit_prefix(input, header, entries);
    let mut out = pair.0;
    let located = pair.1;
    let ghost pre = out@;
    proof {
        lemma_located_preserves(s);
    }
    match copy_tables(input, &mut out, &located) {
        Ok(()) => {},
        Err(e) => {
            return Err(e) },
    }
    proof {
        lemma_assemble_output(s, pre, located@, out@);
    }
    Ok(out)
}

/// Converts a complete WOFF v1 file into the equivalent SFNT file.
///
/// On success the returned bytes are exactly the SFNT encoding of the input:
/// the 12-byte header with recomputed search fields, the table directory in
/// input order with passthrough checksums, and each table's decompressed
/// payload padded to a 4-byte boundary.
pub fn woff2otf(input: &[u8]) -> (r: Result<Vec<u8>, ConvertError>)
    ensures
        r matches Ok(out) ==> header_complete(input@) && signature_ok(input@) && directory_complete(
            input@,
        ) && offsets_fit(spec_entries(input@)) && entries_in_bounds(input@, spec_entries(input@))
            && entries_inflate_ok(input@, spec_entries(input@)) && out@ == sfnt_output(input@),
        !header_complete(input@) ==> r == Err::<Vec<u8>, ConvertError>(ConvertError::TruncatedInput),
        header_complete(input@) && !signature_ok(input@) ==> r == Err::<Vec<u8>, ConvertError>(
            ConvertError::InvalidSignature,
        ),
        header_complete(input@) && signature_ok(input@) && !directory_complete(input@) ==> r
            == Err::<Vec<u8>, ConvertError>(ConvertError::TruncatedInput),
        header_complete(input@) && signature_ok(input@) && directory_complete(input@)
            && !offsets_fit(spec_entries(input@)) ==> r == Err::<Vec<u8>, ConvertError>(
            ConvertError::OutputTooLarge,
        ),
        header_complete(input@) && signature_ok(input@) && directory_complete(input@)
            && offsets_fit(spec_entries(input@)) && !entries_in_bounds(
            input@,
            spec_entries(input@),
        ) ==> r == Err::<Vec<u8>, ConvertError>(ConvertError::TruncatedInput) || r == Err::<
            Vec<u8>,
            ConvertError,
        >(ConvertError::DecompressionFailure),
        header_complete(input@) && signature_ok(input@) && directory_complete(input@)
            && offsets_fit(spec_entries(input@)) && entries_in_bounds(
            input@,
            spec_entries(input@),
        ) ==> (r matches Ok(_)) || r == Err::<Vec<u8>, ConvertError>(
            ConvertError::DecompressionFailure,
        ),
        header_complete(input@) && signature_ok(input@) && directory_complete(input@)
            && offsets_fit(spec_entries(input@)) && entries_in_bounds(
            input@,
            spec_entries(input@),
        ) && entries_all_stored(spec_entries(input@)) ==> (r matches Ok(_)),
{
    let header = match parse_header(input) {
        Ok(h) => h,
        Err(e) => {
            return Err(e) },
    };
    if header.signature != WOFF_MAGIC {
        return Err(ConvertError::InvalidSignature);
    }
    let entries = match parse_directory(input, header.num_tables) {
        Ok(v) => v,
        Err(e) => {
            return Err(e) },
    };
    assert(entries@ == spec_entries(input@));
    if !check_offsets(&entries) {
        return Err(ConvertError::OutputTooLarge);
    }
    emit_output(input, &header, &entries)
}

} // verus!
