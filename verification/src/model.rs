//! The data model of a conversion: the WOFF header and table directory as
//! parsed from the input bytes, and the exact byte layout of the SFNT output.

use vstd::prelude::*;

use vstd::arithmetic::div_mod::lemma_fundamental_div_mod;
use vstd::arithmetic::div_mod::lemma_mod_multiples_basic;
use vstd::arithmetic::power2::pow2;
use vstd::math::min;

use crate::bytes::be_u16_at;
use crate::bytes::be_u32_at;
use crate::bytes::u16_be_bytes;
use crate::bytes::u32_be_bytes;
use crate::inflate::zlib_inflate;

verus! {

/// The magic bytes `wOFF` that open every WOFF v1 file.
pub const WOFF_MAGIC: u32 = 0x774F4646;

/// The fixed 44-byte WOFF header, parsed once per conversion.
#[derive(Clone, Copy, Debug, PartialEq, Eq, Structural)]
pub struct WoffHeader {
    pub signature: u32,
    pub flavour: u32,
    pub length: u32,
    pub num_tables: u16,
    pub reserved: u16,
    pub total_sfnt_size: u32,
    pub major_version: u16,
    pub minor_version: u16,
    pub meta_offset: u32,
    pub meta_length: u32,
    pub meta_orig_length: u32,
    pub priv_offset: u32,
    pub priv_length: u32,
}

/// One 20-byte WOFF table-directory record, plus the output offset
/// (`otf_offset`) that the conversion assigns to the table.
#[derive(Clone, Copy, Debug, PartialEq, Eq, Structural)]
pub struct TableDirectoryEntry {
    pub tag: u32,
    pub offset: u32,
    pub comp_length: u32,
    pub orig_length: u32,
    pub orig_checksum: u32,
    pub otf_offset: u32,
}

/// The header encoded in the first 44 bytes of `s`.
pub open spec fn spec_header(s: Seq<u8>) -> WoffHeader {
    WoffHeader {
        signature: be_u32_at(s, 0),
        flavour: be_u32_at(s, 4),
        length: be_u32_at(s, 8),
        num_tables: be_u16_at(s, 12),
        reserved: be_u16_at(s, 14),
        total_sfnt_size: be_u32_at(s, 16),
        major_version: be_u16_at(s, 20),
        minor_version: be_u16_at(s, 22),
        meta_offset: be_u32_at(s, 24),
        meta_length: be_u32_at(s, 28),
        meta_orig_length: be_u32_at(s, 32),
        priv_offset: be_u32_at(s, 36),
        priv_length: be_u32_at(s, 40),
    }
}

/// The table count declared by the header of `s`.
pub open spec fn spec_num_tables(s: Seq<u8>) -> int {
    spec_header(s).num_tables as int
}

/// The `i`-th directory record of `s`, not yet assigned an output offset.
pub open spec fn spec_entry(s: Seq<u8>, i: int) -> TableDirectoryEntry {
    TableDirectoryEntry {
        tag: be_u32_at(s, 44 + 20 * i),
        offset: be_u32_at(s, 48 + 20 * i),
        comp_length: be_u32_at(s, 52 + 20 * i),
        orig_length: be_u32_at(s, 56 + 20 * i),
        orig_checksum: be_u32_at(s, 60 + 20 * i),
        otf_offset: 0,
    }
}

/// The first `n` directory records of `s`.
pub open spec fn spec_entries_n(s: Seq<u8>, n: int) -> Seq<TableDirectoryEntry> {
    Seq::new(n as nat, |i: int| spec_entry(s, i))
}

/// All directory records that the header of `s` declares.
pub open spec fn spec_entries(s: Seq<u8>) -> Seq<TableDirectoryEntry> {
    spec_entries_n(s, spec_num_tables(s))
}

/// `e` with its output offset set to `off`.
pub open spec fn with_otf_offset(e: TableDirectoryEntry, off: u32) -> TableDirectoryEntry {
    TableDirectoryEntry {
        tag: e.tag,
        offset: e.offset,
        comp_length: e.comp_length,
        orig_length: e.orig_length,
        orig_checksum: e.orig_checksum,
        otf_offset: off,
    }
}

/// `x` rounded up to the next multiple of 4.
pub open spec fn align4(x: int) -> int {
    if x % 4 == 0 {
        x
    } else {
        x + 4 - x % 4
    }
}

/// For non-negative `x`, `align4` rounds up to a multiple of 4 and adds at
/// most 3.
pub proof fn lemma_align4(x: int)
    requires
        x >= 0,
    ensures
        x <= align4(x) <= x + 3,
        align4(x) % 4 == 0,
        x % 4 == 0 ==> align4(x) == x,
{
    lemma_fundamental_div_mod(x, 4);
    if x % 4 != 0 {
        assert(align4(x) == 4 * (x / 4 + 1));
        lemma_mod_multiples_basic(x / 4 + 1, 4);
    }
}

/// The low 16 bits of `x`, as a field value.
pub open spec fn trunc_u16(x: int) -> u16 {
    (x % 0x10000) as u16
}

/// The low 32 bits of `x`, as a field value.
pub open spec fn trunc_u32(x: int) -> u32 {
    (x % 0x100000000) as u32
}

/// The largest `k` with `pow2(k) <= nt`, for `nt >= 1`; 0 when `nt <= 1`.
///
/// This is the SFNT `entrySelector` for a directory of `nt` tables.
pub open spec fn sfnt_entry_selector(nt: int) -> nat
    decreases nt,
{
    if nt <= 1 {
        0
    } else {
        1 + sfnt_entry_selector(nt / 2)
    }
}

/// The SFNT `searchRange` for `nt` tables: `2^entrySelector * 16`, or 0 for
/// an empty directory.
pub open spec fn spec_search_range(nt: int) -> int {
    if nt <= 0 {
        0
    } else {
        pow2(sfnt_entry_selector(nt)) * 16int
    }
}

/// The SFNT `rangeShift` for `nt` tables: `nt * 16 - searchRange`, or 0 for
/// an empty directory.
pub open spec fn spec_range_shift(nt: int) -> int {
    if nt <= 0 {
        0
    } else {
        nt * 16 - spec_search_range(nt)
    }
}

/// The 12 bytes of the SFNT header: flavour, table count, and the three
/// binary-search fields, each stored big-endian.  The search fields are
/// 16-bit in the format, so their low 16 bits are what is stored.
#[verifier::opaque]
pub open spec fn sfnt_header_bytes(flavour: u32, num_tables: u16) -> Seq<u8> {
    u32_be_bytes(flavour) + u16_be_bytes(num_tables) + u16_be_bytes(
        trunc_u16(spec_search_range(num_tables as int)),
    ) + u16_be_bytes(trunc_u16(sfnt_entry_selector(num_tables as int) as int)) + u16_be_bytes(
        trunc_u16(spec_range_shift(num_tables as int)),
    )
}

/// The byte position at which table `i` starts in the output: the first
/// table starts right after the header and directory, and each later one
/// starts at its predecessor's end rounded up to a 4-byte boundary.
pub open spec fn table_start(entries: Seq<TableDirectoryEntry>, i: int) -> int
    decreases i,
{
    if i <= 0 {
        12 + 16int * entries.len()
    } else {
        align4(table_start(entries, i - 1) + entries[i - 1].orig_length)
    }
}

/// The byte position at which table `i`'s payload ends in the output.
pub open spec fn table_end(entries: Seq<TableDirectoryEntry>, i: int) -> int {
    table_start(entries, i) + entries[i].orig_length
}

/// The 16 bytes of one SFNT directory record: tag, checksum, offset, length.
pub open spec fn dir_entry_bytes(e: TableDirectoryEntry, off: int) -> Seq<u8> {
    u32_be_bytes(e.tag) + u32_be_bytes(e.orig_checksum) + u32_be_bytes(trunc_u32(off))
        + u32_be_bytes(e.orig_length)
}

/// The concatenated SFNT directory records for the first `n` entries.
#[verifier::opaque]
pub open spec fn dir_bytes(entries: Seq<TableDirectoryEntry>, n: int) -> Seq<u8>
    decreases n,
{
    if n <= 0 {
        Seq::empty()
    } else {
        dir_bytes(entries, n - 1) + dir_entry_bytes(entries[n - 1], table_start(entries, n - 1))
    }
}

/// A sequence of `n` zero bytes (empty when `n < 0`).
#[verifier::opaque]
pub open spec fn zeros(n: int) -> Seq<u8> {
    if n <= 0 {
        Seq::empty()
    } else {
        Seq::new(n as nat, |j: int| 0u8)
    }
}

/// The decompressed payload of the table that `e` describes: the stored
/// bytes themselves when the stored and original lengths agree, and
/// otherwise the zlib decompression of the stored bytes, cut off at the
/// original length.
#[verifier::opaque]
pub open spec fn table_payload(s: Seq<u8>, e: TableDirectoryEntry) -> Seq<u8> {
    if e.comp_length == e.orig_length {
        s.subrange(e.offset as int, e.offset + e.orig_length)
    } else {
        let d = zlib_inflate(s.subrange(e.offset as int, e.offset + e.comp_length));
        d.take(min(e.orig_length as int, d.len() as int))
    }
}

/// How many zero bytes pad the table that `e` describes out to a 4-byte
/// boundary, going by its assigned output offset.
pub open spec fn entry_pad_len(e: TableDirectoryEntry) -> int {
    align4(e.otf_offset + e.orig_length) - (e.otf_offset + e.orig_length)
}

/// The concatenated payloads and padding of the first `n` tables.
#[verifier::opaque]
pub open spec fn body_bytes(s: Seq<u8>, entries: Seq<TableDirectoryEntry>, n: int) -> Seq<u8>
    decreases n,
{
    if n <= 0 {
        Seq::empty()
    } else {
        body_bytes(s, entries, n - 1) + table_payload(s, entries[n - 1]) + zeros(
            entry_pad_len(entries[n - 1]),
        )
    }
}

/// The directory records of `s` with their output offsets assigned.
#[verifier::opaque]
pub open spec fn located_entries(s: Seq<u8>) -> Seq<TableDirectoryEntry> {
    Seq::new(
        spec_num_tables(s) as nat,
        |i: int| with_otf_offset(spec_entry(s, i), trunc_u32(table_start(spec_entries(s), i))),
    )
}

/// The complete SFNT output for the WOFF input `s`: header, directory, then
/// each table's payload padded to a 4-byte boundary.
#[verifier::opaque]
pub open spec fn sfnt_output(s: Seq<u8>) -> Seq<u8> {
    let h = spec_header(s);
    sfnt_header_bytes(h.flavour, h.num_tables) + dir_bytes(spec_entries(s), spec_num_tables(s))
        + body_bytes(s, located_entries(s), spec_num_tables(s))
}

/// `s` holds a complete 44-byte header.
pub open spec fn header_complete(s: Seq<u8>) -> bool {
    s.len() >= 44
}

/// `s` opens with the WOFF magic bytes.
pub open spec fn signature_ok(s: Seq<u8>) -> bool {
    be_u32_at(s, 0) == WOFF_MAGIC
}

/// `s` holds every directory record its header declares.
pub open spec fn directory_complete(s: Seq<u8>) -> bool {
    s.len() >= 44 + 20 * spec_num_tables(s)
}

/// Every table's end position in the output fits the 32-bit offset and
/// length fields of an SFNT directory record.
#[verifier::opaque]
pub open spec fn offsets_fit(entries: Seq<TableDirectoryEntry>) -> bool {
    forall|i: int| 0 <= i < entries.len() ==> table_end(entries, i) <= u32::MAX
}

/// The stored bytes that `e` points at lie inside `s`.
pub open spec fn entry_in_bounds(s: Seq<u8>, e: TableDirectoryEntry) -> bool {
    if e.comp_length == e.orig_length {
        e.offset + e.orig_length <= s.len()
    } else {
        e.offset + e.comp_length <= s.len()
    }
}

/// Every entry's stored bytes lie inside `s`.
#[verifier::opaque]
pub open spec fn entries_in_bounds(s: Seq<u8>, entries: Seq<TableDirectoryEntry>) -> bool {
    forall|i: int| 0 <= i < entries.len() ==> entry_in_bounds(s, entries[i])
}

/// No entry is compressed: every table is stored verbatim.
#[verifier::opaque]
pub open spec fn entries_all_stored(entries: Seq<TableDirectoryEntry>) -> bool {
    forall|i: int| 0 <= i < entries.len() ==> entries[i].comp_length == entries[i].orig_length
}

/// `e`'s stored bytes decompress to at least the declared original length
/// (trivial for stored entries).
pub open spec fn entry_inflate_ok(s: Seq<u8>, e: TableDirectoryEntry) -> bool {
    e.comp_length != e.orig_length ==> zlib_inflate(
        s.subrange(e.offset as int, e.offset + e.comp_length),
    ).len() >= e.orig_length
}

/// Every entry's stored bytes decompress to at least the declared length.
#[verifier::opaque]
pub open spec fn entries_inflate_ok(s: Seq<u8>, entries: Seq<TableDirectoryEntry>) -> bool {
    forall|i: int| 0 <= i < entries.len() ==> entry_inflate_ok(s, entries[i])
}

/// Prepending an empty sequence changes nothing.
pub proof fn lemma_empty_concat(a: Seq<u8>)
    ensures
        Seq::<u8>::empty() + a == a,
{
    assert(Seq::<u8>::empty() + a =~= a);
}

/// The output is the emitted header and directory followed by the emitted
/// table bodies.
pub proof fn lemma_assemble_output(
    s: Seq<u8>,
    pre: Seq<u8>,
    loc: Seq<TableDirectoryEntry>,
    total: Seq<u8>,
)
    requires
        pre == sfnt_header_bytes(spec_header(s).flavour, spec_header(s).num_tables) + dir_bytes(
            spec_entries(s),
            spec_num_tables(s),
        ),
        loc == located_entries(s),
        total == pre + body_bytes(s, loc, loc.len() as int),
    ensures
        total == sfnt_output(s),
{
    reveal(sfnt_output);
    reveal(located_entries);
    assert(loc.len() == spec_num_tables(s));
}

/// A directory whose records are the input's records with their computed
/// output offsets assigned is exactly `located_entries`.
pub proof fn lemma_located_eq(s: Seq<u8>, loc: Seq<TableDirectoryEntry>)
    requires
        loc.len() == spec_num_tables(s),
        forall|i: int|
            0 <= i < loc.len() ==> loc[i] == with_otf_offset(
                spec_entries(s)[i],
                trunc_u32(table_start(spec_entries(s), i)),
            ),
    ensures
        loc == located_entries(s),
{
    reveal(located_entries);
    assert(loc =~= located_entries(s));
}

/// Assigning output offsets changes no other field, so the bounds,
/// stored-verbatim and decompressed-length predicates agree between the raw
/// and the located directory.
pub proof fn lemma_located_preserves(s: Seq<u8>)
    ensures
        entries_in_bounds(s, located_entries(s)) == entries_in_bounds(s, spec_entries(s)),
        entries_inflate_ok(s, located_entries(s)) == entries_inflate_ok(s, spec_entries(s)),
        entries_all_stored(located_entries(s)) == entries_all_stored(spec_entries(s)),
{
    reveal(entries_in_bounds);
    reveal(entries_all_stored);
    reveal(entries_inflate_ok);
    reveal(located_entries);
    let raw = spec_entries(s);
    let loc = located_entries(s);
    assert(raw.len() == loc.len());
    assert forall|i: int| 0 <= i < raw.len() implies entry_in_bounds(s, loc[i]) == entry_in_bounds(
        s,
        raw[i],
    ) && entry_inflate_ok(s, loc[i]) == entry_inflate_ok(s, raw[i]) && (loc[i].comp_length
        == loc[i].orig_length) == (raw[i].comp_length == raw[i].orig_length) by {
        assert(loc[i].offset == raw[i].offset);
        assert(loc[i].comp_length == raw[i].comp_length);
        assert(loc[i].orig_length == raw[i].orig_length);
    }
}

} // verus!
