//! The properties the conversion is answerable for, stated over the model
//! and proved once and for all.

use vstd::prelude::*;

use vstd::arithmetic::div_mod::lemma_fundamental_div_mod;
use vstd::arithmetic::power2::lemma2_to64;
use vstd::arithmetic::power2::lemma_pow2_adds;
use vstd::arithmetic::power2::lemma_pow2_strictly_increases;
use vstd::arithmetic::power2::pow2;

use vstd::arithmetic::div_mod::lemma_mod_multiples_basic;
use vstd::arithmetic::div_mod::lemma_small_mod;

use crate::inflate::zlib_inflate;
use crate::model::align4;
use crate::model::dir_bytes;
use crate::model::dir_entry_bytes;
use crate::model::entry_inflate_ok;
use crate::model::lemma_align4;
use crate::model::sfnt_entry_selector;
use crate::model::sfnt_header_bytes;
use crate::model::sfnt_output;
use crate::model::spec_entries;
use crate::model::spec_entry;
use crate::model::spec_header;
use crate::model::spec_num_tables;
use crate::model::body_bytes;
use crate::model::entry_in_bounds;
use crate::model::entries_in_bounds;
use crate::model::entries_inflate_ok;
use crate::model::entry_pad_len;
use crate::model::located_entries;
use crate::model::zeros;
use crate::model::offsets_fit;
use crate::model::spec_range_shift;
use crate::model::spec_search_range;
use crate::model::table_end;
use crate::model::table_payload;
use crate::model::table_start;
use crate::model::trunc_u32;
use crate::model::TableDirectoryEntry;

use crate::bytes::u32_be_bytes;

verus! {

/// Powers of two are monotone in the exponent.
pub proof fn lemma_pow2_le(e1: nat, e2: nat)
    requires
        e1 <= e2,
    ensures
        pow2(e1) <= pow2(e2),
{
    if e1 < e2 {
        lemma_pow2_strictly_increases(e1, e2);
    }
}

/// The entry selector of a non-empty directory satisfies the binary-search
/// bracketing `2^k <= nt < 2^(k+1)`.
pub proof fn lemma_entry_selector_bounds(nt: int)
    requires
        1 <= nt,
    ensures
        pow2(sfnt_entry_selector(nt)) <= nt,
        nt < pow2(sfnt_entry_selector(nt) + 1),
    decreases nt,
{
    lemma2_to64();
    if nt >= 2 {
        lemma_entry_selector_bounds(nt / 2);
        let k = sfnt_entry_selector(nt / 2);
        lemma_pow2_adds(k, 1);
        lemma_pow2_adds(k + 1, 1);
        lemma_fundamental_div_mod(nt, 2);
        assert(sfnt_entry_selector(nt) == k + 1);
        assert(pow2(k + 1) == 2 * pow2(k));
        assert(pow2(k + 2) == 2 * pow2(k + 1));
        assert(pow2(k + 1) <= nt);
        assert(nt < pow2(k + 2));
    }
}

/// The bracketing `2^k <= nt < 2^(k+1)` determines the entry selector: no
/// other exponent satisfies it.
pub proof fn lemma_entry_selector_unique(nt: int, k: nat)
    requires
        1 <= nt,
        pow2(k) <= nt,
        nt < pow2(k + 1),
    ensures
        k == sfnt_entry_selector(nt),
{
    let e = sfnt_entry_selector(nt);
    lemma_entry_selector_bounds(nt);
    if k + 1 <= e {
        lemma_pow2_le(k + 1, e);
        assert(false);
    }
    if e + 1 <= k {
        lemma_pow2_le(e + 1, k);
        assert(false);
    }
}

/// Directory arithmetic: for any table count in [1, 0xFFFF] the entry
/// selector is the unique exponent bracketing the count between consecutive
/// powers of two and lies below 16, the search range is `2^entrySelector *
/// 16`, and the range shift is `numTables * 16 - searchRange`, never
/// negative.
pub proof fn lemma_directory_arithmetic(nt: int)
    requires
        1 <= nt <= 0xFFFF,
    ensures
        pow2(sfnt_entry_selector(nt)) <= nt,
        nt < pow2(sfnt_entry_selector(nt) + 1),
        sfnt_entry_selector(nt) < 16,
        spec_search_range(nt) == pow2(sfnt_entry_selector(nt)) * 16,
        spec_range_shift(nt) == nt * 16 - spec_search_range(nt),
        spec_range_shift(nt) >= 0,
        spec_search_range(nt) <= nt * 16,
{
    lemma_entry_selector_bounds(nt);
    lemma2_to64();
    let e = sfnt_entry_selector(nt);
    if e >= 16 {
        lemma_pow2_le(16, e);
        assert(false);
    }
    assert(pow2(e) * 16 <= nt * 16);
}

/// Alignment: every table's start position in the output is a multiple of 4
/// (it never precedes the directory), and so is its end-of-padding position.
pub proof fn lemma_alignment(entries: Seq<TableDirectoryEntry>, i: int)
    requires
        0 <= i,
    ensures
        table_start(entries, i) % 4 == 0,
        table_start(entries, i) >= 12,
        align4(table_end(entries, i)) % 4 == 0,
    decreases i,
{
    if i == 0 {
        assert(table_start(entries, 0) == 4 * (3 + 4 * entries.len()));
        lemma_mod_multiples_basic(3 + 4 * entries.len() as int, 4);
    } else {
        lemma_alignment(entries, i - 1);
        lemma_align4(table_start(entries, i - 1) + entries[i - 1].orig_length);
    }
    lemma_align4(table_end(entries, i));
}

/// Offset monotonicity: in directory order each table starts at least its
/// predecessor's original length later, at most 3 padding bytes beyond that,
/// and strictly later whenever the predecessor is non-empty.
pub proof fn lemma_offset_monotonic(entries: Seq<TableDirectoryEntry>, i: int)
    requires
        0 <= i,
    ensures
        table_start(entries, i + 1) >= table_start(entries, i) + entries[i].orig_length,
        table_start(entries, i + 1) <= table_start(entries, i) + entries[i].orig_length + 3,
        entries[i].orig_length >= 1 ==> table_start(entries, i + 1) > table_start(entries, i),
{
    lemma_alignment(entries, i);
    lemma_align4(table_start(entries, i) + entries[i].orig_length);
}

/// The emitted directory records are 16 bytes each.
pub proof fn lemma_dir_bytes_len(entries: Seq<TableDirectoryEntry>, n: int)
    requires
        0 <= n,
    ensures
        dir_bytes(entries, n).len() == 16 * n,
    decreases n,
{
    reveal(dir_bytes);
    if n > 0 {
        lemma_dir_bytes_len(entries, n - 1);
    }
}

/// Within the emitted directory, record `i`'s checksum field holds the
/// entry's checksum, byte for byte.
pub proof fn lemma_dir_checksum(entries: Seq<TableDirectoryEntry>, i: int, n: int)
    requires
        0 <= i < n,
    ensures
        dir_bytes(entries, n).subrange(16 * i + 4, 16 * i + 8) == u32_be_bytes(
            entries[i].orig_checksum,
        ),
    decreases n,
{
    reveal(dir_bytes);
    lemma_dir_bytes_len(entries, n - 1);
    let e = entries[n - 1];
    let rec = dir_entry_bytes(e, table_start(entries, n - 1));
    assert(rec.len() == 16);
    if i == n - 1 {
        assert(dir_bytes(entries, n).subrange(16 * i + 4, 16 * i + 8) =~= u32_be_bytes(
            e.orig_checksum,
        ));
    } else {
        lemma_dir_checksum(entries, i, n - 1);
        assert(dir_bytes(entries, n).subrange(16 * i + 4, 16 * i + 8) =~= dir_bytes(
            entries,
            n - 1,
        ).subrange(16 * i + 4, 16 * i + 8));
    }
}

/// Checksum passthrough: in the complete output, the checksum field of SFNT
/// directory record `i` equals the WOFF directory's checksum for table `i`,
/// unmodified.
pub proof fn lemma_checksum_passthrough(s: Seq<u8>, i: int)
    requires
        0 <= i < spec_num_tables(s),
    ensures
        sfnt_output(s).subrange(12 + 16 * i + 4, 12 + 16 * i + 8) == u32_be_bytes(
            spec_entry(s, i).orig_checksum,
        ),
{
    reveal(sfnt_output);
    reveal(sfnt_header_bytes);
    let n = spec_num_tables(s);
    let ents = spec_entries(s);
    lemma_dir_bytes_len(ents, n);
    lemma_dir_checksum(ents, i, n);
    assert(sfnt_header_bytes(spec_header(s).flavour, spec_header(s).num_tables).len() == 12);
    assert(sfnt_output(s).subrange(12 + 16 * i + 4, 12 + 16 * i + 8) =~= dir_bytes(
        ents,
        n,
    ).subrange(16 * i + 4, 16 * i + 8));
}

/// Within the emitted directory, record `i`'s offset field holds the
/// table's computed start position, reduced to its low 32 bits.
pub proof fn lemma_dir_offset(entries: Seq<TableDirectoryEntry>, i: int, n: int)
    requires
        0 <= i < n,
    ensures
        dir_bytes(entries, n).subrange(16 * i + 8, 16 * i + 12) == u32_be_bytes(
            trunc_u32(table_start(entries, i)),
        ),
    decreases n,
{
    reveal(dir_bytes);
    lemma_dir_bytes_len(entries, n - 1);
    let e = entries[n - 1];
    let rec = dir_entry_bytes(e, table_start(entries, n - 1));
    assert(rec.len() == 16);
    if i == n - 1 {
        assert(dir_bytes(entries, n).subrange(16 * i + 8, 16 * i + 12) =~= u32_be_bytes(
            trunc_u32(table_start(entries, i)),
        ));
    } else {
        lemma_dir_offset(entries, i, n - 1);
        assert(dir_bytes(entries, n).subrange(16 * i + 8, 16 * i + 12) =~= dir_bytes(
            entries,
            n - 1,
        ).subrange(16 * i + 8, 16 * i + 12));
    }
}

/// In the complete output, the offset field of SFNT directory record `i`
/// is the table's computed start position whenever the layout fits the
/// 32-bit offset space — so the offsets the output declares are themselves
/// 4-byte aligned and strictly ordered, as `lemma_alignment` and
/// `lemma_offset_monotonic` state of the computed positions.
pub proof fn lemma_output_offset_field(s: Seq<u8>, i: int)
    requires
        0 <= i < spec_num_tables(s),
        offsets_fit(spec_entries(s)),
    ensures
        sfnt_output(s).subrange(12 + 16 * i + 8, 12 + 16 * i + 12) == u32_be_bytes(
            (table_start(spec_entries(s), i)) as u32,
        ),
        table_start(spec_entries(s), i) <= u32::MAX,
{
    reveal(sfnt_output);
    reveal(sfnt_header_bytes);
    let n = spec_num_tables(s);
    let ents = spec_entries(s);
    lemma_dir_bytes_len(ents, n);
    lemma_dir_offset(ents, i, n);
    assert(sfnt_header_bytes(spec_header(s).flavour, spec_header(s).num_tables).len() == 12);
    assert(sfnt_output(s).subrange(12 + 16 * i + 8, 12 + 16 * i + 12) =~= dir_bytes(
        ents,
        n,
    ).subrange(16 * i + 8, 16 * i + 12));
    lemma_alignment(ents, i);
    reveal(offsets_fit);
    assert(table_end(ents, i) <= u32::MAX);
    lemma_small_mod(table_start(ents, i) as nat, 0x100000000);
    assert(trunc_u32(table_start(ents, i)) == table_start(ents, i) as u32);
}

/// Taking a subrange that lies inside the second part of a concatenation
/// reads only that part.
pub proof fn lemma_concat_subrange_right(x: Seq<u8>, y: Seq<u8>, a: int, b: int)
    requires
        x.len() <= a <= b <= x.len() + y.len(),
    ensures
        (x + y).subrange(a, b) == y.subrange(a - x.len(), b - x.len()),
{
    assert((x + y).subrange(a, b) =~= y.subrange(a - x.len(), b - x.len()));
}

/// Taking a subrange that lies inside the first part of a concatenation
/// reads only that part.
pub proof fn lemma_concat_subrange_left(x: Seq<u8>, y: Seq<u8>, a: int, b: int)
    requires
        0 <= a <= b <= x.len(),
    ensures
        (x + y).subrange(a, b) == x.subrange(a, b),
{
    assert((x + y).subrange(a, b) =~= x.subrange(a, b));
}

/// A subrange that starts at the end of a prefix and spans a middle part
/// reads exactly that middle part.
pub proof fn lemma_concat_subrange_middle(x: Seq<u8>, y: Seq<u8>, z: Seq<u8>, a: int, b: int)
    requires
        a == x.len(),
        b == a + y.len(),
    ensures
        (x + y + z).subrange(a, b) == y,
{
    assert((x + y + z).subrange(a, b) =~= y);
}

/// The payload depends only on the parsed fields, not on the assigned
/// output offset.
pub proof fn lemma_payload_congruent(s: Seq<u8>, e1: TableDirectoryEntry, e2: TableDirectoryEntry)
    requires
        e1.offset == e2.offset,
        e1.comp_length == e2.comp_length,
        e1.orig_length == e2.orig_length,
    ensures
        table_payload(s, e1) == table_payload(s, e2),
{
    reveal(table_payload);
}

/// A payload that is in bounds and decompresses far enough is exactly the
/// declared original length.
pub proof fn lemma_payload_len(s: Seq<u8>, e: TableDirectoryEntry)
    requires
        entry_in_bounds(s, e),
        entry_inflate_ok(s, e),
    ensures
        table_payload(s, e).len() == e.orig_length,
{
    reveal(table_payload);
}

/// The emitted body of the first `k` tables runs from the first table's
/// start to table `k - 1`'s end-of-padding position.
pub proof fn lemma_body_bytes_len(s: Seq<u8>, k: int)
    requires
        0 <= k <= spec_num_tables(s),
        offsets_fit(spec_entries(s)),
        entries_in_bounds(s, spec_entries(s)),
        entries_inflate_ok(s, spec_entries(s)),
    ensures
        body_bytes(s, located_entries(s), k).len() == (if k == 0 {
            0int
        } else {
            align4(table_end(spec_entries(s), k - 1)) - table_start(spec_entries(s), 0)
        }),
    decreases k,
{
    reveal(body_bytes);
    reveal(zeros);
    let ents = spec_entries(s);
    let loc = located_entries(s);
    if k > 0 {
        lemma_body_bytes_len(s, k - 1);
        let i = k - 1;
        lemma_located_fields(s, i);
        reveal(entries_in_bounds);
        reveal(entries_inflate_ok);
        assert(ents[i] == spec_entry(s, i));
        assert(entry_in_bounds(s, ents[i]));
        assert(entry_inflate_ok(s, ents[i]));
        assert(entry_in_bounds(s, loc[i]));
        assert(entry_inflate_ok(s, loc[i]));
        lemma_payload_len(s, loc[i]);
        lemma_alignment(ents, i);
        lemma_align4(table_end(ents, i));
        assert(entry_pad_len(loc[i]) == align4(table_end(ents, i)) - table_end(ents, i));
        if k == 1 {
        } else {
            lemma_alignment(ents, i - 1);
            lemma_align4(table_start(ents, i - 1) + ents[i - 1].orig_length);
            assert(table_start(ents, i) == align4(table_end(ents, i - 1)));
        }
    }
}

/// The located record has the same parsed fields as the raw record, and its
/// assigned offset is exactly the computed start position when the layout
/// fits the 32-bit offset space.
pub proof fn lemma_located_fields(s: Seq<u8>, i: int)
    requires
        0 <= i < spec_num_tables(s),
        offsets_fit(spec_entries(s)),
    ensures
        located_entries(s)[i].offset == spec_entry(s, i).offset,
        located_entries(s)[i].comp_length == spec_entry(s, i).comp_length,
        located_entries(s)[i].orig_length == spec_entry(s, i).orig_length,
        located_entries(s)[i].orig_checksum == spec_entry(s, i).orig_checksum,
        located_entries(s)[i].otf_offset == table_start(spec_entries(s), i),
{
    reveal(located_entries);
    reveal(offsets_fit);
    lemma_alignment(spec_entries(s), i);
    assert(table_end(spec_entries(s), i) <= u32::MAX);
    lemma_small_mod(table_start(spec_entries(s), i) as nat, 0x100000000);
}

/// Within the emitted body, table `i`'s payload occupies exactly the bytes
/// from its start position to its end position, both taken relative to the
/// body's own start.
pub proof fn lemma_body_payload_at(s: Seq<u8>, i: int, k: int)
    requires
        0 <= i < k <= spec_num_tables(s),
        offsets_fit(spec_entries(s)),
        entries_in_bounds(s, spec_entries(s)),
        entries_inflate_ok(s, spec_entries(s)),
    ensures
        body_bytes(s, located_entries(s), k).subrange(
            table_start(spec_entries(s), i) - table_start(spec_entries(s), 0),
            table_end(spec_entries(s), i) - table_start(spec_entries(s), 0),
        ) == table_payload(s, located_entries(s)[i]),
    decreases k,
{
    reveal(body_bytes);
    reveal(zeros);
    let ents = spec_entries(s);
    let loc = located_entries(s);
    lemma_body_bytes_len(s, k - 1);
    lemma_located_fields(s, k - 1);
    reveal(entries_in_bounds);
    reveal(entries_inflate_ok);
    assert(ents[k - 1] == spec_entry(s, k - 1));
    assert(entry_in_bounds(s, loc[k - 1]));
    assert(entry_inflate_ok(s, loc[k - 1]));
    lemma_payload_len(s, loc[k - 1]);
    lemma_alignment(ents, k - 1);
    lemma_align4(table_end(ents, k - 1));
    assert(entry_pad_len(loc[k - 1]) == align4(table_end(ents, k - 1)) - table_end(ents, k - 1));
    let a = table_start(ents, i) - table_start(ents, 0);
    let b = table_end(ents, i) - table_start(ents, 0);
    if i == k - 1 {
        if k >= 2 {
            lemma_alignment(ents, k - 2);
            lemma_align4(table_start(ents, k - 2) + ents[k - 2].orig_length);
            assert(table_start(ents, k - 1) == align4(table_end(ents, k - 2)));
        }
        lemma_alignment(ents, i);
        lemma_concat_subrange_middle(
            body_bytes(s, loc, k - 1),
            table_payload(s, loc[k - 1]),
            zeros(entry_pad_len(loc[k - 1])),
            a,
            b,
        );
    } else {
        lemma_body_payload_at(s, i, k - 1);
        lemma_alignment(ents, i);
        lemma_offset_monotonic(ents, i);
        lemma_monotonic_range(ents, i, k - 2);
        if i >= 1 {
            lemma_monotonic_range(ents, 0, i - 1);
            lemma_alignment(ents, i - 1);
            lemma_align4(table_start(ents, i - 1) + ents[i - 1].orig_length);
            assert(table_start(ents, i) == align4(table_end(ents, i - 1)));
        }
        assert(zeros(entry_pad_len(loc[k - 1])).len() == entry_pad_len(loc[k - 1]));
        lemma_concat_subrange_left(
            body_bytes(s, loc, k - 1),
            table_payload(s, loc[k - 1]) + zeros(entry_pad_len(loc[k - 1])),
            a,
            b,
        );
        assert(body_bytes(s, loc, k - 1) + table_payload(s, loc[k - 1]) + zeros(
            entry_pad_len(loc[k - 1]),
        ) == body_bytes(s, loc, k - 1) + (table_payload(s, loc[k - 1]) + zeros(
            entry_pad_len(loc[k - 1]),
        ))) by {
            assert(body_bytes(s, loc, k - 1) + table_payload(s, loc[k - 1]) + zeros(
                entry_pad_len(loc[k - 1]),
            ) =~= body_bytes(s, loc, k - 1) + (table_payload(s, loc[k - 1]) + zeros(
                entry_pad_len(loc[k - 1]),
            )));
        }
    }
}

/// Start positions never decrease between two directory positions.
pub proof fn lemma_monotonic_range(entries: Seq<TableDirectoryEntry>, a: int, b: int)
    requires
        0 <= a <= b,
    ensures
        table_start(entries, a) + entries[a].orig_length <= align4(table_end(entries, b)),
    decreases b - a,
{
    lemma_alignment(entries, b);
    lemma_align4(table_end(entries, b));
    if a < b {
        lemma_monotonic_range(entries, a, b - 1);
        lemma_alignment(entries, b - 1);
        lemma_align4(table_end(entries, b - 1));
        assert(table_start(entries, b) == align4(table_end(entries, b - 1)));
    }
}

/// Table placement: in the complete output, table `i`'s decompressed
/// payload occupies exactly the byte range from its start position to its
/// end position, whenever the conversion can succeed on `s`.
pub proof fn lemma_table_placement(s: Seq<u8>, i: int)
    requires
        0 <= i < spec_num_tables(s),
        offsets_fit(spec_entries(s)),
        entries_in_bounds(s, spec_entries(s)),
        entries_inflate_ok(s, spec_entries(s)),
    ensures
        sfnt_output(s).subrange(table_start(spec_entries(s), i), table_end(spec_entries(s), i))
            == table_payload(s, spec_entry(s, i)),
{
    reveal(sfnt_output);
    reveal(sfnt_header_bytes);
    let n = spec_num_tables(s);
    let ents = spec_entries(s);
    let loc = located_entries(s);
    lemma_dir_bytes_len(ents, n);
    assert(sfnt_header_bytes(spec_header(s).flavour, spec_header(s).num_tables).len() == 12);
    lemma_body_bytes_len(s, n);
    lemma_body_payload_at(s, i, n);
    lemma_located_fields(s, i);
    lemma_alignment(ents, i);
    lemma_monotonic_range(ents, i, n - 1);
    if i >= 1 {
        lemma_monotonic_range(ents, 0, i - 1);
        lemma_alignment(ents, i - 1);
        lemma_align4(table_start(ents, i - 1) + ents[i - 1].orig_length);
        assert(table_start(ents, i) == align4(table_end(ents, i - 1)));
    }
    reveal(entries_in_bounds);
    reveal(entries_inflate_ok);
    assert(ents[i] == spec_entry(s, i));
    assert(entry_in_bounds(s, loc[i]));
    assert(entry_inflate_ok(s, loc[i]));
    lemma_payload_len(s, loc[i]);
    lemma_concat_subrange_right(
        sfnt_header_bytes(spec_header(s).flavour, spec_header(s).num_tables) + dir_bytes(ents, n),
        body_bytes(s, loc, n),
        table_start(ents, i),
        table_end(ents, i),
    );
    lemma_payload_congruent(s, loc[i], spec_entry(s, i));
}

/// Stored versus compressed tables: a table whose stored length equals its
/// original length is copied verbatim from the input; any other table is
/// the zlib decompression of its stored bytes, and when that decompression
/// covers the declared length the payload is exactly `origLength` bytes.
pub proof fn lemma_table_payload_kinds(s: Seq<u8>, e: TableDirectoryEntry)
    ensures
        e.comp_length == e.orig_length ==> table_payload(s, e) == s.subrange(
            e.offset as int,
            e.offset + e.orig_length,
        ),
        e.comp_length != e.orig_length && entry_inflate_ok(s, e) ==> table_payload(s, e)
            == zlib_inflate(s.subrange(e.offset as int, e.offset + e.comp_length)).take(
            e.orig_length as int,
        ) && table_payload(s, e).len() == e.orig_length,
{
    reveal(table_payload);
}

} // verus!
