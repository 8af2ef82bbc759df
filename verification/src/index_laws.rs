//! Laws of the chunk index.

use vstd::arithmetic::div_mod::*;
use vstd::arithmetic::mul::*;
use vstd::bytes::*;
use vstd::prelude::*;

use crate::index;
use crate::index::{IndexModel, SozipIndex};
use crate::text;

verus! {

/// Division with remainder, over a positive divisor.
proof fn lemma_division(x: int, d: int)
    requires
        d > 0,
    ensures
        x == (x / d) * d + x % d,
        0 <= x % d < d,
{
    lemma_fundamental_div_mod(x, d);
    lemma_mul_is_commutative(x / d, d);
}

/// An index has as many chunks as its entry takes: all but the last are full and
/// the last is not empty.
pub proof fn law_chunk_count(index: IndexModel)
    requires
        index.well_formed(),
    ensures
        index.num_chunks() == index::chunks_for(
            index.uncompressed_size as nat,
            index.chunk_size as nat,
        ),
        index.uncompressed_size > 0 ==> (index.num_chunks() - 1) * index.chunk_size
            < index.uncompressed_size <= index.num_chunks() * index.chunk_size,
        index.uncompressed_size == 0 <==> index.num_chunks() == 0,
{
    if index.uncompressed_size > 0 {
        let size = index.uncompressed_size as int;
        let chunk = index.chunk_size as int;
        let stored = (size - 1) / chunk;
        lemma_division(size - 1, chunk);
        assert((stored + 1) * chunk == stored * chunk + chunk) by (nonlinear_arith);
    }
}

/// Every byte of the entry lies in exactly the chunk that it is located in, and
/// that chunk is one of the index, so its compressed range can be asked for.
pub proof fn law_location(index: IndexModel, pos: int)
    requires
        index.well_formed(),
        0 <= pos < index.uncompressed_size,
    ensures
        0 <= index.chunk_of(pos) < index.num_chunks(),
        index.chunk_begin(index.chunk_of(pos)) + index.offset_in_chunk(pos) == pos,
        index.chunk_begin(index.chunk_of(pos)) <= pos < index.chunk_end(index.chunk_of(pos)),
        forall|chunk: int|
            #![trigger index.chunk_begin(chunk)]
            index.chunk_begin(chunk) <= pos < index.chunk_begin(chunk) + index.chunk_size
                ==> chunk == index.chunk_of(pos),
{
    let size = index.uncompressed_size as int;
    let d = index.chunk_size as int;
    lemma_division(pos, d);
    lemma_div_is_ordered(pos, size - 1, d);
    lemma_div_pos_is_pos(pos, d);
    assert forall|chunk: int|
        #![trigger index.chunk_begin(chunk)]
        index.chunk_begin(chunk) <= pos < index.chunk_begin(chunk)
            + index.chunk_size implies chunk == index.chunk_of(pos) by {
        lemma_fundamental_div_mod_converse(pos, d, chunk, pos - chunk * d);
    }
}

/// The compressed ranges of the chunks, in order, cover the compressed data from
/// its first byte to its last, each starting where the one before it ends.
pub proof fn law_ranges_tile(index: IndexModel)
    requires
        index.well_formed(),
        index.uncompressed_size > 0,
    ensures
        index.range_start(0) == 0,
        index.range_end(index.num_chunks() - 1) == index.compressed_size,
        forall|chunk: int|
            0 <= chunk < index.num_chunks() - 1 ==> #[trigger] index.range_end(chunk)
                == index.range_start(chunk + 1),
        forall|chunk: int|
            0 <= chunk < index.num_chunks() - 1 ==> #[trigger] index.range_start(chunk)
                <= index.range_end(chunk),
{
}

/// The bytes of an index file: the header, `skipped` and the offset table.
pub open spec fn encoded(index: IndexModel, skipped: Seq<u8>) -> Seq<u8> {
    spec_u32_to_le_bytes(index.version) + spec_u32_to_le_bytes(skipped.len() as u32)
        + spec_u32_to_le_bytes(index.chunk_size) + spec_u32_to_le_bytes(8)
        + spec_u64_to_le_bytes(index.uncompressed_size) + spec_u64_to_le_bytes(
        index.compressed_size,
    ) + skipped + encoded_offsets(index.offsets)
}

/// The bytes of an offset table.
pub open spec fn encoded_offsets(offsets: Seq<u64>) -> Seq<u8>
    decreases offsets.len(),
{
    if offsets.len() == 0 {
        Seq::empty()
    } else {
        encoded_offsets(offsets.drop_last()) + spec_u64_to_le_bytes(offsets.last())
    }
}

proof fn lemma_encoded_offsets(offsets: Seq<u64>)
    ensures
        encoded_offsets(offsets).len() == offsets.len() * 8,
        forall|i: int|
            0 <= i < offsets.len() ==> #[trigger] index::u64_at(encoded_offsets(offsets), i * 8)
                == offsets[i],
    decreases offsets.len(),
{
    lemma_auto_spec_u64_to_from_le_bytes();
    if offsets.len() > 0 {
        let front = offsets.drop_last();
        let bytes = encoded_offsets(offsets);
        lemma_encoded_offsets(front);
        assert forall|i: int| 0 <= i < offsets.len() implies #[trigger] index::u64_at(bytes, i * 8)
            == offsets[i] by {
            if i < front.len() {
                assert(bytes.subrange(i * 8, i * 8 + 8) =~= encoded_offsets(front).subrange(
                    i * 8,
                    i * 8 + 8,
                ));
                assert(index::u64_at(encoded_offsets(front), i * 8) == front[i]);
            } else {
                assert(bytes.subrange(i * 8, i * 8 + 8) =~= spec_u64_to_le_bytes(offsets.last()));
            }
        }
    }
}

/// Parsing gives back every well-formed index from its file, whatever the skipped
/// bytes are and whatever follows the table.
pub proof fn law_parse_encoded(index: IndexModel, skipped: Seq<u8>, rest: Seq<u8>)
    requires
        index.well_formed(),
        skipped.len() <= u32::MAX,
    ensures
        index::parse_index(encoded(index, skipped) + rest) == Ok::<IndexModel, Seq<char>>(index),
{
    lemma_auto_spec_u32_to_from_le_bytes();
    lemma_auto_spec_u64_to_from_le_bytes();
    lemma_encoded_offsets(index.offsets);
    let data = encoded(index, skipped) + rest;
    let table = encoded_offsets(index.offsets);
    assert(data.subrange(0, 4) =~= spec_u32_to_le_bytes(index.version));
    assert(data.subrange(4, 8) =~= spec_u32_to_le_bytes(skipped.len() as u32));
    assert(data.subrange(8, 12) =~= spec_u32_to_le_bytes(index.chunk_size));
    assert(data.subrange(12, 16) =~= spec_u32_to_le_bytes(8));
    assert(data.subrange(16, 24) =~= spec_u64_to_le_bytes(index.uncompressed_size));
    assert(data.subrange(24, 32) =~= spec_u64_to_le_bytes(index.compressed_size));
    let start = index::table_start(data);
    assert forall|i: int| 0 <= i < index.offsets.len() implies #[trigger] index::u64_at(
        data,
        start + i * 8,
    ) == index.offsets[i] by {
        assert(data.subrange(start + i * 8, start + i * 8 + 8) =~= table.subrange(
            i * 8,
            i * 8 + 8,
        ));
        assert(index::u64_at(table, i * 8) == index.offsets[i]);
    }
    assert(index::decoded_index(data).offsets =~= index.offsets);
}

/// What is parsed is what the file holds: an accepted file starts with the encoding
/// of its index.
pub proof fn law_parsed_bytes(data: Seq<u8>)
    requires
        index::parse_index(data) is Ok,
    ensures
        ({
            let index = index::parse_index(data)->Ok_0;
            let start = index::table_start(data);
            &&& index.well_formed()
            &&& encoded(index, data.subrange(32, start)).is_prefix_of(data)
        }),
{
    lemma_auto_spec_u32_to_from_le_bytes();
    lemma_auto_spec_u64_to_from_le_bytes();
    let index = index::parse_index(data)->Ok_0;
    let start = index::table_start(data);
    let skipped = data.subrange(32, start);
    let count = index::table_len(data);
    assert(spec_u32_to_le_bytes(index::u32_at(data, 0)) == data.subrange(0, 4));
    assert(spec_u32_to_le_bytes(index::u32_at(data, 4)) == data.subrange(4, 8));
    assert(spec_u32_to_le_bytes(index::u32_at(data, 8)) == data.subrange(8, 12));
    assert(spec_u32_to_le_bytes(index::u32_at(data, 12)) == data.subrange(12, 16));
    assert(spec_u64_to_le_bytes(index::u64_at(data, 16)) == data.subrange(16, 24));
    assert(spec_u64_to_le_bytes(index::u64_at(data, 24)) == data.subrange(24, 32));
    lemma_table_bytes(data, start, count);
    let table = data.subrange(start, start + count * 8);
    assert(encoded_offsets(index.offsets) == table);
    assert(skipped.len() as u32 == index::u32_at(data, 4));
    assert(encoded(index, skipped) =~= data.take(start + count * 8));
}

proof fn lemma_table_bytes(data: Seq<u8>, start: int, count: nat)
    requires
        0 <= start,
        start + count * 8 <= data.len(),
    ensures
        encoded_offsets(index::offset_table(data, start, count)) == data.subrange(
            start,
            start + count * 8,
        ),
    decreases count,
{
    lemma_auto_spec_u64_to_from_le_bytes();
    let table = index::offset_table(data, start, count);
    if count == 0 {
        assert(data.subrange(start, start) =~= Seq::empty());
    } else {
        let n = (count - 1) as nat;
        lemma_table_bytes(data, start, n);
        assert(table.drop_last() =~= index::offset_table(data, start, n));
        assert(spec_u64_to_le_bytes(index::u64_at(data, start + n * 8)) == data.subrange(
            start + n * 8,
            start + n * 8 + 8,
        ));
        assert(data.subrange(start, start + n * 8) + data.subrange(
            start + n * 8,
            start + n * 8 + 8,
        ) =~= data.subrange(start, start + count * 8));
    }
}

/// The index file of an entry has the name of an index file, so it is never taken
/// for an entry of its own.
pub proof fn law_index_file_is_hidden(name: Seq<char>)
    ensures
        index::is_index_name(index::hidden_name(name)),
{
    let hidden = index::hidden_name(name);
    lemma_dir_len(name);
    assert(hidden.skip(hidden.len() - index::index_suffix().len()) =~= index::index_suffix());
}

proof fn lemma_dir_len(name: Seq<char>)
    ensures
        index::dir_len(name) <= name.len(),
        index::dir_len(name) > 0 ==> name[index::dir_len(name) - 1] == '/',
        forall|i: int| index::dir_len(name) <= i < name.len() ==> name[i] != '/',
    decreases name.len(),
{
    if name.len() > 0 && name.last() != '/' {
        lemma_dir_len(name.drop_last());
        assert forall|i: int| index::dir_len(name) <= i < name.len() implies name[i] != '/' by {
            if i < name.len() - 1 {
                assert(name[i] == name.drop_last()[i]);
            }
        }
    }
}

/// Distinct entries have distinct index files.
pub proof fn law_index_files_distinct(a: Seq<char>, b: Seq<char>)
    requires
        index::hidden_name(a) == index::hidden_name(b),
    ensures
        a == b,
{
    reveal_strlit(".");
    reveal_strlit(".sozip.idx");
    lemma_dir_len(a);
    lemma_dir_len(b);
    let h = index::hidden_name(a);
    let g = index::hidden_name(b);
    let da = index::dir_len(a) as int;
    let db = index::dir_len(b) as int;
    assert(h.len() == a.len() + 11);
    assert(g.len() == b.len() + 11);
    if da < db {
        assert(g[db - 1] == '/');
        assert(h[db - 1] != '/');
    }
    if db < da {
        assert(h[da - 1] == '/');
        assert(g[da - 1] != '/');
    }
    assert forall|i: int| 0 <= i < a.len() implies a[i] == b[i] by {
        if i < da {
            assert(h[i] == a[i]);
            assert(g[i] == b[i]);
        } else {
            assert(h[i + 1] == a[i]);
            assert(g[i + 1] == b[i]);
        }
    }
    assert(a =~= b);
}

/// An index says what its fields say.
pub proof fn law_index_view(index: SozipIndex)
    ensures
        index@.version == index.version,
        index@.chunk_size == index.chunk_size,
        index@.uncompressed_size == index.uncompressed_size,
        index@.compressed_size == index.compressed_size,
        index@.offsets == index.offsets@,
{
}

/// The boundaries of the compressed ranges are the stored offsets: chunk 0 starts at 0,
/// every other chunk at the offset that is stored for it, and every chunk ends where the
/// next one starts or, for the last, with the compressed data.
pub proof fn law_range_boundaries(index: IndexModel)
    requires
        index.uncompressed_size > 0,
    ensures
        index.num_chunks() == index.offsets.len() + 1,
        index.range_start(0) == 0,
        forall|chunk: int|
            0 < chunk <= index.offsets.len() ==> #[trigger] index.range_start(chunk)
                == index.offsets[chunk - 1],
        forall|chunk: int|
            0 <= chunk < index.offsets.len() ==> #[trigger] index.range_end(chunk)
                == index.offsets[chunk],
        index.range_end(index.offsets.len() as int) == index.compressed_size,
{
}

/// An empty entry has no chunks, whatever the table holds.
pub proof fn law_empty_entry_has_no_chunks(index: IndexModel)
    requires
        index.uncompressed_size == 0,
    ensures
        index.num_chunks() == 0,
{
}

/// Chunks are laid out side by side, `chunk_size` bytes each, and the entry cuts the
/// last one short: a position is the beginning of its chunk and the offset in it.
pub proof fn law_chunk_layout(index: IndexModel, chunk: int, pos: int)
    requires
        index.chunk_size > 0,
    ensures
        index.chunk_of(pos) * index.chunk_size + index.offset_in_chunk(pos) == pos,
        0 <= index.offset_in_chunk(pos) < index.chunk_size,
        index.chunk_begin(chunk) == chunk * index.chunk_size,
        index.chunk_end(chunk) <= index.uncompressed_size,
        index.chunk_end(chunk) <= chunk * index.chunk_size + index.chunk_size,
        index.chunk_end(chunk) == index.uncompressed_size || index.chunk_end(chunk) == chunk
            * index.chunk_size + index.chunk_size,
{
    lemma_division(pos, index.chunk_size as int);
}

/// The complaint about a chunk number tells the number and how many chunks there are.
pub proof fn law_no_such_chunk(index: IndexModel, chunk: nat)
    ensures
        index::no_such_chunk(index, chunk) == "chunk index "@ + text::decimal(chunk)
            + " out of range (have "@ + text::decimal(
            if index.uncompressed_size == 0 {
                0
            } else {
                index.offsets.len() + 1
            },
        ) + " chunks)"@,
{
}

/// An index is well-formed if and only if it is of version 1, its chunks have a size,
/// its table has one offset per full chunk that something follows, and no offset is
/// smaller than the one before it.
pub proof fn law_well_formed(index: IndexModel)
    ensures
        index.well_formed() <==> {
            &&& index.version == 1
            &&& index.chunk_size > 0
            &&& index.uncompressed_size == 0 ==> index.offsets.len() == 0
            &&& index.uncompressed_size > 0 ==> index.offsets.len() * index.chunk_size
                < index.uncompressed_size <= index.offsets.len() * index.chunk_size
                + index.chunk_size
            &&& forall|i: int|
                0 < i < index.offsets.len() ==> index.offsets[i - 1] <= #[trigger] index.offsets[i]
        },
{
    let d = index.chunk_size as int;
    let size = index.uncompressed_size as int;
    let count = index.offsets.len() as int;
    if d > 0 && size > 0 {
        lemma_table_count(size, d, count);
    }
    lemma_sorted(index.offsets);
}

/// The number of whole chunks before the last byte.
proof fn lemma_table_count(size: int, d: int, count: int)
    requires
        d > 0,
        size > 0,
    ensures
        (size - 1) / d == count <==> count * d < size <= count * d + d,
{
    lemma_division(size - 1, d);
    if count * d < size <= count * d + d {
        lemma_fundamental_div_mod_converse(size - 1, d, count, size - 1 - count * d);
    }
}

/// A table that descends at no step descends nowhere.
proof fn lemma_ascends(offsets: Seq<u64>, i: int, j: int)
    requires
        forall|k: int| !index::descends_at(offsets, k),
        0 <= i <= j < offsets.len(),
    ensures
        offsets[i] <= offsets[j],
    decreases j - i,
{
    if i < j {
        lemma_ascends(offsets, i, j - 1);
        assert(!index::descends_at(offsets, j - 1));
    }
}

/// Whether a table descends can be told step by step.
proof fn lemma_sorted(offsets: Seq<u64>)
    ensures
        index::non_decreasing(offsets) <==> forall|i: int|
            0 < i < offsets.len() ==> offsets[i - 1] <= #[trigger] offsets[i],
{
    if exists|k: int| index::descends_at(offsets, k) {
        let k = choose|k: int| index::descends_at(offsets, k);
        assert(!(offsets[k + 1 - 1] <= offsets[k + 1]));
    } else {
        assert forall|i: int, j: int| 0 <= i <= j < offsets.len() implies offsets[i]
            <= offsets[j] by {
            lemma_ascends(offsets, i, j);
        }
    }
}

/// What a file must hold to be accepted, and what is then read from it. The file is at
/// least the 32-byte header; `count` is the number of offsets that its size and chunk
/// size call for. It is accepted if and only if its version is 1, its offsets have 8
/// bytes, all of them are there behind the skipped bytes, and none is smaller than one
/// before it.
pub proof fn law_accepted_file(data: Seq<u8>, count: nat)
    requires
        data.len() >= 32,
        spec_u32_from_le_bytes(data.subrange(8, 12)) > 0,
        spec_u64_from_le_bytes(data.subrange(16, 24)) == 0 ==> count == 0,
        spec_u64_from_le_bytes(data.subrange(16, 24)) > 0 ==> count * spec_u32_from_le_bytes(
            data.subrange(8, 12),
        ) < spec_u64_from_le_bytes(data.subrange(16, 24)) <= count * spec_u32_from_le_bytes(
            data.subrange(8, 12),
        ) + spec_u32_from_le_bytes(data.subrange(8, 12)),
    ensures
        ({
            let start = 32 + spec_u32_from_le_bytes(data.subrange(4, 8));
            let offset = |i: int|
                spec_u64_from_le_bytes(data.subrange(start + i * 8, start + i * 8 + 8));
            &&& index::parse_index(data) is Ok <==> {
                &&& spec_u32_from_le_bytes(data.subrange(0, 4)) == 1
                &&& spec_u32_from_le_bytes(data.subrange(12, 16)) == 8
                &&& start + count * 8 <= data.len()
                &&& forall|i: int, j: int|
                    0 <= i <= j < count ==> #[trigger] offset(i) <= #[trigger] offset(j)
            }
            &&& index::parse_index(data) matches Ok(index) ==> {
                &&& index.version == 1
                &&& index.chunk_size == spec_u32_from_le_bytes(data.subrange(8, 12))
                &&& index.uncompressed_size == spec_u64_from_le_bytes(data.subrange(16, 24))
                &&& index.compressed_size == spec_u64_from_le_bytes(data.subrange(24, 32))
                &&& index.offsets.len() == count
                &&& forall|i: int| 0 <= i < count ==> #[trigger] index.offsets[i] == offset(i)
            }
        }),
{
    let start = 32 + spec_u32_from_le_bytes(data.subrange(4, 8));
    let offset = |i: int|
        spec_u64_from_le_bytes(data.subrange(start + i * 8, start + i * 8 + 8));
    let d = spec_u32_from_le_bytes(data.subrange(8, 12)) as int;
    let size = spec_u64_from_le_bytes(data.subrange(16, 24)) as int;
    let offsets = index::decoded_index(data).offsets;
    if size > 0 {
        lemma_table_count(size, d, count as int);
    }
    assert(offsets.len() == count);
    assert forall|i: int| 0 <= i < count implies #[trigger] offsets[i] == offset(i) by {}
    if index::non_decreasing(offsets) {
        assert forall|i: int, j: int| 0 <= i <= j < count implies #[trigger] offset(i)
            <= #[trigger] offset(j) by {
            assert(offsets[i] <= offsets[j]);
        }
    } else {
        let (i, j) = choose|i: int, j: int|
            0 <= i <= j < offsets.len() && !(offsets[i] <= offsets[j]);
        assert(!(offset(i) <= offset(j)));
    }
}

/// Why a file is refused, in the order in which it is looked at: too short for a
/// header, another version, chunks without a size, offsets of another width, too short
/// for the table, or a table that descends; each complaint tells the numbers at fault.
pub proof fn law_refused_file(data: Seq<u8>, count: nat)
    requires
        ({
            let d = spec_u32_from_le_bytes(data.subrange(8, 12));
            let size = spec_u64_from_le_bytes(data.subrange(16, 24));
            &&& size == 0 ==> count == 0
            &&& d > 0 && size > 0 ==> count * d < size <= count * d + d
        }),
    ensures
        ({
            let version = spec_u32_from_le_bytes(data.subrange(0, 4));
            let start = 32 + spec_u32_from_le_bytes(data.subrange(4, 8));
            let d = spec_u32_from_le_bytes(data.subrange(8, 12));
            let width = spec_u32_from_le_bytes(data.subrange(12, 16));
            let size = spec_u64_from_le_bytes(data.subrange(16, 24));
            let parsed = index::parse_index(data);
            let refused = |reason: Seq<char>| parsed == Err::<IndexModel, Seq<char>>(reason);
            let offset = |i: int|
                spec_u64_from_le_bytes(data.subrange(start + i * 8, start + i * 8 + 8));
            let header = data.len() >= 32;
            &&& !header ==> refused(
                "index too short: "@ + text::decimal(data.len()) + " bytes, need at least 32"@,
            )
            &&& header && version != 1 ==> refused(
                "unsupported version "@ + text::decimal(version as nat) + ", expected "@
                    + text::decimal(1),
            )
            &&& header && version == 1 && d == 0 ==> refused("chunk_size must not be zero"@)
            &&& header && version == 1 && d > 0 && width != 8 ==> refused(
                "offset_size must be 8, got "@ + text::decimal(width as nat),
            )
            &&& header && version == 1 && d > 0 && width == 8 && data.len() < start + count * 8
                ==> refused(
                "index data too short for "@ + text::decimal(count) + " offsets ("@
                    + text::decimal(
                    if size == 0 {
                        0
                    } else {
                        count + 1
                    },
                ) + " chunks): need "@ + text::decimal((start + count * 8) as nat)
                    + " bytes, have "@ + text::decimal(data.len()),
            )
            &&& header && version == 1 && d > 0 && width == 8 && data.len() >= start + count * 8
                ==> forall|i: int|
                #![trigger offset(i)]
                0 < i < count && offset(i) < offset(i - 1) && (forall|j: int, k: int|
                    0 <= j <= k < i ==> #[trigger] offset(j) <= #[trigger] offset(k)) ==> refused(
                    "non-monotonic offsets: "@ + text::decimal(offset(i - 1) as nat)
                        + " followed by "@ + text::decimal(offset(i) as nat),
                )
        }),
{
    let start = 32 + spec_u32_from_le_bytes(data.subrange(4, 8));
    let d = spec_u32_from_le_bytes(data.subrange(8, 12)) as int;
    let size = spec_u64_from_le_bytes(data.subrange(16, 24)) as int;
    let offset = |i: int|
        spec_u64_from_le_bytes(data.subrange(start + i * 8, start + i * 8 + 8));
    let offsets = index::decoded_index(data).offsets;
    if d > 0 {
        if size > 0 {
            lemma_table_count(size, d, count as int);
        }
        assert(offsets.len() == count);
        assert forall|i: int|
            #![trigger offset(i)]
            0 < i < count && offset(i) < offset(i - 1) && (forall|j: int, k: int|
                0 <= j <= k < i ==> #[trigger] offset(j) <= #[trigger] offset(k)) implies {
            let first = choose|k: int| index::first_descent(offsets, k);
            &&& !index::non_decreasing(offsets)
            &&& first == i - 1
            &&& offsets[first] == offset(i - 1)
            &&& offsets[first + 1] == offset(i)
        } by {
            assert(offsets[i] == offset(i) && offsets[i - 1] == offset(i - 1));
            assert(!(offsets[i - 1] <= offsets[i]));
            assert forall|j: int| 0 <= j < i - 1 implies !index::descends_at(offsets, j) by {
                assert(offset(j) <= offset(j + 1));
                assert(offsets[j] == offset(j) && offsets[j + 1] == offset(j + 1));
            }
            assert(index::descends_at(offsets, i - 1));
            assert(index::first_descent(offsets, i - 1));
            let first = choose|k: int| index::first_descent(offsets, k);
            assert(index::first_descent(offsets, first));
            if first < i - 1 {
                assert(!index::descends_at(offsets, first));
            }
            if first > i - 1 {
                assert(!index::descends_at(offsets, i - 1));
            }
        }
    }
}

/// The index file of an entry stands in the directory of the entry: its name is that
/// directory, a dot, the last component of the name and the suffix.
pub proof fn law_index_file_name(dir: Seq<char>, base: Seq<char>)
    requires
        dir.len() == 0 || dir.last() == '/',
        forall|i: int| 0 <= i < base.len() ==> base[i] != '/',
    ensures
        index::hidden_name(dir + base) == dir + "."@ + base + ".sozip.idx"@,
{
    let name = dir + base;
    lemma_dir_len(name);
    let split = index::dir_len(name) as int;
    if split > dir.len() {
        assert(name[split - 1] == base[split - 1 - dir.len()]);
    }
    if split < dir.len() {
        assert(name[dir.len() - 1] == dir.last());
    }
    assert(name.take(split) =~= dir);
    assert(name.skip(split) =~= base);
}

/// Index files are the files with the suffix `.sozip.idx`, and only those.
pub proof fn law_index_files_by_suffix(name: Seq<char>)
    ensures
        forall|stem: Seq<char>| index::is_index_name(#[trigger] (stem + ".sozip.idx"@)),
        index::is_index_name(name) ==> exists|stem: Seq<char>|
            name == #[trigger] (stem + ".sozip.idx"@),
{
    let suffix = ".sozip.idx"@;
    assert forall|stem: Seq<char>| index::is_index_name(#[trigger] (stem + suffix)) by {
        assert((stem + suffix).skip(stem.len() as int) =~= suffix);
    }
    if index::is_index_name(name) {
        let stem = name.take(name.len() - suffix.len());
        assert(name =~= stem + suffix);
    }
}

} // verus!
