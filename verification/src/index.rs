//! The chunk index of an entry.
//!
//! An index is a 32-byte header followed by a table of `u64` offsets, all
//! little-endian:
//!
//! | Offset | Size | Field             | Constraint                            |
//! |--------|------|-------------------|---------------------------------------|
//! | 0      | 4    | version           | must be 1                             |
//! | 4      | 4    | skip_bytes        | bytes between the header and the table|
//! | 8      | 4    | chunk_size        | must not be 0                         |
//! | 12     | 4    | offset_size       | must be 8                             |
//! | 16     | 8    | uncompressed_size | equal to that of the ZIP entry        |
//! | 24     | 8    | compressed_size   | equal to that of the ZIP entry        |
//!
//! An entry of `n > 0` bytes has `ceil(n / chunk_size)` chunks. The first one
//! starts at compressed offset 0; the table holds the starts of the others.

use vstd::arithmetic::div_mod::*;
use vstd::bytes::*;
use vstd::prelude::*;
use vstd::slice::{slice_subrange, slice_to_vec};
use vstd::string::*;

use crate::error::SozipError;
use crate::text;

verus! {

/// Version of the index format that this library reads.
pub const SOZIP_VERSION: u32 = 1;

/// Customary chunk size in bytes (32 KB).
pub const SOZIP_DEFAULT_CHUNK_SIZE: u32 = 32768;

/// A parsed chunk index.
#[derive(Debug)]
pub struct SozipIndex {
    /// Format version.
    pub version: u32,
    /// Uncompressed bytes per chunk.
    pub chunk_size: u32,
    /// Uncompressed size of the entry.
    pub uncompressed_size: u64,
    /// Compressed size of the entry.
    pub compressed_size: u64,
    /// Compressed offsets of all chunks but the first: `offsets[i]` is where
    /// chunk `i + 1` begins.
    pub offsets: Vec<u64>,
}

impl Clone for SozipIndex {
    fn clone(&self) -> (copy: Self)
        ensures
            copy@ == self@,
    {
        SozipIndex {
            version: self.version,
            chunk_size: self.chunk_size,
            uncompressed_size: self.uncompressed_size,
            compressed_size: self.compressed_size,
            offsets: slice_to_vec(self.offsets.as_slice()),
        }
    }
}

/// What a [`SozipIndex`] says, as a mathematical value.
pub struct IndexModel {
    pub version: u32,
    pub chunk_size: u32,
    pub uncompressed_size: u64,
    pub compressed_size: u64,
    pub offsets: Seq<u64>,
}

impl View for SozipIndex {
    type V = IndexModel;

    open spec fn view(&self) -> IndexModel {
        IndexModel {
            version: self.version,
            chunk_size: self.chunk_size,
            uncompressed_size: self.uncompressed_size,
            compressed_size: self.compressed_size,
            offsets: self.offsets@,
        }
    }
}

/// The number of chunks that `size` bytes take: `size / chunk_size`, rounded up.
pub open spec fn chunks_for(size: nat, chunk_size: nat) -> nat {
    if size == 0 {
        0
    } else {
        ((size - 1) as nat / chunk_size + 1) as nat
    }
}

/// The number of table entries for `size` bytes: one per chunk but the first.
pub open spec fn stored_offsets(size: nat, chunk_size: nat) -> nat {
    if size == 0 {
        0
    } else {
        (size - 1) as nat / chunk_size
    }
}

/// Offset `i + 1` of the table is smaller than offset `i`.
pub open spec fn descends_at(offsets: Seq<u64>, i: int) -> bool {
    0 <= i < offsets.len() - 1 && offsets[i + 1] < offsets[i]
}

/// The first place where the table descends.
pub open spec fn first_descent(offsets: Seq<u64>, i: int) -> bool {
    descends_at(offsets, i) && forall|j: int| 0 <= j < i ==> !descends_at(offsets, j)
}

/// The table never descends.
pub open spec fn non_decreasing(offsets: Seq<u64>) -> bool {
    forall|i: int, j: int| 0 <= i <= j < offsets.len() ==> offsets[i] <= offsets[j]
}

impl IndexModel {
    /// The number of chunks that the index describes.
    pub open spec fn num_chunks(self) -> nat {
        if self.uncompressed_size == 0 {
            0
        } else {
            self.offsets.len() + 1
        }
    }

    /// The chunk that holds the uncompressed byte at `pos`.
    pub open spec fn chunk_of(self, pos: int) -> int {
        pos / self.chunk_size as int
    }

    /// Where in its chunk the uncompressed byte at `pos` stands.
    pub open spec fn offset_in_chunk(self, pos: int) -> int {
        pos % self.chunk_size as int
    }

    /// The uncompressed offset at which chunk `chunk` begins.
    pub open spec fn chunk_begin(self, chunk: int) -> int {
        chunk * self.chunk_size as int
    }

    /// The uncompressed offset at which chunk `chunk` ends: the last chunk may
    /// be short.
    pub open spec fn chunk_end(self, chunk: int) -> int {
        if self.chunk_begin(chunk) + self.chunk_size <= self.uncompressed_size {
            self.chunk_begin(chunk) + self.chunk_size
        } else {
            self.uncompressed_size as int
        }
    }

    /// Where the compressed data of chunk `chunk` starts.
    pub open spec fn range_start(self, chunk: int) -> u64 {
        if chunk == 0 {
            0
        } else {
            self.offsets[chunk - 1]
        }
    }

    /// Where the compressed data of chunk `chunk` ends.
    pub open spec fn range_end(self, chunk: int) -> u64 {
        if chunk < self.offsets.len() {
            self.offsets[chunk]
        } else {
            self.compressed_size
        }
    }

    /// What every parsed index satisfies.
    pub open spec fn well_formed(self) -> bool {
        &&& self.version == SOZIP_VERSION
        &&& self.chunk_size > 0
        &&& self.offsets.len() == stored_offsets(
            self.uncompressed_size as nat,
            self.chunk_size as nat,
        )
        &&& non_decreasing(self.offsets)
    }

    /// The number of chunks and the number of each chunk fit into a `usize`.
    pub open spec fn addressable(self) -> bool {
        &&& self.offsets.len() < usize::MAX
        &&& forall|pos: int|
            0 <= pos < self.uncompressed_size ==> #[trigger] self.chunk_of(pos) <= usize::MAX
    }
}

/// The little-endian `u32` at byte `at`.
pub open spec fn u32_at(data: Seq<u8>, at: int) -> u32 {
    spec_u32_from_le_bytes(data.subrange(at, at + 4))
}

/// The little-endian `u64` at byte `at`.
pub open spec fn u64_at(data: Seq<u8>, at: int) -> u64 {
    spec_u64_from_le_bytes(data.subrange(at, at + 8))
}

/// The `count` little-endian `u64` values from byte `at` on.
pub open spec fn offset_table(data: Seq<u8>, at: int, count: nat) -> Seq<u64> {
    Seq::new(count, |i: int| u64_at(data, at + i * 8))
}

/// The byte at which the offset table starts.
pub open spec fn table_start(data: Seq<u8>) -> int {
    32 + u32_at(data, 4)
}

/// The number of entries that the offset table must have.
pub open spec fn table_len(data: Seq<u8>) -> nat {
    stored_offsets(u64_at(data, 16) as nat, u32_at(data, 8) as nat)
}

/// The index that `data` holds, leaving aside whether `data` is acceptable.
pub open spec fn decoded_index(data: Seq<u8>) -> IndexModel {
    IndexModel {
        version: u32_at(data, 0),
        chunk_size: u32_at(data, 8),
        uncompressed_size: u64_at(data, 16),
        compressed_size: u64_at(data, 24),
        offsets: offset_table(data, table_start(data), table_len(data)),
    }
}

/// The index itself if its table never descends, or else the complaint about
/// the first place where it does.
pub open spec fn order_checked(index: IndexModel) -> Result<IndexModel, Seq<char>> {
    if non_decreasing(index.offsets) {
        Ok(index)
    } else {
        let i = choose|i: int| first_descent(index.offsets, i);
        Err(
            "non-monotonic offsets: "@ + text::decimal(index.offsets[i] as nat)
                + " followed by "@ + text::decimal(index.offsets[i + 1] as nat),
        )
    }
}

/// The result of parsing `data`: the index, or why it is rejected.
pub open spec fn parse_index(data: Seq<u8>) -> Result<IndexModel, Seq<char>> {
    let index = decoded_index(data);
    let count = table_len(data);
    let needed = table_start(data) + count * 8;
    if data.len() < 32 {
        Err("index too short: "@ + text::decimal(data.len()) + " bytes, need at least 32"@)
    } else if index.version != SOZIP_VERSION {
        Err(
            "unsupported version "@ + text::decimal(index.version as nat) + ", expected "@ + text::decimal(
                SOZIP_VERSION as nat,
            ),
        )
    } else if index.chunk_size == 0 {
        Err("chunk_size must not be zero"@)
    } else if u32_at(data, 12) != 8 {
        Err("offset_size must be 8, got "@ + text::decimal(u32_at(data, 12) as nat))
    } else if data.len() < needed {
        Err(
            "index data too short for "@ + text::decimal(count) + " offsets ("@ + text::decimal(
                chunks_for(index.uncompressed_size as nat, index.chunk_size as nat),
            ) + " chunks): need "@ + text::decimal(needed as nat) + " bytes, have "@ + text::decimal(
                data.len(),
            ),
        )
    } else {
        order_checked(index)
    }
}

/// The complaint about a chunk number that is too large.
pub open spec fn no_such_chunk(index: IndexModel, chunk: nat) -> Seq<char> {
    "chunk index "@ + text::decimal(chunk) + " out of range (have "@ + text::decimal(
        index.num_chunks(),
    ) + " chunks)"@
}

/// Reads the little-endian `u32` at byte `at`.
fn read_u32(data: &[u8], at: usize) -> (value: u32)
    requires
        at + 4 <= data.len(),
    ensures
        value == u32_at(data@, at as int),
{
    u32_from_le_bytes(slice_subrange(data, at, at + 4))
}

/// Reads the little-endian `u64` at byte `at`.
fn read_u64(data: &[u8], at: usize) -> (value: u64)
    requires
        at + 8 <= data.len(),
    ensures
        value == u64_at(data@, at as int),
{
    u64_from_le_bytes(slice_subrange(data, at, at + 8))
}

impl SozipIndex {
    /// Parses the complete contents of an index file.
    ///
    /// Bytes after the offset table are ignored, and so are the `skip_bytes`
    /// bytes between the header and the table.
    pub fn from_bytes(data: &[u8]) -> (result: Result<Self, SozipError>)
        ensures
            match result {
                Ok(index) => {
                    &&& parse_index(data@) == Ok::<IndexModel, Seq<char>>(index@)
                    &&& index@.well_formed()
                    &&& index@.addressable()
                },
                Err(SozipError::InvalidIndex { reason }) => parse_index(data@) == Err::<
                    IndexModel,
                    Seq<char>,
                >(reason@),
                Err(_) => false,
            },
    {
        if data.len() < 32 {
            let mut reason = "index too short: ".to_owned();
            text::append_decimal(&mut reason, data.len() as u128);
            reason.append(" bytes, need at least 32");
            return Err(SozipError::InvalidIndex { reason });
        }
        let version: u32 = read_u32(data, 0);
        let skip_bytes: u32 = read_u32(data, 4);
        let chunk_size: u32 = read_u32(data, 8);
        let offset_size: u32 = read_u32(data, 12);
        let uncompressed_size: u64 = read_u64(data, 16);
        let compressed_size: u64 = read_u64(data, 24);

        if version != SOZIP_VERSION {
            let mut reason = "unsupported version ".to_owned();
            text::append_decimal(&mut reason, version as u128);
            reason.append(", expected ");
            text::append_decimal(&mut reason, SOZIP_VERSION as u128);
            return Err(SozipError::InvalidIndex { reason });
        }
        if chunk_size == 0 {
            let reason = "chunk_size must not be zero".to_owned();
            return Err(SozipError::InvalidIndex { reason });
        }
        if offset_size != 8 {
            let mut reason = "offset_size must be 8, got ".to_owned();
            text::append_decimal(&mut reason, offset_size as u128);
            return Err(SozipError::InvalidIndex { reason });
        }
        let stored: u64 = if uncompressed_size == 0 {
            0
        } else {
            (uncompressed_size - 1) / chunk_size as u64
        };
        let table_at: u128 = 32 + skip_bytes as u128;
        let needed: u128 = table_at + stored as u128 * 8;
        if (data.len() as u128) < needed {
            let chunks: u128 = if uncompressed_size == 0 {
                0
            } else {
                stored as u128 + 1
            };
            let mut reason = "index data too short for ".to_owned();
            text::append_decimal(&mut reason, stored as u128);
            reason.append(" offsets (");
            text::append_decimal(&mut reason, chunks);
            reason.append(" chunks): need ");
            text::append_decimal(&mut reason, needed);
            reason.append(" bytes, have ");
            text::append_decimal(&mut reason, data.len() as u128);
            return Err(SozipError::InvalidIndex { reason });
        }
        let count: usize = stored as usize;
        let start: usize = table_at as usize;
        let mut offsets: Vec<u64> = Vec::with_capacity(count);
        let mut i: usize = 0;
        while i < count
            invariant
                i <= count,
                start + count * 8 <= data.len(),
                offsets@ == offset_table(data@, start as int, i as nat),
            decreases count - i,
        {
            let offset: u64 = read_u64(data, start + i * 8);
            offsets.push(offset);
            i += 1;
        }
        let mut k: usize = 1;
        while k < count
            invariant
                count > 0 ==> 1 <= k <= count,
                offsets@.len() == count,
                forall|j: int| 0 <= j < k - 1 ==> !descends_at(offsets@, j),
                forall|a: int, b: int| 0 <= a <= b < k && b < count ==> offsets@[a] <= offsets@[b],
                offsets@ == decoded_index(data@).offsets,
                parse_index(data@) == order_checked(decoded_index(data@)),
            decreases count - k,
        {
            if offsets[k] < offsets[k - 1] {
                let mut reason = "non-monotonic offsets: ".to_owned();
                text::append_decimal(&mut reason, offsets[k - 1] as u128);
                reason.append(" followed by ");
                text::append_decimal(&mut reason, offsets[k] as u128);
                proof {
                    let first = k as int - 1;
                    assert(first_descent(offsets@, first));
                    let chosen = choose|i: int| first_descent(offsets@, i);
                    assert(chosen == first);
                    assert(offsets@[first] > offsets@[first + 1]);
                }
                return Err(SozipError::InvalidIndex { reason });
            }
            assert(!descends_at(offsets@, k - 1));
            k += 1;
        }
        let index = SozipIndex { version, chunk_size, uncompressed_size, compressed_size, offsets };
        assert(index@ == decoded_index(data@));
        assert forall|pos: int| 0 <= pos < uncompressed_size implies #[trigger] index@.chunk_of(pos)
            <= usize::MAX by {
            lemma_div_is_ordered(pos, uncompressed_size - 1, chunk_size as int);
        }
        Ok(index)
    }

    /// Finds the chunk that holds the uncompressed byte at `pos`, and the place
    /// of that byte in the decompressed chunk.
    pub fn locate_chunk(&self, pos: u64) -> (result: Result<(usize, usize), SozipError>)
        requires
            pos < self.uncompressed_size ==> self.chunk_size > 0 && self@.chunk_of(pos as int)
                <= usize::MAX,
        ensures
            match result {
                Ok((chunk, offset)) => {
                    &&& pos < self.uncompressed_size
                    &&& chunk == self@.chunk_of(pos as int)
                    &&& offset == self@.offset_in_chunk(pos as int)
                },
                Err(SozipError::SeekOutOfRange { offset, size }) => {
                    &&& pos >= self.uncompressed_size
                    &&& offset == pos
                    &&& size == self.uncompressed_size
                },
                Err(_) => false,
            },
    {
        if pos >= self.uncompressed_size {
            return Err(
                SozipError::SeekOutOfRange { offset: pos, size: self.uncompressed_size },
            );
        }
        let chunk: usize = (pos / self.chunk_size as u64) as usize;
        let offset: usize = (pos % self.chunk_size as u64) as usize;
        Ok((chunk, offset))
    }

    /// Returns the compressed byte range `[start, end)` of a chunk, relative to
    /// the start of the compressed data of the entry.
    pub fn compressed_range(&self, chunk_index: usize) -> (result: Result<(u64, u64), SozipError>)
        ensures
            match result {
                Ok((start, end)) => {
                    &&& chunk_index < self@.num_chunks()
                    &&& start == self@.range_start(chunk_index as int)
                    &&& end == self@.range_end(chunk_index as int)
                },
                Err(SozipError::InvalidIndex { reason }) => {
                    &&& chunk_index >= self@.num_chunks()
                    &&& reason@ == no_such_chunk(self@, chunk_index as nat)
                },
                Err(_) => false,
            },
    {
        self.range_of(chunk_index as u64)
    }

    /// [`SozipIndex::compressed_range`] for a chunk number of any size.
    pub(crate) fn range_of(&self, chunk: u64) -> (result: Result<(u64, u64), SozipError>)
        ensures
            match result {
                Ok((start, end)) => {
                    &&& chunk < self@.num_chunks()
                    &&& start == self@.range_start(chunk as int)
                    &&& end == self@.range_end(chunk as int)
                },
                Err(SozipError::InvalidIndex { reason }) => {
                    &&& chunk >= self@.num_chunks()
                    &&& reason@ == no_such_chunk(self@, chunk as nat)
                },
                Err(_) => false,
            },
    {
        let chunks: u128 = if self.uncompressed_size == 0 {
            0
        } else {
            self.offsets.len() as u128 + 1
        };
        if chunk as u128 >= chunks {
            let mut reason = "chunk index ".to_owned();
            text::append_decimal(&mut reason, chunk as u128);
            reason.append(" out of range (have ");
            text::append_decimal(&mut reason, chunks);
            reason.append(" chunks)");
            return Err(SozipError::InvalidIndex { reason });
        }
        let place: usize = chunk as usize;
        let start: u64 = if place == 0 {
            0
        } else {
            self.offsets[place - 1]
        };
        let end: u64 = if place < self.offsets.len() {
            self.offsets[place]
        } else {
            self.compressed_size
        };
        Ok((start, end))
    }

    /// The number of chunks: one more than there are stored offsets, or none for
    /// an empty entry.
    pub fn num_chunks(&self) -> (count: usize)
        requires
            self.offsets@.len() < usize::MAX,
        ensures
            count == self@.num_chunks(),
    {
        if self.uncompressed_size == 0 {
            0
        } else {
            self.offsets.len() + 1
        }
    }
}

/// The ending of every index file name.
pub open spec fn index_suffix() -> Seq<char> {
    ".sozip.idx"@
}

/// Whether `name` is the name of an index file.
pub open spec fn is_index_name(name: Seq<char>) -> bool {
    name.len() >= index_suffix().len() && name.skip(name.len() - index_suffix().len())
        == index_suffix()
}

/// The length of the directory part of `name`: everything up to and with the last
/// `/`, or nothing if there is none.
pub open spec fn dir_len(name: Seq<char>) -> nat
    decreases name.len(),
{
    if name.len() == 0 {
        0
    } else if name.last() == '/' {
        name.len()
    } else {
        dir_len(name.drop_last())
    }
}

/// The name of the index file of the entry `name`: in the same directory, with a
/// leading dot and the index suffix.
pub open spec fn hidden_name(name: Seq<char>) -> Seq<char> {
    name.take(dir_len(name) as int) + "."@ + name.skip(dir_len(name) as int) + index_suffix()
}

/// Whether an archive entry is an index file, by its name.
pub fn is_index_file(name: &str) -> (yes: bool)
    ensures
        yes == is_index_name(name@),
{
    let suffix = ".sozip.idx";
    let total: usize = name.unicode_len();
    let tail: usize = suffix.unicode_len();
    total >= tail && text::same_text(name.substring_char(total - tail, total), suffix)
}

/// Computes the name of the index file of an entry.
///
/// - `mydata.gpkg` has `.mydata.gpkg.sozip.idx`
/// - `subdir/mydata.gpkg` has `subdir/.mydata.gpkg.sozip.idx`
pub fn index_filename(entry_name: &str) -> (name: String)
    ensures
        name@ == hidden_name(entry_name@),
{
    let mut count: usize = 0;
    let mut dir: usize = 0;
    let total: usize = entry_name.unicode_len();
    for c in iter: entry_name.chars()
        invariant
            iter.seq() == entry_name@,
            count == iter.index(),
            total == entry_name@.len(),
            dir == dir_len(entry_name@.take(count as int)),
            dir <= count,
    {
        assert(entry_name@.take(count + 1).drop_last() == entry_name@.take(count as int));
        count += 1;
        if c == '/' {
            dir = count;
        }
    }
    assert(entry_name@.take(count as int) == entry_name@);
    let mut name = entry_name.substring_char(0, dir).to_owned();
    name.append(".");
    name.append(entry_name.substring_char(dir, total));
    name.append(".sozip.idx");
    name
}

} // verus!
