//! Random access to the uncompressed bytes of an entry.
//!
//! A [`SozipReader`] decides what has to be read from the archive, decompresses
//! what was read, keeps the last chunk and copies out of it. Reading the archive is
//! up to the caller: [`SozipReader::next_step`] says what is needed and
//! [`SozipReader::load_chunk`] takes it. For an archive that is held in memory,
//! [`SozipReader::read`] does all of it.

use vstd::arithmetic::div_mod::*;
use vstd::arithmetic::mul::*;
use vstd::prelude::*;
use vstd::string::*;

use crate::error;
use crate::error::{ErrorModel, SozipError};
use crate::image;
use crate::index;
use crate::index::{IndexModel, SozipIndex};
use crate::inflate;
use crate::text;

verus! {

/// Random access to the uncompressed bytes of one entry.
pub struct SozipReader<R> {
    /// The archive.
    inner: R,
    /// Where the compressed data of the entry begins in the archive.
    data_start: u64,
    /// The chunk index of the entry.
    index: SozipIndex,
    /// The current position in the uncompressed data.
    pos: u64,
    /// The decompressed bytes of the cached chunk.
    cache: Vec<u8>,
    /// Which chunk is cached: none if `cache` holds no valid chunk.
    cached_chunk: Option<u64>,
}

/// What the next read of an entry takes.
pub enum ReadStep {
    /// The position is at or past the end: there is nothing to read.
    End,
    /// The chunk at the position is cached: its bytes can be copied out.
    Copy,
    /// `len` bytes at `offset` of the archive are the compressed data of the chunk
    /// at the position: they are to be read and handed over.
    Fetch { chunk: u64, offset: u64, len: u64 },
}

/// A place to seek to.
pub enum SeekFrom {
    /// Bytes from the start of the entry.
    Start(u64),
    /// Bytes from the current position.
    Current(i64),
    /// Bytes from the end of the entry.
    End(i64),
}

/// Why a seek is refused.
#[derive(Debug, Clone, Copy, PartialEq, Eq, Structural)]
pub enum SeekError {
    /// The place lies before the start, or beyond the largest position.
    NegativePosition,
}

/// The start of every complaint about a chunk.
pub open spec fn chunk_label(chunk: int) -> Seq<char> {
    "chunk "@ + text::decimal(chunk as nat) + ": "@
}

/// Where in the archive the compressed data of a chunk lies: its offset and length,
/// or why there is no such place.
pub open spec fn chunk_place(index: IndexModel, data_start: u64, chunk: int) -> Result<
    (int, int),
    ErrorModel,
> {
    let start = index.range_start(chunk) as int;
    let end = index.range_end(chunk) as int;
    if chunk >= index.num_chunks() {
        Err(ErrorModel::InvalidIndex { reason: index::no_such_chunk(index, chunk as nat) })
    } else if end < start || data_start + start > u64::MAX {
        Err(
            ErrorModel::InvalidIndex {
                reason: chunk_label(chunk) + "unreadable compressed range "@ + text::decimal(
                    start as nat,
                ) + ".."@ + text::decimal(end as nat),
            },
        )
    } else {
        Ok((data_start + start, end - start))
    }
}

/// What the compressed data of a chunk decompresses to, if that has the length of
/// the chunk.
pub open spec fn chunk_inflated(index: IndexModel, chunk: int, compressed: Seq<u8>) -> Result<
    Seq<u8>,
    ErrorModel,
> {
    let expected = index.chunk_end(chunk) - index.chunk_begin(chunk);
    match inflate::inflated(compressed) {
        Err(reason) => Err(ErrorModel::Inflate { reason: chunk_label(chunk) + reason }),
        Ok(bytes) => if bytes.len() == expected {
            Ok(bytes)
        } else {
            Err(
                ErrorModel::Inflate {
                    reason: chunk_label(chunk) + "expected "@ + text::decimal(expected as nat)
                        + " decompressed bytes, got "@ + text::decimal(bytes.len()),
                },
            )
        },
    }
}

/// The uncompressed bytes of a chunk in the archive `image`, or why they cannot be
/// had.
pub open spec fn chunk_content(
    image: Seq<u8>,
    index: IndexModel,
    data_start: u64,
    chunk: int,
) -> Result<Seq<u8>, ErrorModel> {
    match chunk_place(index, data_start, chunk) {
        Err(error) => Err(error),
        Ok((at, len)) => match image::bytes_at(image, at, len) {
            None => Err(ErrorModel::Io),
            Some(compressed) => chunk_inflated(index, chunk, compressed),
        },
    }
}

/// Where a seek leads, counted from the start of the entry.
pub open spec fn seek_target(from: SeekFrom, pos: u64, size: u64) -> int {
    match from {
        SeekFrom::Start(offset) => offset as int,
        SeekFrom::Current(offset) => pos + offset,
        SeekFrom::End(offset) => size + offset,
    }
}

/// The position that a seek to `target` reaches: positions are counted modulo 2^64,
/// and those of the upper half count as negative.
pub open spec fn seek_landing(target: int) -> Option<u64> {
    let landing = target % 0x1_0000_0000_0000_0000;
    if landing <= i64::MAX {
        Some(landing as u64)
    } else {
        None
    }
}

/// A position inside an entry, in terms of its chunk.
proof fn lemma_position(index: IndexModel, pos: int)
    requires
        0 <= pos < index.uncompressed_size,
        index.chunk_size > 0,
    ensures
        index.chunk_of(pos) >= 0,
        index.chunk_begin(index.chunk_of(pos)) + index.offset_in_chunk(pos) == pos,
        0 <= index.offset_in_chunk(pos) < index.chunk_size,
        index.chunk_begin(index.chunk_of(pos)) <= pos < index.chunk_end(index.chunk_of(pos)),
{
    let d = index.chunk_size as int;
    lemma_fundamental_div_mod(pos, d);
    lemma_mul_is_commutative(pos / d, d);
    lemma_div_pos_is_pos(pos, d);
}

impl<R> SozipReader<R> {
    /// The archive that the reader was made for.
    pub closed spec fn source(self) -> R {
        self.inner
    }

    /// Where the compressed data of the entry begins.
    pub closed spec fn start(self) -> u64 {
        self.data_start
    }

    /// The index of the entry.
    pub closed spec fn model(self) -> IndexModel {
        self.index@
    }

    /// The current position in the uncompressed data.
    pub closed spec fn position(self) -> u64 {
        self.pos
    }

    /// The cached chunk and its bytes, if there is one.
    pub closed spec fn cached(self) -> Option<(int, Seq<u8>)> {
        match self.cached_chunk {
            Some(chunk) => Some((chunk as int, self.cache@)),
            None => None,
        }
    }

    /// A cached chunk is one of the entry, and is held in full.
    pub open spec fn well_formed(self) -> bool {
        match self.cached() {
            Some((chunk, bytes)) => {
                &&& 0 <= self.model().chunk_begin(chunk) < self.model().uncompressed_size
                &&& bytes.len() == self.model().chunk_end(chunk) - self.model().chunk_begin(chunk)
            },
            None => true,
        }
    }

    /// Chunks have a size, unless there is nothing left to read.
    pub open spec fn readable(self) -> bool {
        self.position() < self.model().uncompressed_size ==> self.model().chunk_size > 0
    }

    /// The chunk at the current position.
    pub open spec fn current_chunk(self) -> int {
        self.model().chunk_of(self.position() as int)
    }

    /// Everything but the position and the cache is as in `other`.
    pub open spec fn same_entry(self, other: Self) -> bool {
        &&& self.source() == other.source()
        &&& self.start() == other.start()
        &&& self.model() == other.model()
    }

    /// Creates a reader for an entry.
    ///
    /// - `inner`: the whole archive
    /// - `data_start`: where the compressed data of the entry begins in it
    /// - `index`: the chunk index of the entry
    pub fn new(inner: R, data_start: u64, index: SozipIndex) -> (reader: Self)
        ensures
            reader.source() == inner,
            reader.start() == data_start,
            reader.model() == index@,
            reader.position() == 0,
            reader.cached() is None,
            reader.well_formed(),
    {
        SozipReader { inner, data_start, index, pos: 0, cache: Vec::new(), cached_chunk: None }
    }

    /// The chunk index of the entry.
    pub fn index(&self) -> (index: &SozipIndex)
        ensures
            index@ == self.model(),
    {
        &self.index
    }

    /// The uncompressed size of the entry.
    pub fn uncompressed_size(&self) -> (size: u64)
        ensures
            size == self.model().uncompressed_size,
    {
        self.index.uncompressed_size
    }

    /// The current position in the uncompressed data.
    pub fn stream_position(&self) -> (pos: u64)
        ensures
            pos == self.position(),
    {
        self.pos
    }

    /// The archive, for the caller to read from.
    pub fn inner_mut(&mut self) -> (inner: &mut R)
        ensures
            *inner == old(self).source(),
            final(self).source() == *final(inner),
            final(self).start() == old(self).start(),
            final(self).model() == old(self).model(),
            final(self).position() == old(self).position(),
            final(self).cached() == old(self).cached(),
    {
        &mut self.inner
    }

    /// Says what reading at the current position takes.
    pub fn next_step(&self) -> (step: Result<ReadStep, SozipError>)
        requires
            self.readable(),
        ensures
            match step {
                Ok(ReadStep::End) => self.position() >= self.model().uncompressed_size,
                Ok(ReadStep::Copy) => {
                    &&& self.position() < self.model().uncompressed_size
                    &&& self.cached() matches Some((chunk, _)) && chunk == self.current_chunk()
                },
                Ok(ReadStep::Fetch { chunk, offset, len }) => {
                    &&& self.position() < self.model().uncompressed_size
                    &&& !(self.cached() matches Some((c, _)) && c == self.current_chunk())
                    &&& chunk == self.current_chunk()
                    &&& chunk_place(self.model(), self.start(), self.current_chunk()) == Ok::<
                        (int, int),
                        ErrorModel,
                    >((offset as int, len as int))
                },
                Err(error) => {
                    &&& self.position() < self.model().uncompressed_size
                    &&& !(self.cached() matches Some((c, _)) && c == self.current_chunk())
                    &&& chunk_place(self.model(), self.start(), self.current_chunk()) == Err::<
                        (int, int),
                        ErrorModel,
                    >(error@)
                },
            },
    {
        if self.pos >= self.index.uncompressed_size {
            return Ok(ReadStep::End);
        }
        proof {
            lemma_position(self.index@, self.pos as int);
        }
        let chunk: u64 = self.pos / self.index.chunk_size as u64;
        match self.cached_chunk {
            Some(cached) => {
                if cached == chunk {
                    return Ok(ReadStep::Copy);
                }
            },
            None => {},
        }
        let (start, end) = match self.index.range_of(chunk) {
            Ok(range) => range,
            Err(error) => {
                return Err(error);
            },
        };
        if end < start || self.data_start > u64::MAX - start {
            let mut reason = "chunk ".to_owned();
            text::append_decimal(&mut reason, chunk as u128);
            reason.append(": ");
            reason.append("unreadable compressed range ");
            text::append_decimal(&mut reason, start as u128);
            reason.append("..");
            text::append_decimal(&mut reason, end as u128);
            return Err(SozipError::InvalidIndex { reason });
        }
        Ok(ReadStep::Fetch { chunk, offset: self.data_start + start, len: end - start })
    }

    /// Decompresses a chunk and caches it.
    ///
    /// A chunk that does not decompress to its length leaves nothing cached.
    pub fn load_chunk(&mut self, chunk: u64, compressed: &[u8]) -> (result: Result<(), SozipError>)
        requires
            old(self).model().chunk_begin(chunk as int) < old(self).model().uncompressed_size,
        ensures
            final(self).same_entry(*old(self)),
            final(self).position() == old(self).position(),
            final(self).well_formed(),
            match result {
                Ok(_) => {
                    &&& final(self).cached() matches Some((cached, bytes))
                    &&& cached == chunk
                    &&& chunk_inflated(old(self).model(), chunk as int, compressed@) == Ok::<
                        Seq<u8>,
                        ErrorModel,
                    >(bytes)
                },
                Err(error) => {
                    &&& final(self).cached() is None
                    &&& chunk_inflated(old(self).model(), chunk as int, compressed@) == Err::<
                        Seq<u8>,
                        ErrorModel,
                    >(error@)
                },
            },
    {
        self.cached_chunk = None;
        proof {
            lemma_mul_nonnegative(chunk as int, self.index.chunk_size as int);
        }
        let begin: u64 = chunk * self.index.chunk_size as u64;
        let left: u64 = self.index.uncompressed_size - begin;
        let expected: u64 = if (self.index.chunk_size as u64) < left {
            self.index.chunk_size as u64
        } else {
            left
        };
        match inflate::inflate(compressed) {
            Err(cause) => {
                let mut reason = "chunk ".to_owned();
                text::append_decimal(&mut reason, chunk as u128);
                reason.append(": ");
                reason.append(cause.as_str());
                Err(SozipError::Inflate(reason))
            },
            Ok(bytes) => {
                if bytes.len() as u64 != expected {
                    let mut reason = "chunk ".to_owned();
                    text::append_decimal(&mut reason, chunk as u128);
                    reason.append(": ");
                    reason.append("expected ");
                    text::append_decimal(&mut reason, expected as u128);
                    reason.append(" decompressed bytes, got ");
                    text::append_decimal(&mut reason, bytes.len() as u128);
                    return Err(SozipError::Inflate(reason));
                }
                self.cache = bytes;
                self.cached_chunk = Some(chunk);
                Ok(())
            },
        }
    }

    /// Copies bytes at the current position out of the cached chunk, as many as
    /// there are and fit into `buf`, and moves past them.
    pub fn copy_cached(&mut self, buf: &mut [u8]) -> (count: usize)
        requires
            old(self).well_formed(),
            old(self).readable(),
            old(self).position() < old(self).model().uncompressed_size,
            old(self).cached() matches Some((chunk, _)) && chunk == old(self).current_chunk(),
        ensures
            final(self).same_entry(*old(self)),
            final(self).cached() == old(self).cached(),
            final(self).position() == old(self).position() + count,
            count == read_count(old(self).model(), old(self).position(), old(buf)@.len()),
            final(buf)@ == (old(self).cached()->0).1.subrange(
                old(self).model().offset_in_chunk(old(self).position() as int),
                old(self).model().offset_in_chunk(old(self).position() as int) + count,
            ) + old(buf)@.skip(count as int),
    {
        proof {
            lemma_position(self.index@, self.pos as int);
        }
        let offset: usize = (self.pos % self.index.chunk_size as u64) as usize;
        let available: usize = self.cache.len() - offset;
        let count: usize = if available < buf.len() {
            available
        } else {
            buf.len()
        };
        let ghost before = buf@;
        let mut i: usize = 0;
        while i < count
            invariant
                i <= count,
                count <= before.len(),
                offset + count <= self.cache.len(),
                buf@ == self.cache@.subrange(offset as int, offset + i) + before.skip(i as int),
            decreases count - i,
        {
            buf[i] = self.cache[offset + i];
            i += 1;
            assert(buf@ =~= self.cache@.subrange(offset as int, offset + i) + before.skip(
                i as int,
            ));
        }
        self.pos = self.pos + count as u64;
        count
    }

    /// Moves the current position.
    ///
    /// A position past the end is allowed: nothing is read there.
    pub fn seek(&mut self, from: SeekFrom) -> (result: Result<u64, SeekError>)
        ensures
            final(self).same_entry(*old(self)),
            final(self).cached() == old(self).cached(),
            match result {
                Ok(pos) => {
                    &&& final(self).position() == pos
                    &&& seek_landing(
                        seek_target(from, old(self).position(), old(self).model().uncompressed_size),
                    ) == Some(pos)
                },
                Err(_) => {
                    &&& final(self).position() == old(self).position()
                    &&& seek_landing(
                        seek_target(from, old(self).position(), old(self).model().uncompressed_size),
                    ) is None
                },
            },
    {
        let landing: u64 = match from {
            SeekFrom::Start(offset) => offset,
            SeekFrom::Current(offset) => self.pos.wrapping_add_signed(offset),
            SeekFrom::End(offset) => self.index.uncompressed_size.wrapping_add_signed(offset),
        };
        if landing > 0x7fff_ffff_ffff_ffff {
            return Err(SeekError::NegativePosition);
        }
        self.pos = landing;
        Ok(landing)
    }
}

/// How many bytes a read at `pos` gives: what is left of the chunk, but no more than
/// there is room for, and none at or past the end.
pub open spec fn read_count(index: IndexModel, pos: u64, room: nat) -> int {
    if pos >= index.uncompressed_size {
        0
    } else {
        let left = index.chunk_end(index.chunk_of(pos as int)) - pos;
        if left < room {
            left
        } else {
            room as int
        }
    }
}

/// The uncompressed byte at `pos` of an entry in the archive `image`.
pub open spec fn byte_at(image: Seq<u8>, index: IndexModel, data_start: u64, pos: int) -> u8 {
    chunk_content(image, index, data_start, index.chunk_of(pos))->Ok_0[index.offset_in_chunk(pos)]
}

/// The uncompressed content of an entry in the archive `image`.
pub open spec fn stream(image: Seq<u8>, index: IndexModel, data_start: u64) -> Seq<u8> {
    Seq::new(
        index.uncompressed_size as nat,
        |pos: int| byte_at(image, index, data_start, pos),
    )
}

/// What is cached after a read has failed: a chunk that did not decompress leaves
/// nothing, any other failure leaves what was there.
pub open spec fn cached_after_failure(cached: Option<(int, Seq<u8>)>, error: ErrorModel) -> Option<
    (int, Seq<u8>),
> {
    if error is Inflate {
        None
    } else {
        cached
    }
}

/// The bytes from `pos` on that lie in the same chunk are found side by side in it.
proof fn lemma_stream_in_chunk(
    image: Seq<u8>,
    index: IndexModel,
    data_start: u64,
    pos: int,
    count: int,
)
    requires
        index.chunk_size > 0,
        0 <= pos < index.uncompressed_size,
        0 <= count,
        pos + count <= index.chunk_end(index.chunk_of(pos)),
        chunk_content(image, index, data_start, index.chunk_of(pos)) matches Ok(bytes)
            && bytes.len() == index.chunk_end(index.chunk_of(pos)) - index.chunk_begin(
            index.chunk_of(pos),
        ),
    ensures
        stream(image, index, data_start).subrange(pos, pos + count) == chunk_content(
            image,
            index,
            data_start,
            index.chunk_of(pos),
        )->Ok_0.subrange(index.offset_in_chunk(pos), index.offset_in_chunk(pos) + count),
{
    let d = index.chunk_size as int;
    let chunk = index.chunk_of(pos);
    let offset = index.offset_in_chunk(pos);
    let bytes = chunk_content(image, index, data_start, chunk)->Ok_0;
    lemma_position(index, pos);
    assert forall|p: int| pos <= p < pos + count implies #[trigger] stream(
        image,
        index,
        data_start,
    )[p] == bytes[p - pos + offset] by {
        lemma_fundamental_div_mod_converse(p, d, chunk, p - pos + offset);
    }
    assert(stream(image, index, data_start).subrange(pos, pos + count) =~= bytes.subrange(
        offset,
        offset + count,
    ));
}

impl SozipReader<Vec<u8>> {
    /// What is cached is what the archive holds.
    pub open spec fn faithful(self) -> bool {
        &&& self.well_formed()
        &&& self.cached() matches Some((chunk, bytes)) ==> chunk_content(
            self.source()@,
            self.model(),
            self.start(),
            chunk,
        ) == Ok::<Seq<u8>, ErrorModel>(bytes)
    }

    /// Makes sure that the chunk at the current position is decompressed and cached.
    fn ensure_chunk(&mut self) -> (result: Result<(), SozipError>)
        requires
            old(self).faithful(),
            old(self).position() < old(self).model().uncompressed_size,
            old(self).readable(),
        ensures
            final(self).same_entry(*old(self)),
            final(self).position() == old(self).position(),
            final(self).faithful(),
            match result {
                Ok(_) => final(self).cached() matches Some((chunk, _)) && chunk == old(
                    self,
                ).current_chunk(),
                Err(error) => {
                    &&& chunk_content(
                        old(self).source()@,
                        old(self).model(),
                        old(self).start(),
                        old(self).current_chunk(),
                    ) == Err::<Seq<u8>, ErrorModel>(error@)
                    &&& final(self).cached() == cached_after_failure(old(self).cached(), error@)
                },
            },
    {
        proof {
            lemma_position(self.index@, self.pos as int);
        }
        match self.next_step() {
            Ok(ReadStep::Fetch { chunk, offset, len }) => {
                let compressed = match image::read_at(self.inner.as_slice(), offset as u128, len) {
                    Some(compressed) => compressed,
                    None => {
                        return Err(SozipError::Io(error::unexpected_eof()));
                    },
                };
                self.load_chunk(chunk, compressed.as_slice())
            },
            Ok(_) => Ok(()),
            Err(error) => Err(error),
        }
    }

    /// Reads bytes at the current position into `buf` and moves past them.
    ///
    /// One call reads from one chunk only; it reads nothing at the end of the entry.
    /// The chunk stays cached.
    pub fn read(&mut self, buf: &mut [u8]) -> (result: Result<usize, SozipError>)
        requires
            old(self).faithful(),
            old(self).readable(),
        ensures
            final(self).same_entry(*old(self)),
            final(self).faithful(),
            match result {
                Ok(count) => {
                    let pos = old(self).position() as int;
                    &&& count == read_count(
                        old(self).model(),
                        old(self).position(),
                        old(buf)@.len(),
                    )
                    &&& pos < old(self).model().uncompressed_size ==> chunk_content(
                        old(self).source()@,
                        old(self).model(),
                        old(self).start(),
                        old(self).current_chunk(),
                    ) is Ok
                    &&& final(self).position() == pos + count
                    &&& if pos < old(self).model().uncompressed_size {
                        final(self).cached() matches Some((chunk, _)) && chunk == old(
                            self,
                        ).current_chunk()
                    } else {
                        final(self).cached() == old(self).cached()
                    }
                    &&& pos < old(self).model().uncompressed_size ==> final(buf)@.take(count as int)
                        == stream(
                        old(self).source()@,
                        old(self).model(),
                        old(self).start(),
                    ).subrange(pos, pos + count)
                    &&& final(buf)@.skip(count as int) == old(buf)@.skip(count as int)
                    &&& final(buf)@.len() == old(buf)@.len()
                },
                Err(error) => {
                    &&& old(self).position() < old(self).model().uncompressed_size
                    &&& chunk_content(
                        old(self).source()@,
                        old(self).model(),
                        old(self).start(),
                        old(self).current_chunk(),
                    ) == Err::<Seq<u8>, ErrorModel>(error@)
                    &&& final(self).position() == old(self).position()
                    &&& final(self).cached() == cached_after_failure(old(self).cached(), error@)
                    &&& final(buf)@ == old(buf)@
                },
            },
    {
        if self.pos >= self.index.uncompressed_size {
            return Ok(0);
        }
        match self.ensure_chunk() {
            Ok(_) => {},
            Err(error) => {
                return Err(error);
            },
        }
        proof {
            lemma_position(self.index@, self.pos as int);
            lemma_stream_in_chunk(
                self.inner@,
                self.index@,
                self.data_start,
                self.pos as int,
                read_count(self.index@, self.pos, buf@.len()),
            );
        }
        let count: usize = self.copy_cached(buf);
        Ok(count)
    }
}

} // verus!
