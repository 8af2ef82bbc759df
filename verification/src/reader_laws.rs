//! Laws of reading and seeking.

use vstd::arithmetic::div_mod::*;
use vstd::arithmetic::mul::*;
use vstd::prelude::*;

use crate::error::ErrorModel;
use crate::image;
use crate::index::IndexModel;
use crate::inflate;
use crate::reader;
use crate::reader::{SeekFrom, SozipReader};
use crate::text;

verus! {

/// The contents of the first `count` chunks of an entry, one after the other.
pub open spec fn joined_chunks(
    image: Seq<u8>,
    index: IndexModel,
    data_start: u64,
    count: nat,
) -> Seq<u8>
    decreases count,
{
    if count == 0 {
        Seq::empty()
    } else {
        joined_chunks(image, index, data_start, (count - 1) as nat) + reader::chunk_content(
            image,
            index,
            data_start,
            count - 1,
        )->Ok_0
    }
}

/// Every chunk of the entry can be had from the archive `image`.
pub open spec fn intact(image: Seq<u8>, index: IndexModel, data_start: u64) -> bool {
    forall|chunk: int|
        0 <= chunk < index.num_chunks() ==> #[trigger] reader::chunk_content(
            image,
            index,
            data_start,
            chunk,
        ) is Ok
}

proof fn lemma_joined_chunks(image: Seq<u8>, index: IndexModel, data_start: u64, count: nat)
    requires
        index.well_formed(),
        intact(image, index, data_start),
        0 < count <= index.num_chunks(),
    ensures
        joined_chunks(image, index, data_start, count) == reader::stream(
            image,
            index,
            data_start,
        ).take(index.chunk_end(count - 1)),
        0 <= index.chunk_begin(count - 1) < index.chunk_end(count - 1) <= index.uncompressed_size,
    decreases count,
{
    let d = index.chunk_size as int;
    let size = index.uncompressed_size as int;
    let last = count - 1;
    let whole = reader::stream(image, index, data_start);
    let content = reader::chunk_content(image, index, data_start, last)->Ok_0;
    let begin = index.chunk_begin(last);
    assert(last <= (size - 1) / d);
    lemma_mul_inequality(last, (size - 1) / d, d);
    lemma_fundamental_div_mod(size - 1, d);
    lemma_mul_is_commutative((size - 1) / d, d);
    lemma_mul_nonnegative(last, d);
    assert(reader::chunk_content(image, index, data_start, last) is Ok);
    if last > 0 {
        lemma_joined_chunks(image, index, data_start, last as nat);
        assert((last - 1) * d + d == last * d) by (nonlinear_arith);
        assert(index.chunk_end(last - 1) == begin);
    } else {
        assert(begin == 0) by (nonlinear_arith)
            requires
                begin == last * d,
                last == 0,
        ;
    }
    assert(joined_chunks(image, index, data_start, last as nat) =~= whole.take(begin));
    assert forall|pos: int| begin <= pos < index.chunk_end(last) implies #[trigger] whole[pos]
        == content[pos - begin] by {
        lemma_fundamental_div_mod_converse(pos, d, last, pos - begin);
    }
    assert(joined_chunks(image, index, data_start, count) =~= whole.take(index.chunk_end(last)));
}

/// The content of an entry is that of its chunks, joined in order: decompressing
/// chunk by chunk gives the same bytes as random access.
pub proof fn law_stream_is_joined_chunks(image: Seq<u8>, index: IndexModel, data_start: u64)
    requires
        index.well_formed(),
        intact(image, index, data_start),
    ensures
        joined_chunks(image, index, data_start, index.num_chunks()) == reader::stream(
            image,
            index,
            data_start,
        ),
{
    let whole = reader::stream(image, index, data_start);
    if index.uncompressed_size == 0 {
        assert(joined_chunks(image, index, data_start, 0) =~= whole);
    } else {
        let d = index.chunk_size as int;
        let size = index.uncompressed_size as int;
        let last = index.num_chunks() - 1;
        lemma_joined_chunks(image, index, data_start, index.num_chunks());
        lemma_fundamental_div_mod(size - 1, d);
        lemma_mul_is_commutative((size - 1) / d, d);
        assert(index.chunk_end(last) == size);
        assert(whole.take(size) =~= whole);
    }
}

/// A read before the end with room for a byte gives at least one, never more than
/// there is room for, and never goes past the end: only the end reads as the end.
pub proof fn law_read_progress(index: IndexModel, pos: u64, room: nat)
    requires
        index.chunk_size > 0,
        pos < index.uncompressed_size,
        room > 0,
    ensures
        0 < reader::read_count(index, pos, room) <= room,
        pos + reader::read_count(index, pos, room) <= index.uncompressed_size,
{
    let d = index.chunk_size as int;
    lemma_fundamental_div_mod(pos as int, d);
    lemma_mul_is_commutative(pos as int / d, d);
}

/// The bytes that reads from `pos` on give, each with room for `room` bytes, until
/// one gives none.
pub open spec fn read_through(
    image: Seq<u8>,
    index: IndexModel,
    data_start: u64,
    pos: u64,
    room: nat,
) -> Seq<u8>
    decreases index.uncompressed_size - pos,
{
    let count = reader::read_count(index, pos, room);
    if count <= 0 || pos + count > index.uncompressed_size {
        Seq::empty()
    } else {
        reader::stream(image, index, data_start).subrange(pos as int, pos + count) + read_through(
            image,
            index,
            data_start,
            (pos + count) as u64,
            room,
        )
    }
}

/// Reading on from any position inside the entry, whatever the size of the buffer,
/// gives the rest of the content, byte for byte.
pub proof fn law_read_through(
    image: Seq<u8>,
    index: IndexModel,
    data_start: u64,
    pos: u64,
    room: nat,
)
    requires
        index.chunk_size > 0,
        pos <= index.uncompressed_size,
        room > 0,
    ensures
        read_through(image, index, data_start, pos, room) == reader::stream(
            image,
            index,
            data_start,
        ).skip(pos as int),
    decreases index.uncompressed_size - pos,
{
    let whole = reader::stream(image, index, data_start);
    if pos == index.uncompressed_size {
        assert(whole.skip(pos as int) =~= Seq::empty());
    } else {
        law_read_progress(index, pos, room);
        let count = reader::read_count(index, pos, room);
        law_read_through(image, index, data_start, (pos + count) as u64, room);
        assert(whole.subrange(pos as int, pos + count) + whole.skip(pos + count) =~= whole.skip(
            pos as int,
        ));
    }
}

/// Seeking to an offset and reading on from there gives the content from that offset
/// on, wherever the reader stood before.
pub proof fn law_seek_then_read(
    image: Seq<u8>,
    index: IndexModel,
    data_start: u64,
    pos: u64,
    offset: u64,
    room: nat,
)
    requires
        index.chunk_size > 0,
        offset <= index.uncompressed_size,
        offset <= i64::MAX,
        room > 0,
    ensures
        reader::seek_landing(
            reader::seek_target(SeekFrom::Start(offset), pos, index.uncompressed_size),
        ) == Some(offset),
        read_through(image, index, data_start, offset, room) == reader::stream(
            image,
            index,
            data_start,
        ).skip(offset as int),
{
    law_read_through(image, index, data_start, offset, room);
}

/// Only the compressed data of a chunk matters for it: two archives that hold the same
/// bytes there give the same chunk, whatever else they hold.
pub proof fn law_chunk_is_local(
    image: Seq<u8>,
    other: Seq<u8>,
    index: IndexModel,
    data_start: u64,
    chunk: int,
)
    requires
        reader::chunk_place(index, data_start, chunk) matches Ok((at, len)) ==> image::bytes_at(
            image,
            at,
            len,
        ) == image::bytes_at(other, at, len),
    ensures
        reader::chunk_content(image, index, data_start, chunk) == reader::chunk_content(
            other,
            index,
            data_start,
            chunk,
        ),
{
}

/// Seeking goes exactly where it is told, as far as positions reach: for entries and
/// positions that a signed 64-bit offset can express, a seek succeeds if and only if
/// the place can be expressed too, and then reaches it.
pub proof fn law_seek_exact(from: SeekFrom, pos: u64, size: u64)
    requires
        pos <= i64::MAX,
        size <= i64::MAX,
    ensures
        ({
            let target = reader::seek_target(from, pos, size);
            if 0 <= target <= i64::MAX {
                reader::seek_landing(target) == Some(target as u64)
            } else {
                reader::seek_landing(target) is None
            }
        }),
{
}

/// The bytes read at a place of an archive are the bytes that stand there, all of them
/// or none.
pub proof fn law_bytes_at(image: Seq<u8>, at: int, len: int)
    requires
        0 <= at,
        0 <= len,
    ensures
        match image::bytes_at(image, at, len) {
            Some(bytes) => {
                &&& len == 0 || at + len <= image.len()
                &&& bytes.len() == len
                &&& forall|i: int| 0 <= i < len ==> #[trigger] bytes[i] == image[at + i]
            },
            None => 0 < len && image.len() < at + len,
        },
{
}

/// A chunk is fetched from its own place: its compressed data starts at the offset
/// stored for it, or with the data of the entry for chunk 0, and ends where the next
/// chunk starts or, for the last, with the data of the entry. There is no such place for
/// a chunk that the entry does not have, nor if the range runs backwards or starts
/// beyond the largest offset.
pub proof fn law_chunk_is_fetched_from_its_place(
    index: IndexModel,
    data_start: u64,
    chunk: int,
    start: int,
    end: int,
)
    requires
        0 <= chunk,
        chunk == 0 ==> start == 0,
        0 < chunk <= index.offsets.len() ==> start == index.offsets[chunk - 1],
        chunk < index.offsets.len() ==> end == index.offsets[chunk],
        chunk >= index.offsets.len() ==> end == index.compressed_size,
    ensures
        ({
            let count = if index.uncompressed_size == 0 {
                0
            } else {
                index.offsets.len() + 1
            };
            let place = reader::chunk_place(index, data_start, chunk);
            &&& chunk < count && start <= end && data_start + start <= u64::MAX ==> place == Ok::<
                (int, int),
                ErrorModel,
            >((data_start + start, end - start))
            &&& chunk >= count ==> place == Err::<(int, int), ErrorModel>(
                ErrorModel::InvalidIndex {
                    reason: "chunk index "@ + text::decimal(chunk as nat)
                        + " out of range (have "@ + text::decimal(count) + " chunks)"@,
                },
            )
            &&& chunk < count && (end < start || data_start + start > u64::MAX) ==> place == Err::<
                (int, int),
                ErrorModel,
            >(
                ErrorModel::InvalidIndex {
                    reason: "chunk "@ + text::decimal(chunk as nat) + ": "@
                        + "unreadable compressed range "@ + text::decimal(start as nat) + ".."@
                        + text::decimal(end as nat),
                },
            )
        }),
{
}

/// What is fetched for a chunk is taken if and only if it decompresses to as many bytes
/// as the entry has from the beginning of the chunk on, but no more than the chunk size.
/// What is taken is what it decompresses to.
pub proof fn law_chunk_is_what_inflates(
    index: IndexModel,
    chunk: int,
    compressed: Seq<u8>,
    expected: int,
)
    requires
        0 <= chunk,
        0 <= chunk * index.chunk_size < index.uncompressed_size,
        expected <= index.chunk_size,
        chunk * index.chunk_size + expected <= index.uncompressed_size,
        expected == index.chunk_size || chunk * index.chunk_size + expected
            == index.uncompressed_size,
    ensures
        ({
            let label = "chunk "@ + text::decimal(chunk as nat) + ": "@;
            reader::chunk_inflated(index, chunk, compressed) == (match inflate::inflated(
                compressed,
            ) {
                Ok(bytes) => if bytes.len() == expected {
                    Ok::<Seq<u8>, ErrorModel>(bytes)
                } else {
                    Err(
                        ErrorModel::Inflate {
                            reason: label + "expected "@ + text::decimal(expected as nat)
                                + " decompressed bytes, got "@ + text::decimal(bytes.len()),
                        },
                    )
                },
                Err(reason) => Err(ErrorModel::Inflate { reason: label + reason }),
            })
        }),
{
}

/// A chunk whose compressed data the archive does not hold in full is an I/O error.
pub proof fn law_cut_off_chunk_is_an_io_error(
    image: Seq<u8>,
    index: IndexModel,
    data_start: u64,
    chunk: int,
    start: int,
    end: int,
)
    requires
        index.uncompressed_size > 0,
        0 <= chunk <= index.offsets.len(),
        start == (if chunk == 0 {
            0
        } else {
            index.offsets[chunk - 1] as int
        }),
        end == (if chunk < index.offsets.len() {
            index.offsets[chunk] as int
        } else {
            index.compressed_size as int
        }),
        start < end,
        data_start + start <= u64::MAX,
        image.len() < data_start + end,
    ensures
        reader::chunk_content(image, index, data_start, chunk) == Err::<Seq<u8>, ErrorModel>(
            ErrorModel::Io,
        ),
{
    law_chunk_is_fetched_from_its_place(index, data_start, chunk, start, end);
}

/// The content of an entry has its size, and at the place of a chunk it is what the
/// compressed data of that chunk in the archive decompresses to, wherever that has the
/// length of the chunk; nothing else in the archive or the table matters there.
pub proof fn law_content_of_a_chunk(
    image: Seq<u8>,
    index: IndexModel,
    data_start: u64,
    chunk: int,
    start: int,
    end: int,
    bytes: Seq<u8>,
)
    requires
        index.chunk_size > 0,
        0 <= chunk <= index.offsets.len(),
        start == (if chunk == 0 {
            0
        } else {
            index.offsets[chunk - 1] as int
        }),
        end == (if chunk < index.offsets.len() {
            index.offsets[chunk] as int
        } else {
            index.compressed_size as int
        }),
        start <= end,
        data_start + start <= u64::MAX,
        data_start + end <= image.len(),
        inflate::inflated(image.subrange(data_start + start, data_start + end)) == Ok::<
            Seq<u8>,
            Seq<char>,
        >(bytes),
        0 < bytes.len() <= index.chunk_size,
        chunk * index.chunk_size + bytes.len() <= index.uncompressed_size,
        bytes.len() == index.chunk_size || chunk * index.chunk_size + bytes.len()
            == index.uncompressed_size,
    ensures
        reader::chunk_content(image, index, data_start, chunk) == Ok::<Seq<u8>, ErrorModel>(bytes),
        reader::stream(image, index, data_start).len() == index.uncompressed_size,
        reader::stream(image, index, data_start).subrange(
            chunk * index.chunk_size,
            chunk * index.chunk_size + bytes.len(),
        ) == bytes,
{
    let d = index.chunk_size as int;
    let begin = chunk * d;
    let compressed = image.subrange(data_start + start, data_start + end);
    let whole = reader::stream(image, index, data_start);
    lemma_mul_nonnegative(chunk, d);
    law_chunk_is_fetched_from_its_place(index, data_start, chunk, start, end);
    law_chunk_is_what_inflates(index, chunk, compressed, bytes.len() as int);
    if start == end {
        assert(compressed =~= Seq::empty());
    }
    assert(image::bytes_at(image, data_start + start, end - start) == Some(compressed));
    assert forall|pos: int| begin <= pos < begin + bytes.len() implies #[trigger] whole[pos]
        == bytes[pos - begin] by {
        lemma_fundamental_div_mod_converse(pos, d, chunk, pos - begin);
    }
    assert(whole.subrange(begin, begin + bytes.len()) =~= bytes);
}

/// The pieces before piece `count` make up the front of all pieces.
proof fn lemma_flatten_at(pieces: Seq<Seq<u8>>, count: int)
    requires
        0 <= count < pieces.len(),
    ensures
        pieces.take(count + 1).flatten() == pieces.take(count).flatten() + pieces[count],
        pieces.flatten() == pieces.take(count + 1).flatten() + pieces.skip(count + 1).flatten(),
{
    assert(pieces.take(count + 1) =~= pieces.take(count).push(pieces[count]));
    pieces.take(count).lemma_flatten_push(pieces[count]);
    vstd::seq_lib::lemma_flatten_concat(pieces.take(count + 1), pieces.skip(count + 1));
    assert(pieces =~= pieces.take(count + 1) + pieces.skip(count + 1));
}

/// The first `count` chunks of an entry that is written in pieces.
proof fn lemma_written_pieces(
    image: Seq<u8>,
    index: IndexModel,
    data_start: u64,
    chunks: Seq<Seq<u8>>,
    count: nat,
)
    requires
        index.chunk_size > 0,
        count <= chunks.len(),
        forall|c: int|
            0 <= c < chunks.len() - 1 ==> (#[trigger] chunks[c]).len() == index.chunk_size,
        forall|c: int|
            #![trigger chunks[c]]
            0 <= c < chunks.len() ==> {
                &&& c * index.chunk_size + chunks[c].len() <= index.uncompressed_size
                &&& reader::stream(image, index, data_start).subrange(
                    c * index.chunk_size,
                    c * index.chunk_size + chunks[c].len(),
                ) == chunks[c]
            },
    ensures
        count == 0 ==> chunks.take(count as int).flatten().len() == 0,
        count > 0 ==> chunks.take(count as int).flatten().len() == (count - 1) * index.chunk_size
            + chunks[count - 1].len(),
        chunks.take(count as int).flatten().len() <= index.uncompressed_size,
        chunks.take(count as int).flatten() == reader::stream(image, index, data_start).take(
            chunks.take(count as int).flatten().len() as int,
        ),
    decreases count,
{
    let whole = reader::stream(image, index, data_start);
    if count == 0 {
        assert(chunks.take(0).flatten() =~= Seq::empty());
        assert(whole.take(0) =~= Seq::empty());
    } else {
        let last = count - 1;
        let d = index.chunk_size as int;
        let front = chunks.take(last).flatten();
        lemma_written_pieces(image, index, data_start, chunks, last as nat);
        lemma_flatten_at(chunks, last);
        assert(chunks[last].len() >= 0);
        if last > 0 {
            assert(chunks[last - 1].len() == d);
            assert((last - 1) * d + d == last * d) by (nonlinear_arith);
        } else {
            assert(last * d == 0) by (nonlinear_arith)
                requires
                    last == 0,
            ;
        }
        assert(front.len() == last * d);
        let end = last * d + chunks[last].len();
        assert(whole.take(last * d) + whole.subrange(last * d, end) =~= whole.take(end));
    }
}

/// What is written is what is read: if the archive holds compressed pieces one after the
/// other from `data_start` on, the table tells where each of them ends but the last, and
/// each decompresses to a full chunk but the last, which takes the rest, then the content
/// of the entry is what the pieces decompress to, one after the other.
pub proof fn law_written_pieces_are_read(
    before: Seq<u8>,
    pieces: Seq<Seq<u8>>,
    after: Seq<u8>,
    chunks: Seq<Seq<u8>>,
    index: IndexModel,
    data_start: u64,
)
    requires
        before.len() == data_start,
        pieces.len() > 0,
        chunks.len() == pieces.len(),
        data_start + pieces.flatten().len() <= u64::MAX,
        index.chunk_size > 0,
        index.offsets.len() == pieces.len() - 1,
        forall|c: int|
            0 <= c < index.offsets.len() ==> #[trigger] index.offsets[c] == pieces.take(
                c + 1,
            ).flatten().len(),
        index.compressed_size == pieces.flatten().len(),
        forall|c: int|
            0 <= c < pieces.len() ==> inflate::inflated(#[trigger] pieces[c]) == Ok::<
                Seq<u8>,
                Seq<char>,
            >(chunks[c]),
        forall|c: int|
            0 <= c < chunks.len() - 1 ==> (#[trigger] chunks[c]).len() == index.chunk_size,
        0 < chunks.last().len() <= index.chunk_size,
        index.uncompressed_size == (chunks.len() - 1) * index.chunk_size + chunks.last().len(),
    ensures
        reader::stream(before + pieces.flatten() + after, index, data_start) == chunks.flatten(),
        forall|c: int|
            0 <= c < chunks.len() ==> reader::chunk_content(
                before + pieces.flatten() + after,
                index,
                data_start,
                c,
            ) == Ok::<Seq<u8>, ErrorModel>(#[trigger] chunks[c]),
{
    let image = before + pieces.flatten() + after;
    let d = index.chunk_size as int;
    let whole = reader::stream(image, index, data_start);
    assert forall|c: int| #![trigger chunks[c]] 0 <= c < chunks.len() implies {
        &&& c * d + chunks[c].len() <= index.uncompressed_size
        &&& whole.subrange(c * d, c * d + chunks[c].len()) == chunks[c]
        &&& reader::chunk_content(image, index, data_start, c) == Ok::<Seq<u8>, ErrorModel>(
            chunks[c],
        )
    } by {
        lemma_flatten_at(pieces, c);
        let start = pieces.take(c).flatten().len();
        let end = pieces.take(c + 1).flatten().len();
        if c == 0 {
            assert(pieces.take(0).flatten() =~= Seq::empty());
        } else {
            assert(index.offsets[c - 1] == pieces.take(c - 1 + 1).flatten().len());
        }
        if c < index.offsets.len() {
            assert(index.offsets[c] == end);
            assert(chunks[c].len() == d);
            lemma_mul_inequality(c + 1, chunks.len() - 1, d);
            assert((c + 1) * d == c * d + d) by (nonlinear_arith);
        } else {
            assert(pieces.take(c + 1) =~= pieces);
        }
        assert(image.subrange(data_start + start, data_start + end) =~= pieces[c]);
        assert(inflate::inflated(pieces[c]) == Ok::<Seq<u8>, Seq<char>>(chunks[c]));
        law_content_of_a_chunk(
            image,
            index,
            data_start,
            c,
            start as int,
            end as int,
            chunks[c],
        );
    }
    lemma_written_pieces(image, index, data_start, chunks, chunks.len());
    assert(chunks.take(chunks.len() as int) =~= chunks);
    assert(whole.take(whole.len() as int) =~= whole);
}

/// A read stops at the end of the chunk, at the end of the entry or at the end of the
/// room, whichever comes first; behind the entry it gives nothing. `chunk` is the one
/// that holds the position.
pub proof fn law_read_extent(index: IndexModel, pos: u64, room: nat, chunk: int)
    requires
        pos < index.uncompressed_size ==> chunk * index.chunk_size <= pos < chunk
            * index.chunk_size + index.chunk_size,
    ensures
        ({
            let count = reader::read_count(index, pos, room);
            let end = chunk * index.chunk_size + index.chunk_size;
            if pos >= index.uncompressed_size {
                count == 0
            } else {
                &&& count <= room
                &&& pos + count <= index.uncompressed_size
                &&& pos + count <= end
                &&& count == room || pos + count == index.uncompressed_size || pos + count == end
            }
        }),
{
    if pos < index.uncompressed_size {
        let d = index.chunk_size as int;
        lemma_fundamental_div_mod_converse(pos as int, d, chunk, pos - chunk * d);
    }
}

/// A seek adds up: from the start it goes to the offset, from the current position to
/// the sum of the position and the offset, from the end to the sum of the size and the
/// offset, as long as that is no negative number and one that a signed 64-bit number
/// can hold. A sum below zero is refused.
pub proof fn law_seek_adds_up(pos: u64, size: u64, offset: i64, place: u64)
    requires
        pos <= i64::MAX,
        size <= i64::MAX,
    ensures
        reader::seek_landing(reader::seek_target(SeekFrom::Start(place), pos, size)) == (if place
            <= i64::MAX {
            Some(place)
        } else {
            None
        }),
        0 <= pos + offset <= i64::MAX ==> reader::seek_landing(
            reader::seek_target(SeekFrom::Current(offset), pos, size),
        ) == Some((pos + offset) as u64),
        !(0 <= pos + offset <= i64::MAX) ==> reader::seek_landing(
            reader::seek_target(SeekFrom::Current(offset), pos, size),
        ) is None,
        0 <= size + offset <= i64::MAX ==> reader::seek_landing(
            reader::seek_target(SeekFrom::End(offset), pos, size),
        ) == Some((size + offset) as u64),
        !(0 <= size + offset <= i64::MAX) ==> reader::seek_landing(
            reader::seek_target(SeekFrom::End(offset), pos, size),
        ) is None,
{
}

/// Seeking by an offset and back by the same offset returns to where it began.
pub proof fn law_seek_there_and_back(pos: u64, size: u64, offset: i64)
    requires
        pos <= i64::MAX,
        offset > i64::MIN,
        0 <= pos + offset <= i64::MAX,
    ensures
        reader::seek_landing(reader::seek_target(SeekFrom::Current(offset), pos, size)) matches Some(
            there,
        ) && reader::seek_landing(
            reader::seek_target(SeekFrom::Current((-offset) as i64), there, size),
        ) == Some(pos),
{
}

/// Seeking by two offsets, one after the other, leads where seeking by their sum does.
pub proof fn law_seeks_compose(pos: u64, size: u64, a: i64, b: i64)
    requires
        pos <= i64::MAX,
        0 <= pos + a <= i64::MAX,
        i64::MIN <= a + b <= i64::MAX,
    ensures
        reader::seek_landing(reader::seek_target(SeekFrom::Current(a), pos, size)) matches Some(
            there,
        ) && reader::seek_landing(reader::seek_target(SeekFrom::Current(b), there, size))
            == reader::seek_landing(
            reader::seek_target(SeekFrom::Current((a + b) as i64), pos, size),
        ),
{
}

/// A seek from the end is a seek from the start by the size and the offset together, and
/// it does not matter where the reader stood.
pub proof fn law_seek_from_the_end(pos: u64, other: u64, size: u64, offset: i64)
    requires
        0 <= size + offset <= u64::MAX,
    ensures
        reader::seek_landing(reader::seek_target(SeekFrom::End(offset), pos, size))
            == reader::seek_landing(
            reader::seek_target(SeekFrom::Start((size + offset) as u64), other, size),
        ),
{
}

/// Positions and sizes beyond signed 64-bit numbers wrap around: wherever a seek leads,
/// it lands on the one position below 2^63 that differs from there by a multiple of
/// 2^64, and is refused if there is none.
pub proof fn law_seek_wraps(from: SeekFrom, pos: u64, size: u64, wraps: int)
    ensures
        ({
            let there = (match from {
                SeekFrom::Start(offset) => offset as int,
                SeekFrom::Current(offset) => pos + offset,
                SeekFrom::End(offset) => size + offset,
            }) + wraps * 0x1_0000_0000_0000_0000;
            let landing = reader::seek_landing(reader::seek_target(from, pos, size));
            &&& 0 <= there <= i64::MAX ==> landing == Some(there as u64)
            &&& i64::MAX < there < 0x1_0000_0000_0000_0000 ==> landing is None
        }),
{
    let target = reader::seek_target(from, pos, size);
    let there = target + wraps * 0x1_0000_0000_0000_0000;
    if 0 <= there < 0x1_0000_0000_0000_0000 {
        lemma_fundamental_div_mod_converse(target, 0x1_0000_0000_0000_0000, -wraps, there);
    }
}

/// What the state of a reader comes to: the chunk at its position holds the position;
/// it can read if chunks have a size or nothing is left; and what a read or a seek leaves
/// as it was is the archive, the place of the entry in it and the index.
pub proof fn law_reader_state<R>(reader: SozipReader<R>, other: SozipReader<R>)
    ensures
        reader.model().chunk_size > 0 ==> reader.current_chunk() * reader.model().chunk_size
            <= reader.position() < reader.current_chunk() * reader.model().chunk_size
            + reader.model().chunk_size,
        reader.readable() <==> (reader.model().chunk_size > 0 || reader.position()
            >= reader.model().uncompressed_size),
        reader.same_entry(other) <==> {
            &&& reader.source() == other.source()
            &&& reader.start() == other.start()
            &&& reader.model() == other.model()
        },
        reader.cached() is None ==> reader.well_formed(),
{
    let d = reader.model().chunk_size as int;
    if d > 0 {
        lemma_fundamental_div_mod(reader.position() as int, d);
        lemma_mul_is_commutative(reader.position() as int / d, d);
    }
}

/// A reader of an archive in memory that has nothing cached can be read from.
pub proof fn law_fresh_reader_is_faithful(reader: SozipReader<Vec<u8>>)
    requires
        reader.cached() is None,
    ensures
        reader.faithful(),
{
}

/// A cached chunk of a reader that can be trusted is what the archive holds in its
/// place, so reading it again from the archive would give the same.
pub proof fn law_cached_chunk_is_current(reader: SozipReader<Vec<u8>>)
    requires
        reader.faithful(),
    ensures
        reader.cached() matches Some((chunk, bytes)) ==> reader::chunk_content(
            reader.source()@,
            reader.model(),
            reader.start(),
            chunk,
        ) == Ok::<Seq<u8>, ErrorModel>(bytes),
{
}

/// Of the failures of a read only that of decompression empties the cache.
pub proof fn law_failed_read_and_cache(cached: Option<(int, Seq<u8>)>, error: ErrorModel)
    ensures
        reader::cached_after_failure(cached, error) == (match error {
            ErrorModel::Inflate { reason } => None,
            _ => cached,
        }),
{
}

} // verus!
