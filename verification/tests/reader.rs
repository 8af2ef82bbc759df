use flate2::{Compress, Compression, FlushCompress};
use sozip::reader::{ReadStep, SeekError, SeekFrom};
use sozip::{SozipError, SozipIndex, SozipReader};

const FOO: [u8; 16] = [
    0x4a, 0xcb, 0x07, 0x00, 0x00, 0x00, 0xff, 0xff, 0x00, 0x00, 0x00, 0xff, 0xff, 0xcb, 0x07, 0x00,
];

fn foo_index() -> SozipIndex {
    SozipIndex {
        version: 1,
        chunk_size: 2,
        uncompressed_size: 3,
        compressed_size: 16,
        offsets: vec![13],
    }
}

/// Compresses `data` in chunks that can be decompressed on their own.
fn chunked(data: &[u8], chunk_size: u32) -> (Vec<u8>, SozipIndex) {
    let mut stream = Compress::new(Compression::default(), false);
    let mut bytes: Vec<u8> = Vec::with_capacity(data.len() * 2 + 1000);
    let mut offsets = Vec::new();
    let chunks: Vec<&[u8]> = data.chunks(chunk_size as usize).collect();
    for (i, chunk) in chunks.iter().enumerate() {
        if i > 0 {
            offsets.push(bytes.len() as u64);
        }
        let flush = if i + 1 == chunks.len() {
            FlushCompress::Finish
        } else {
            FlushCompress::Full
        };
        stream.compress_vec(chunk, &mut bytes, flush).unwrap();
    }
    let index = SozipIndex {
        version: 1,
        chunk_size,
        uncompressed_size: data.len() as u64,
        compressed_size: bytes.len() as u64,
        offsets,
    };
    (bytes, index)
}

fn sample(len: usize) -> Vec<u8> {
    (0..len).map(|i| (i * i / 7 % 251) as u8).collect()
}

fn read_to_end(reader: &mut SozipReader<Vec<u8>>, room: usize) -> Vec<u8> {
    let mut all = Vec::new();
    let mut buf = vec![0u8; room];
    loop {
        let count = reader.read(&mut buf).unwrap();
        if count == 0 {
            return all;
        }
        all.extend_from_slice(&buf[..count]);
    }
}

#[test]
fn foo_is_read_chunk_by_chunk() {
    let mut image = b"....".to_vec();
    image.extend_from_slice(&FOO);
    let mut reader = SozipReader::new(image, 4, foo_index());
    assert_eq!(reader.uncompressed_size(), 3);
    assert_eq!(reader.index().num_chunks(), 2);

    let mut buf = [b'-'; 5];
    assert_eq!(reader.read(&mut buf).unwrap(), 2);
    assert_eq!(&buf, b"fo---");
    assert_eq!(reader.read(&mut buf).unwrap(), 1);
    assert_eq!(&buf, b"oo---");
    assert_eq!(reader.read(&mut buf).unwrap(), 0);
    assert_eq!(&buf, b"oo---");
}

#[test]
fn reads_give_the_whole_content() {
    let data = sample(1000);
    let (bytes, index) = chunked(&data, 64);
    assert_eq!(index.num_chunks(), 16);
    for room in [1, 7, 63, 64, 65, 1000, 5000] {
        let mut reader = SozipReader::new(bytes.clone(), 0, index.clone());
        assert_eq!(read_to_end(&mut reader, room), data);
    }
}

#[test]
fn seeks_reach_every_byte() {
    let data = sample(500);
    let (bytes, index) = chunked(&data, 33);
    let mut image = vec![7u8; 90];
    image.extend_from_slice(&bytes);
    image.extend_from_slice(&[1, 2, 3]);
    let mut reader = SozipReader::new(image, 90, index);
    let mut buf = [0u8; 1];
    for step in 0..500u64 {
        let pos = step * 77 % 500;
        assert_eq!(reader.seek(SeekFrom::Start(pos)), Ok(pos));
        assert_eq!(reader.read(&mut buf).unwrap(), 1);
        assert_eq!(buf[0], data[pos as usize]);
    }
}

#[test]
fn seeks_are_relative() {
    let mut reader = SozipReader::new(FOO.to_vec(), 0, foo_index());
    assert_eq!(reader.seek(SeekFrom::End(-1)), Ok(2));
    assert_eq!(reader.seek(SeekFrom::Current(-2)), Ok(0));
    assert_eq!(reader.seek(SeekFrom::Current(1)), Ok(1));
    let mut buf = [0u8; 8];
    assert_eq!(reader.read(&mut buf).unwrap(), 1);
    assert_eq!(buf[0], b'o');
    assert_eq!(reader.seek(SeekFrom::Current(0)), Ok(2));
}

#[test]
fn seeks_before_the_start_are_refused() {
    let mut reader = SozipReader::new(FOO.to_vec(), 0, foo_index());
    assert_eq!(reader.seek(SeekFrom::Start(1)), Ok(1));
    assert_eq!(
        reader.seek(SeekFrom::Current(-2)),
        Err(SeekError::NegativePosition)
    );
    assert_eq!(
        reader.seek(SeekFrom::End(-4)),
        Err(SeekError::NegativePosition)
    );
    assert_eq!(
        reader.seek(SeekFrom::Start(1 << 63)),
        Err(SeekError::NegativePosition)
    );
    assert_eq!(
        reader.seek(SeekFrom::Current(i64::MAX)),
        Err(SeekError::NegativePosition)
    );
    assert_eq!(reader.seek(SeekFrom::Current(0)), Ok(1));
}

#[test]
fn seeks_past_the_end_read_nothing() {
    let mut reader = SozipReader::new(FOO.to_vec(), 0, foo_index());
    assert_eq!(reader.seek(SeekFrom::Start(100)), Ok(100));
    let mut buf = [5u8; 2];
    assert_eq!(reader.read(&mut buf).unwrap(), 0);
    assert_eq!(buf, [5, 5]);
    assert_eq!(
        reader.seek(SeekFrom::Start(i64::MAX as u64)),
        Ok(i64::MAX as u64)
    );
}

#[test]
fn largest_sizes_wrap_around() {
    let mut index = foo_index();
    index.uncompressed_size = u64::MAX;
    let mut reader = SozipReader::new(FOO.to_vec(), 0, index);
    assert_eq!(reader.seek(SeekFrom::End(5)), Ok(4));
    assert_eq!(
        reader.seek(SeekFrom::End(-5)),
        Err(SeekError::NegativePosition)
    );
}

#[test]
fn steps_tell_what_to_read() {
    let mut reader = SozipReader::new((), 100, foo_index());
    match reader.next_step().unwrap() {
        ReadStep::Fetch { chunk, offset, len } => assert_eq!((chunk, offset, len), (0, 100, 13)),
        _ => panic!("the first chunk is not cached yet"),
    }
    reader.load_chunk(0, &FOO[..13]).unwrap();
    assert!(matches!(reader.next_step(), Ok(ReadStep::Copy)));
    let mut buf = [0u8; 9];
    assert_eq!(reader.copy_cached(&mut buf), 2);
    assert_eq!(&buf[..3], b"fo\0");
    match reader.next_step().unwrap() {
        ReadStep::Fetch { chunk, offset, len } => assert_eq!((chunk, offset, len), (1, 113, 3)),
        _ => panic!("the second chunk is not cached yet"),
    }
    reader.load_chunk(1, &FOO[13..]).unwrap();
    assert_eq!(reader.copy_cached(&mut buf), 1);
    assert!(matches!(reader.next_step(), Ok(ReadStep::End)));
}

#[test]
fn truncated_archives_are_io_errors() {
    let mut reader = SozipReader::new(FOO[..15].to_vec(), 0, foo_index());
    let mut buf = [0u8; 2];
    assert_eq!(reader.read(&mut buf).unwrap(), 2);
    match reader.read(&mut buf) {
        Err(SozipError::Io(error)) => {
            assert_eq!(error.kind(), std::io::ErrorKind::UnexpectedEof)
        }
        _ => panic!("the second chunk is cut off"),
    }
    assert_eq!(&buf, b"fo");
}

#[test]
fn corrupt_chunks_are_inflate_errors() {
    let mut image = FOO.to_vec();
    image[13] = 0xff;
    let mut reader = SozipReader::new(image, 0, foo_index());
    reader.seek(SeekFrom::Start(2)).unwrap();
    let mut buf = [0u8; 2];
    match reader.read(&mut buf) {
        Err(SozipError::Inflate(reason)) => {
            assert_eq!(reason, "chunk 1: corrupt deflate stream")
        }
        _ => panic!("the second chunk is corrupt"),
    }
}

#[test]
fn chunks_of_the_wrong_length_are_inflate_errors() {
    let mut index = foo_index();
    index.uncompressed_size = 4;
    let mut reader = SozipReader::new(FOO.to_vec(), 0, index);
    reader.seek(SeekFrom::Start(2)).unwrap();
    let mut buf = [0u8; 2];
    match reader.read(&mut buf) {
        Err(SozipError::Inflate(reason)) => {
            assert_eq!(reason, "chunk 1: expected 2 decompressed bytes, got 1")
        }
        _ => panic!("the second chunk is too short"),
    }
}

#[test]
fn failed_loads_leave_nothing_cached() {
    let mut image = FOO.to_vec();
    image[13] = 0xff;
    let mut reader = SozipReader::new(image, 0, foo_index());
    let mut buf = [0u8; 1];
    assert_eq!(reader.read(&mut buf).unwrap(), 1);
    assert_eq!(&buf, b"f");
    reader.seek(SeekFrom::Start(2)).unwrap();
    assert!(reader.read(&mut buf).is_err());
    reader.seek(SeekFrom::Start(0)).unwrap();
    assert!(matches!(
        reader.next_step(),
        Ok(ReadStep::Fetch { chunk: 0, .. })
    ));
    assert_eq!(reader.read(&mut buf).unwrap(), 1);
    assert_eq!(&buf, b"f");
}

#[test]
fn missing_chunks_are_index_errors() {
    let mut index = foo_index();
    index.offsets = vec![];
    let mut reader = SozipReader::new(FOO.to_vec(), 0, index);
    reader.seek(SeekFrom::Start(2)).unwrap();
    match reader.read(&mut [0u8; 2]) {
        Err(SozipError::InvalidIndex { reason }) => {
            assert_eq!(reason, "chunk index 1 out of range (have 1 chunks)")
        }
        _ => panic!("the index has one chunk only"),
    }
}

#[test]
fn reversed_ranges_are_index_errors() {
    let mut index = foo_index();
    index.compressed_size = 12;
    let mut reader = SozipReader::new(FOO.to_vec(), 0, index);
    reader.seek(SeekFrom::Start(2)).unwrap();
    match reader.read(&mut [0u8; 2]) {
        Err(SozipError::InvalidIndex { reason }) => {
            assert_eq!(reason, "chunk 1: unreadable compressed range 13..12")
        }
        _ => panic!("the range of the second chunk ends before it starts"),
    }
}

#[test]
fn empty_ranges_are_read_anywhere() {
    let mut index = foo_index();
    index.compressed_size = 13;
    let mut reader = SozipReader::new(FOO[..13].to_vec(), 40, index);
    reader.seek(SeekFrom::Start(2)).unwrap();
    match reader.read(&mut [0u8; 2]) {
        Err(SozipError::Inflate(reason)) => {
            assert_eq!(reason, "chunk 1: expected 1 decompressed bytes, got 0")
        }
        _ => panic!("the second chunk is empty"),
    }
}

#[test]
fn other_bytes_of_the_archive_do_not_matter() {
    let data = sample(300);
    let (bytes, index) = chunked(&data, 50);
    let (start, end) = index.compressed_range(3).unwrap();
    let mut image = vec![0xeeu8; bytes.len()];
    image[start as usize..end as usize].copy_from_slice(&bytes[start as usize..end as usize]);
    let mut reader = SozipReader::new(image, 0, index);
    reader.seek(SeekFrom::Start(150)).unwrap();
    let mut buf = [0u8; 50];
    assert_eq!(reader.read(&mut buf).unwrap(), 50);
    assert_eq!(&buf[..], &data[150..200]);
}

#[test]
fn the_archive_stays_within_reach() {
    let mut reader = SozipReader::new(vec![1u8, 2], 0, foo_index());
    reader.inner_mut().push(3);
    assert_eq!(reader.inner_mut(), &vec![1u8, 2, 3]);
}

#[test]
fn stream_position_follows_reads_and_seeks() {
    let mut reader = SozipReader::new(FOO.to_vec(), 0, foo_index());
    assert_eq!(reader.stream_position(), 0);
    let mut buf = [0u8; 1];
    reader.read(&mut buf).unwrap();
    assert_eq!(reader.stream_position(), 1);
    reader.seek(SeekFrom::End(-1)).unwrap();
    assert_eq!(reader.stream_position(), 2);
}
