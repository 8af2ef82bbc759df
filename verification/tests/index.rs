use sozip::index::{index_filename, is_index_file, SOZIP_DEFAULT_CHUNK_SIZE, SOZIP_VERSION};
use sozip::{SozipError, SozipIndex};

fn make_index_bytes(
    version: u32,
    skip_bytes: u32,
    chunk_size: u32,
    offset_size: u32,
    uncompressed_size: u64,
    compressed_size: u64,
    offsets: &[u64],
) -> Vec<u8> {
    let mut buf = Vec::new();
    buf.extend_from_slice(&version.to_le_bytes());
    buf.extend_from_slice(&skip_bytes.to_le_bytes());
    buf.extend_from_slice(&chunk_size.to_le_bytes());
    buf.extend_from_slice(&offset_size.to_le_bytes());
    buf.extend_from_slice(&uncompressed_size.to_le_bytes());
    buf.extend_from_slice(&compressed_size.to_le_bytes());
    buf.extend(std::iter::repeat(0u8).take(skip_bytes as usize));
    for &off in offsets {
        buf.extend_from_slice(&off.to_le_bytes());
    }
    buf
}

fn reason(data: &[u8]) -> String {
    match SozipIndex::from_bytes(data) {
        Err(SozipError::InvalidIndex { reason }) => reason,
        other => panic!("expected an invalid index, got {:?}", other),
    }
}

#[test]
fn parse_valid_index() {
    let data = make_index_bytes(1, 0, 32768, 8, 80000, 50000, &[15000, 35000]);
    let idx = SozipIndex::from_bytes(&data).unwrap();
    assert_eq!(idx.version, 1);
    assert_eq!(idx.chunk_size, 32768);
    assert_eq!(idx.uncompressed_size, 80000);
    assert_eq!(idx.compressed_size, 50000);
    assert_eq!(idx.num_chunks(), 3);
    assert_eq!(idx.offsets, vec![15000, 35000]);
}

#[test]
fn parse_with_skip_bytes() {
    let data = make_index_bytes(1, 16, 32768, 8, 40000, 20000, &[10000]);
    let idx = SozipIndex::from_bytes(&data).unwrap();
    assert_eq!(idx.num_chunks(), 2);
    assert_eq!(idx.offsets, vec![10000]);
}

#[test]
fn reject_bad_version() {
    let data = make_index_bytes(2, 0, 32768, 8, 40000, 20000, &[10000]);
    assert!(SozipIndex::from_bytes(&data).is_err());
}

#[test]
fn reject_zero_chunk_size() {
    let data = make_index_bytes(1, 0, 0, 8, 40000, 20000, &[]);
    assert!(SozipIndex::from_bytes(&data).is_err());
}

#[test]
fn reject_bad_offset_size() {
    let data = make_index_bytes(1, 0, 32768, 4, 40000, 20000, &[]);
    assert!(SozipIndex::from_bytes(&data).is_err());
}

#[test]
fn reject_truncated() {
    let data = make_index_bytes(1, 0, 32768, 8, 80000, 50000, &[15000]);
    assert!(SozipIndex::from_bytes(&data).is_err());
}

#[test]
fn reject_non_monotonic() {
    let data = make_index_bytes(1, 0, 32768, 8, 80000, 50000, &[35000, 15000]);
    assert!(SozipIndex::from_bytes(&data).is_err());
}

#[test]
fn parse_foo_zip_index() {
    let data = make_index_bytes(1, 0, 2, 8, 3, 16, &[13]);
    let idx = SozipIndex::from_bytes(&data).unwrap();
    assert_eq!(idx.chunk_size, 2);
    assert_eq!(idx.uncompressed_size, 3);
    assert_eq!(idx.compressed_size, 16);
    assert_eq!(idx.num_chunks(), 2);
    assert_eq!(idx.offsets, vec![13]);

    assert_eq!(idx.compressed_range(0).unwrap(), (0, 13));
    assert_eq!(idx.compressed_range(1).unwrap(), (13, 16));
}

#[test]
fn locate_chunk_arithmetic() {
    let data = make_index_bytes(1, 0, 32768, 8, 80000, 50000, &[15000, 35000]);
    let idx = SozipIndex::from_bytes(&data).unwrap();

    assert_eq!(idx.locate_chunk(0).unwrap(), (0, 0));
    assert_eq!(idx.locate_chunk(32767).unwrap(), (0, 32767));
    assert_eq!(idx.locate_chunk(32768).unwrap(), (1, 0));
    assert_eq!(idx.locate_chunk(65536).unwrap(), (2, 0));
    assert_eq!(idx.locate_chunk(79999).unwrap(), (2, 79999 - 65536));
    assert!(idx.locate_chunk(80000).is_err());
}

#[test]
fn compressed_range_arithmetic() {
    let data = make_index_bytes(1, 0, 32768, 8, 80000, 50000, &[15000, 35000]);
    let idx = SozipIndex::from_bytes(&data).unwrap();

    assert_eq!(idx.compressed_range(0).unwrap(), (0, 15000));
    assert_eq!(idx.compressed_range(1).unwrap(), (15000, 35000));
    assert_eq!(idx.compressed_range(2).unwrap(), (35000, 50000));

    assert!(idx.compressed_range(3).is_err());
}

#[test]
fn locate_chunk_foo() {
    let data = make_index_bytes(1, 0, 2, 8, 3, 16, &[13]);
    let idx = SozipIndex::from_bytes(&data).unwrap();

    assert_eq!(idx.locate_chunk(0).unwrap(), (0, 0));
    assert_eq!(idx.locate_chunk(1).unwrap(), (0, 1));
    assert_eq!(idx.locate_chunk(2).unwrap(), (1, 0));
    assert!(idx.locate_chunk(3).is_err());
}

#[test]
fn index_filename_no_dir() {
    assert_eq!(index_filename("mydata.gpkg"), ".mydata.gpkg.sozip.idx");
}

#[test]
fn index_filename_with_dir() {
    assert_eq!(
        index_filename("subdir/mydata.gpkg"),
        "subdir/.mydata.gpkg.sozip.idx"
    );
}

#[test]
fn index_filename_nested_dir() {
    assert_eq!(index_filename("a/b/c.shp"), "a/b/.c.shp.sozip.idx");
}

#[test]
fn index_filename_edges() {
    assert_eq!(index_filename(""), "..sozip.idx");
    assert_eq!(index_filename("dir/"), "dir/..sozip.idx");
    assert_eq!(index_filename("/x"), "/.x.sozip.idx");
    assert_eq!(index_filename("täg/ü"), "täg/.ü.sozip.idx");
}

#[test]
fn index_names_are_recognized() {
    assert!(is_index_file(".sozip.idx"));
    assert!(is_index_file("a/.b.sozip.idx"));
    assert!(is_index_file(&index_filename("ü")));
    assert!(!is_index_file("sozip.idx"));
    assert!(!is_index_file(".sozip.idx2"));
    assert!(!is_index_file(""));
}

#[test]
fn index_names_are_distinct() {
    let names = ["a", "b", "a/b", "b/a", ".a", "a/.b", "ab", "a/", "/a"];
    for (i, a) in names.iter().enumerate() {
        for (j, b) in names.iter().enumerate() {
            assert_eq!(index_filename(a) == index_filename(b), i == j);
        }
    }
}

#[test]
fn rejections_say_why() {
    assert_eq!(
        reason(&[0u8; 31]),
        "index too short: 31 bytes, need at least 32"
    );
    assert_eq!(
        reason(&make_index_bytes(2, 0, 32768, 8, 40000, 20000, &[10000])),
        "unsupported version 2, expected 1"
    );
    assert_eq!(
        reason(&make_index_bytes(1, 0, 0, 8, 40000, 20000, &[])),
        "chunk_size must not be zero"
    );
    assert_eq!(
        reason(&make_index_bytes(1, 0, 32768, 4, 40000, 20000, &[])),
        "offset_size must be 8, got 4"
    );
    assert_eq!(
        reason(&make_index_bytes(1, 0, 32768, 8, 80000, 50000, &[15000])),
        "index data too short for 2 offsets (3 chunks): need 48 bytes, have 40"
    );
    assert_eq!(
        reason(&make_index_bytes(1, 0, 10, 8, 40, 50000, &[1, 35000, 15000])),
        "non-monotonic offsets: 35000 followed by 15000"
    );
}

#[test]
fn rejections_come_in_order() {
    assert_eq!(
        reason(&make_index_bytes(0, 0, 0, 0, 0, 0, &[])),
        "unsupported version 0, expected 1"
    );
    assert_eq!(
        reason(&make_index_bytes(1, 0, 0, 0, 0, 0, &[])),
        "chunk_size must not be zero"
    );
}

#[test]
fn enormous_sizes_are_too_short() {
    assert_eq!(
        reason(&make_index_bytes(1, 0, 1, 8, u64::MAX, 0, &[])),
        "index data too short for 18446744073709551614 offsets (18446744073709551615 chunks): \
         need 147573952589676412944 bytes, have 32"
    );
    assert_eq!(
        reason(&make_index_bytes(1, 0, 32768, 8, 1, 0, &[])[..31]),
        "index too short: 31 bytes, need at least 32"
    );
}

#[test]
fn empty_entry_has_no_chunks() {
    let idx = SozipIndex::from_bytes(&make_index_bytes(1, 0, 32768, 8, 0, 2, &[])).unwrap();
    assert_eq!(idx.num_chunks(), 0);
    assert!(idx.offsets.is_empty());
    assert!(idx.locate_chunk(0).is_err());
    assert!(matches!(
        idx.compressed_range(0),
        Err(SozipError::InvalidIndex { reason }) if reason == "chunk index 0 out of range (have 0 chunks)"
    ));
}

#[test]
fn one_chunk_needs_no_table() {
    let idx = SozipIndex::from_bytes(&make_index_bytes(1, 0, 100, 8, 100, 7, &[])).unwrap();
    assert_eq!(idx.num_chunks(), 1);
    assert_eq!(idx.compressed_range(0).unwrap(), (0, 7));
}

#[test]
fn skipped_and_trailing_bytes_do_not_matter() {
    let mut data = make_index_bytes(1, 3, 10, 8, 25, 90, &[30, 60]);
    data[32] = 1;
    data[34] = 0xff;
    data.extend_from_slice(&[9, 9, 9]);
    let idx = SozipIndex::from_bytes(&data).unwrap();
    assert_eq!(idx.offsets, vec![30, 60]);
    assert_eq!(idx.compressed_size, 90);
}

#[test]
fn chunks_tile_the_entry() {
    let idx = SozipIndex::from_bytes(&make_index_bytes(1, 0, 10, 8, 25, 90, &[30, 60])).unwrap();
    for pos in 0..25u64 {
        let (chunk, offset) = idx.locate_chunk(pos).unwrap();
        assert_eq!(chunk as u64 * 10 + offset as u64, pos);
        assert!(chunk < idx.num_chunks());
    }
    let mut end = 0;
    for chunk in 0..idx.num_chunks() {
        let (start, stop) = idx.compressed_range(chunk).unwrap();
        assert_eq!(start, end);
        end = stop;
    }
    assert_eq!(end, idx.compressed_size);
}

#[test]
fn out_of_range_positions_are_named() {
    let idx = SozipIndex::from_bytes(&make_index_bytes(1, 0, 2, 8, 3, 16, &[13])).unwrap();
    assert!(matches!(
        idx.locate_chunk(7),
        Err(SozipError::SeekOutOfRange { offset: 7, size: 3 })
    ));
    assert!(matches!(
        idx.compressed_range(12),
        Err(SozipError::InvalidIndex { reason }) if reason == "chunk index 12 out of range (have 2 chunks)"
    ));
}

#[test]
fn clone_keeps_the_index() {
    let idx = SozipIndex::from_bytes(&make_index_bytes(1, 0, 2, 8, 3, 16, &[13])).unwrap();
    let copy = idx.clone();
    assert_eq!(copy.version, SOZIP_VERSION);
    assert_eq!(copy.chunk_size, idx.chunk_size);
    assert_eq!(copy.uncompressed_size, idx.uncompressed_size);
    assert_eq!(copy.compressed_size, idx.compressed_size);
    assert_eq!(copy.offsets, idx.offsets);
    assert_eq!(SOZIP_DEFAULT_CHUNK_SIZE, 32768);
}
