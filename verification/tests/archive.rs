use flate2::{Compress, Compression, FlushCompress};
use sozip::archive::{Discovery, EntryMeta, Lookup, ValidationResult};
use sozip::reader::SeekFrom;
use sozip::{SozipArchive, SozipError, SozipReader};
use std::io::Write;

const FOO: [u8; 16] = [
    0x4a, 0xcb, 0x07, 0x00, 0x00, 0x00, 0xff, 0xff, 0x00, 0x00, 0x00, 0xff, 0xff, 0xcb, 0x07, 0x00,
];

fn index_bytes(chunk_size: u32, uncompressed: u64, compressed: u64, offsets: &[u64]) -> Vec<u8> {
    let mut bytes = Vec::new();
    bytes.extend_from_slice(&1u32.to_le_bytes());
    bytes.extend_from_slice(&0u32.to_le_bytes());
    bytes.extend_from_slice(&chunk_size.to_le_bytes());
    bytes.extend_from_slice(&8u32.to_le_bytes());
    bytes.extend_from_slice(&uncompressed.to_le_bytes());
    bytes.extend_from_slice(&compressed.to_le_bytes());
    for offset in offsets {
        bytes.extend_from_slice(&offset.to_le_bytes());
    }
    bytes
}

/// A file of an archive: in the central directory or not.
struct Part<'a> {
    name: &'a str,
    method: u16,
    data: &'a [u8],
    content: &'a [u8],
    listed: bool,
}

fn stored<'a>(name: &'a str, data: &'a [u8]) -> Part<'a> {
    Part {
        name,
        method: 0,
        data,
        content: data,
        listed: true,
    }
}

fn hidden<'a>(name: &'a str, data: &'a [u8]) -> Part<'a> {
    Part {
        listed: false,
        ..stored(name, data)
    }
}

fn foo() -> Part<'static> {
    Part {
        name: "foo",
        method: 8,
        data: &FOO,
        content: b"foo",
        listed: true,
    }
}

fn crc(data: &[u8]) -> u32 {
    let mut crc = flate2::Crc::new();
    crc.update(data);
    crc.sum()
}

fn common_fields(part: &Part) -> Vec<u8> {
    let mut bytes = vec![20, 0, 0, 8];
    bytes.extend_from_slice(&part.method.to_le_bytes());
    bytes.extend_from_slice(&[0, 0, 0x21, 0]);
    bytes.extend_from_slice(&crc(part.content).to_le_bytes());
    bytes.extend_from_slice(&(part.data.len() as u32).to_le_bytes());
    bytes.extend_from_slice(&(part.content.len() as u32).to_le_bytes());
    bytes.extend_from_slice(&(part.name.len() as u16).to_le_bytes());
    bytes.extend_from_slice(&[0, 0]);
    bytes
}

/// Writes a ZIP archive of the given files, in order.
fn zip_of(parts: &[Part]) -> Vec<u8> {
    let mut image = Vec::new();
    let mut directory = Vec::new();
    let mut count: u16 = 0;
    for part in parts {
        let start = image.len() as u32;
        image.extend_from_slice(&[0x50, 0x4b, 0x03, 0x04]);
        image.extend(common_fields(part));
        image.extend_from_slice(part.name.as_bytes());
        image.extend_from_slice(part.data);
        if part.listed {
            count += 1;
            directory.extend_from_slice(&[0x50, 0x4b, 0x01, 0x02, 20, 0]);
            directory.extend(common_fields(part));
            directory.extend_from_slice(&[0; 10]);
            directory.extend_from_slice(&start.to_le_bytes());
            directory.extend_from_slice(part.name.as_bytes());
        }
    }
    let start = image.len() as u32;
    image.extend_from_slice(&directory);
    image.extend_from_slice(&[0x50, 0x4b, 0x05, 0x06, 0, 0, 0, 0]);
    image.extend_from_slice(&count.to_le_bytes());
    image.extend_from_slice(&count.to_le_bytes());
    image.extend_from_slice(&(directory.len() as u32).to_le_bytes());
    image.extend_from_slice(&start.to_le_bytes());
    image.extend_from_slice(&[0, 0]);
    image
}

fn foo_zip() -> Vec<u8> {
    let index = index_bytes(2, 3, 16, &[13]);
    zip_of(&[foo(), hidden(".foo.sozip.idx", &index)])
}

fn read_to_end(reader: &mut SozipReader<Vec<u8>>) -> Vec<u8> {
    let mut all = Vec::new();
    let mut buf = [0u8; 32];
    loop {
        let count = reader.read(&mut buf).unwrap();
        if count == 0 {
            return all;
        }
        all.extend_from_slice(&buf[..count]);
    }
}

#[test]
fn inspect_foo_zip() {
    let mut archive = zip::ZipArchive::new(std::io::Cursor::new(foo_zip())).unwrap();
    println!("entries in central directory: {}", archive.len());
    for i in 0..archive.len() {
        let entry = archive.by_index_raw(i).unwrap();
        println!(
            "  [{}] name={:?} compressed={} uncompressed={} method={:?} data_start={}",
            i,
            entry.name(),
            entry.compressed_size(),
            entry.size(),
            entry.compression(),
            entry.data_start(),
        );
    }
    assert_eq!(archive.len(), 1);
}

#[test]
fn read_foo_zip_sozip() {
    let archive = SozipArchive::new(foo_zip()).unwrap();

    assert!(archive.is_sozip("foo"));
    let info = archive.entry_info("foo").unwrap();
    assert_eq!(info.index.chunk_size, 2);
    assert_eq!(info.index.uncompressed_size, 3);
    assert_eq!(info.index.num_chunks(), 2);

    let mut reader = SozipReader::new(foo_zip(), info.data_start, info.index.clone());
    assert_eq!(read_to_end(&mut reader), b"foo");

    reader.seek(SeekFrom::Start(2)).unwrap();
    let mut single = [0u8; 1];
    assert_eq!(reader.read(&mut single).unwrap(), 1);
    assert_eq!(single[0], b'o');
}

#[test]
fn foo_zip_roundtrip() {
    let archive = SozipArchive::new(foo_zip()).unwrap();

    assert!(archive.is_sozip("foo"));
    let info = archive.entry_info("foo").unwrap();
    assert_eq!(info.index.chunk_size, 2);
    assert_eq!(info.index.uncompressed_size, 3);
    assert_eq!(info.index.num_chunks(), 2);

    let mut reader = SozipReader::new(foo_zip(), info.data_start, info.index.clone());
    assert_eq!(read_to_end(&mut reader), b"foo");
}

#[test]
fn entry_info_comes_from_the_directory() {
    let archive = SozipArchive::new(foo_zip()).unwrap();
    let info = archive.entry_info("foo").unwrap();
    assert_eq!(info.name, "foo");
    assert_eq!(info.uncompressed_size, 3);
    assert_eq!(info.compressed_size, 16);
    assert_eq!(info.data_start, 33);
    assert_eq!(info.clone().index.offsets, vec![13]);
    assert!(archive.entry_info("bar").is_none());
    assert!(!archive.is_sozip(".foo.sozip.idx"));
}

#[test]
fn listed_indexes_are_read_and_hidden() {
    let index = index_bytes(2, 3, 16, &[13]);
    let image = zip_of(&[
        stored("dir/.foo.sozip.idx", &index),
        Part {
            name: "dir/foo",
            ..foo()
        },
        stored("plain", b"text"),
    ]);
    let archive = SozipArchive::new(image).unwrap();
    assert_eq!(archive.file_names(), ["dir/foo", "plain"]);
    assert_eq!(archive.sozip_entries(), vec!["dir/foo"]);
    assert_eq!(
        archive.entry_info("dir/foo").unwrap().index.offsets,
        vec![13]
    );
}

#[test]
fn compressed_listed_indexes_are_read() {
    let index = index_bytes(2, 3, 16, &[13]);
    let mut encoder =
        flate2::write::DeflateEncoder::new(Vec::new(), Compression::default());
    encoder.write_all(&index).unwrap();
    let packed = encoder.finish().unwrap();
    let image = zip_of(&[
        foo(),
        Part {
            name: ".foo.sozip.idx",
            method: 8,
            data: &packed,
            content: &index,
            listed: true,
        },
    ]);
    let archive = SozipArchive::new(image).unwrap();
    assert!(archive.is_sozip("foo"));
}

#[test]
fn listed_index_prevails_over_orphan() {
    let listed = index_bytes(2, 3, 16, &[13]);
    let orphan = index_bytes(3, 3, 16, &[]);
    let image = zip_of(&[
        foo(),
        hidden(".foo.sozip.idx", &orphan),
        stored(".foo.sozip.idx", &listed),
    ]);
    let archive = SozipArchive::new(image).unwrap();
    assert_eq!(archive.entry_info("foo").unwrap().index.chunk_size, 2);
}

#[test]
fn plain_archives_have_no_sozip_entries() {
    let archive = SozipArchive::new(zip_of(&[stored("a", b"1"), stored("b", b"")])).unwrap();
    assert_eq!(archive.file_names(), ["a", "b"]);
    assert!(archive.sozip_entries().is_empty());
    assert!(!archive.is_sozip("a"));
    let archive = SozipArchive::new(zip_of(&[])).unwrap();
    assert!(archive.file_names().is_empty());
}

#[test]
fn malformed_indexes_are_passed_over() {
    let bad = index_bytes(2, 3, 16, &[]);
    let archive =
        SozipArchive::new(zip_of(&[foo(), hidden(".foo.sozip.idx", &bad)])).unwrap();
    assert_eq!(archive.file_names(), ["foo"]);
    assert!(!archive.is_sozip("foo"));
}

#[test]
fn disagreement_on_a_size_is_an_error() {
    let index = index_bytes(2, 4, 16, &[13]);
    assert!(matches!(
        SozipArchive::new(zip_of(&[foo(), hidden(".foo.sozip.idx", &index)])),
        Err(SozipError::SizeMismatch {
            index_size: 4,
            entry_size: 3
        })
    ));
    let index = index_bytes(2, 3, 17, &[13]);
    assert!(matches!(
        SozipArchive::new(zip_of(&[foo(), hidden(".foo.sozip.idx", &index)])),
        Err(SozipError::SizeMismatch {
            index_size: 17,
            entry_size: 16
        })
    ));
}

#[test]
fn no_archive_is_a_zip_error() {
    assert!(matches!(
        SozipArchive::new(b"not a zip file".to_vec()),
        Err(SozipError::Zip(_))
    ));
}

#[test]
fn damaged_local_header_is_a_zip_error() {
    let mut image = foo_zip();
    image[0] = 0;
    assert!(matches!(
        SozipArchive::new(image),
        Err(SozipError::Zip(_))
    ));
}

#[test]
fn damaged_listed_index_is_an_io_error() {
    let index = index_bytes(2, 3, 16, &[13]);
    let mut image = zip_of(&[stored(".foo.sozip.idx", &index), foo()]);
    image[50] ^= 1;
    assert!(matches!(SozipArchive::new(image), Err(SozipError::Io(_))));
}

#[test]
fn unsupported_listed_index_is_a_zip_error() {
    let index = index_bytes(2, 3, 16, &[13]);
    let image = zip_of(&[
        foo(),
        Part {
            method: 77,
            ..stored(".foo.sozip.idx", &index)
        },
    ]);
    assert!(matches!(SozipArchive::new(image), Err(SozipError::Zip(_))));
}

#[test]
fn validation_covers_every_file() {
    let index = index_bytes(2, 3, 16, &[13]);
    let image = zip_of(&[
        stored("plain", b"text"),
        foo(),
        hidden(".foo.sozip.idx", &index),
    ]);
    let archive = SozipArchive::new(image).unwrap();
    let results = archive.validate();
    assert_eq!(results.len(), 2);
    assert_eq!(results[0].name, "plain");
    assert!(!results[0].sozip);
    assert_eq!(results[0].chunk_size, None);
    assert_eq!(results[0].num_chunks, None);
    assert_eq!(results[0].to_string(), "  File plain is not SOZip-optimized");
    assert_eq!(results[1].name, "foo");
    assert!(results[1].sozip);
    assert_eq!(results[1].chunk_size, Some(2));
    assert_eq!(results[1].num_chunks, Some(2));
    assert_eq!(
        results[1].to_string(),
        "* File foo has a valid SOZip index, using chunk_size = 2"
    );
}

#[test]
fn summary_without_a_chunk_size_says_zero() {
    let result = ValidationResult {
        name: "x".to_string(),
        sozip: true,
        chunk_size: None,
        num_chunks: None,
    };
    assert_eq!(
        result.to_string(),
        "* File x has a valid SOZip index, using chunk_size = 0"
    );
}

#[test]
fn the_archive_itself_is_kept() {
    let image = foo_zip();
    let mut archive = SozipArchive::new(image.clone()).unwrap();
    assert_eq!(archive.reader_mut(), &image);
    archive.reader_mut().push(1);
    assert_eq!(archive.into_inner().len(), image.len() + 1);
}

fn meta(name: &str, data_start: u64, uncompressed_size: u64, compressed_size: u64) -> EntryMeta {
    EntryMeta {
        name: name.to_string(),
        data_start,
        uncompressed_size,
        compressed_size,
    }
}

#[test]
fn discovery_asks_step_by_step() {
    let mut search = Discovery::new(vec![
        meta("d/a", 10, 3, 16),
        meta("d/.a.sozip.idx", 0, 0, 0),
        meta("b", 50, 3, 16),
        meta("c", u64::MAX, 3, 16),
    ]);
    assert_eq!(search.next_index(), Some(1));
    search.supply_index(index_bytes(2, 3, 16, &[13]));
    assert_eq!(search.next_index(), None);
    match search.next_lookup() {
        Lookup::Known(payload) => {
            assert_eq!(payload, Some(index_bytes(2, 3, 16, &[13])));
            search.resolve(payload).unwrap();
        }
        _ => panic!("the index is listed"),
    }
    match search.next_lookup() {
        Lookup::Orphan { offset, name } => {
            assert_eq!(offset, 66);
            assert_eq!(name, ".b.sozip.idx");
            search.resolve(None).unwrap();
        }
        _ => panic!("the index may follow the entry"),
    }
    match search.next_lookup() {
        Lookup::Known(payload) => {
            assert_eq!(payload, None);
            search.resolve(payload).unwrap();
        }
        _ => panic!("nothing can follow the entry"),
    }
    assert!(matches!(search.next_lookup(), Lookup::Finished));
    let archive = search.finish("reader");
    assert_eq!(archive.file_names(), ["d/a", "b", "c"]);
    assert_eq!(archive.sozip_entries(), vec!["d/a"]);
    assert_eq!(archive.into_inner(), "reader");
}

#[test]
fn later_entries_of_a_name_take_its_place() {
    let mut search = Discovery::new(vec![meta("a", 10, 3, 16), meta("a", 90, 5, 8)]);
    search.resolve(Some(index_bytes(2, 3, 16, &[13]))).unwrap();
    search.resolve(Some(index_bytes(9, 5, 8, &[]))).unwrap();
    let archive = search.finish(());
    assert_eq!(archive.file_names(), ["a", "a"]);
    assert_eq!(archive.sozip_entries(), vec!["a"]);
    assert_eq!(archive.entry_info("a").unwrap().data_start, 90);
}

/// Compresses `data` in chunks that can be decompressed on their own, and writes the
/// index of them.
fn chunked(data: &[u8], chunk_size: u32) -> (Vec<u8>, Vec<u8>) {
    let mut stream = Compress::new(Compression::default(), false);
    let mut bytes: Vec<u8> = Vec::with_capacity(data.len() * 2 + 1000);
    let mut offsets = Vec::new();
    let chunks: Vec<&[u8]> = data.chunks(chunk_size as usize).collect();
    for (i, chunk) in chunks.iter().enumerate() {
        if i > 0 {
            offsets.push(bytes.len() as u64);
        }
        let flush = if i + 1 == chunks.len() {
            FlushCompress::Finish
        } else {
            FlushCompress::Full
        };
        stream.compress_vec(chunk, &mut bytes, flush).unwrap();
    }
    let index = index_bytes(chunk_size, data.len() as u64, bytes.len() as u64, &offsets);
    (bytes, index)
}

fn deflated<'a>(name: &'a str, data: &'a [u8], content: &'a [u8]) -> Part<'a> {
    Part {
        name,
        method: 8,
        data,
        content,
        listed: true,
    }
}

/// An archive with a shapefile: outlines in chunks, attributes in chunks, and a short
/// projection file without an index.
fn shp_zip() -> Vec<u8> {
    let mut shp = vec![0x00, 0x00, 0x27, 0x0a];
    shp.extend((4..50_000u32).map(|i| (i * 31 / 7 % 253) as u8));
    let dbf: Vec<u8> = (0..20_000u32).map(|i| (i % 97) as u8).collect();
    let (shp_data, shp_index) = chunked(&shp, 4096);
    let (dbf_data, dbf_index) = chunked(&dbf, 4096);
    zip_of(&[
        deflated("outlines.shp", &shp_data, &shp),
        hidden(".outlines.shp.sozip.idx", &shp_index),
        deflated("outlines.dbf", &dbf_data, &dbf),
        hidden(".outlines.dbf.sozip.idx", &dbf_index),
        stored("outlines.prj", b"GEOGCS"),
    ])
}

fn read_exact(reader: &mut SozipReader<Vec<u8>>, buf: &mut [u8]) {
    let mut filled = 0;
    while filled < buf.len() {
        let count = reader.read(&mut buf[filled..]).unwrap();
        assert!(count > 0);
        filled += count;
    }
}

#[test]
fn shp_zip_discovery() {
    let archive = SozipArchive::new(shp_zip()).unwrap();

    let sozip_names = archive.sozip_entries();
    println!("SOZip entries: {:?}", sozip_names);
    assert!(!sozip_names.is_empty());

    for result in archive.validate() {
        println!("{}", result.to_string());
    }

    let mut sozip_names = sozip_names;
    sozip_names.sort();
    assert_eq!(sozip_names, vec!["outlines.dbf", "outlines.shp"]);
    assert_eq!(
        archive.file_names(),
        ["outlines.shp", "outlines.dbf", "outlines.prj"]
    );
}

#[test]
fn shp_zip_seek_read() {
    let archive = SozipArchive::new(shp_zip()).unwrap();

    let shp_name = archive
        .sozip_entries()
        .into_iter()
        .find(|n| n.ends_with(".shp"))
        .expect("no .shp entry found");

    let info = archive.entry_info(shp_name).unwrap();
    println!(
        "{}: chunk_size={}, chunks={}, uncompressed={}",
        shp_name,
        info.index.chunk_size,
        info.index.num_chunks(),
        info.uncompressed_size
    );

    let mut reader = SozipReader::new(shp_zip(), info.data_start, info.index.clone());

    let mut header = [0u8; 100];
    read_exact(&mut reader, &mut header);
    let magic = u32::from_be_bytes([header[0], header[1], header[2], header[3]]);
    assert_eq!(magic, 9994, "not a valid shapefile header");

    let mid = info.uncompressed_size / 2;
    reader.seek(SeekFrom::Start(mid)).unwrap();
    let mut buf = [0u8; 4096];
    let n = reader.read(&mut buf).unwrap();
    assert!(n > 0);
    assert_eq!(buf[0], (mid as u32 * 31 / 7 % 253) as u8);

    reader.seek(SeekFrom::Start(0)).unwrap();
    let mut header2 = [0u8; 100];
    read_exact(&mut reader, &mut header2);
    assert_eq!(header, header2);
}
