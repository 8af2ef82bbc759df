use sozip::orphan::{scan_orphan_index, OrphanScan, ScanRequest};
use sozip::SozipError;

fn local_header(method: u16, name: &[u8], extra: &[u8], payload: &[u8]) -> Vec<u8> {
    let mut bytes = vec![0x50, 0x4b, 0x03, 0x04];
    bytes.extend_from_slice(&[20, 0, 0, 0]);
    bytes.extend_from_slice(&method.to_le_bytes());
    bytes.extend_from_slice(&[0; 8]);
    bytes.extend_from_slice(&(payload.len() as u32).to_le_bytes());
    bytes.extend_from_slice(&(payload.len() as u32).to_le_bytes());
    bytes.extend_from_slice(&(name.len() as u16).to_le_bytes());
    bytes.extend_from_slice(&(extra.len() as u16).to_le_bytes());
    bytes.extend_from_slice(name);
    bytes.extend_from_slice(extra);
    bytes.extend_from_slice(payload);
    bytes
}

fn scan(image: &[u8], offset: u64, name: &str) -> Result<Option<Vec<u8>>, SozipError> {
    scan_orphan_index(image, offset, name.to_string())
}

#[test]
fn written_orphan_is_found() {
    let mut image = vec![1, 2, 3];
    image.extend(local_header(0, b".foo.sozip.idx", b"", b"payload"));
    image.push(9);
    assert_eq!(
        scan(&image, 3, ".foo.sozip.idx").unwrap(),
        Some(b"payload".to_vec())
    );
}

#[test]
fn extra_field_is_skipped() {
    let image = local_header(0, b".foo.sozip.idx", &[7; 300], b"payload");
    assert_eq!(
        scan(&image, 0, ".foo.sozip.idx").unwrap(),
        Some(b"payload".to_vec())
    );
}

#[test]
fn other_names_are_not_the_index() {
    let image = local_header(0, b".foo.sozip.idx", b"", b"payload");
    assert_eq!(scan(&image, 0, ".bar.sozip.idx").unwrap(), None);
    assert_eq!(scan(&image, 0, ".foo.sozip.id").unwrap(), None);
}

#[test]
fn compressed_files_are_not_the_index() {
    let image = local_header(8, b".foo.sozip.idx", b"", b"payload");
    assert_eq!(scan(&image, 0, ".foo.sozip.idx").unwrap(), None);
    let image = local_header(8, b".foo.sozip.idx", b"xy", b"payload");
    assert_eq!(scan(&image, 0, ".foo.sozip.idx").unwrap(), None);
}

#[test]
fn other_signatures_are_not_a_header() {
    let mut image = local_header(0, b".foo.sozip.idx", b"", b"payload");
    image[3] = 0x05;
    assert_eq!(scan(&image, 0, ".foo.sozip.idx").unwrap(), None);
}

#[test]
fn nothing_stands_past_the_end() {
    let image = local_header(0, b".foo.sozip.idx", b"", b"payload");
    let len = image.len() as u64;
    assert_eq!(scan(&image, len, ".foo.sozip.idx").unwrap(), None);
    assert_eq!(scan(&image, len - 3, ".foo.sozip.idx").unwrap(), None);
    assert_eq!(scan(&image, u64::MAX, ".foo.sozip.idx").unwrap(), None);
    assert_eq!(scan(b"", 0, ".foo.sozip.idx").unwrap(), None);
}

#[test]
fn files_that_are_cut_off_are_io_errors() {
    let image = local_header(0, b".foo.sozip.idx", b"xy", b"payload");
    for len in 4..image.len() {
        match scan(&image[..len], 0, ".foo.sozip.idx") {
            Err(SozipError::Io(error)) => {
                assert_eq!(error.kind(), std::io::ErrorKind::UnexpectedEof)
            }
            _ => panic!("cut off after {} bytes", len),
        }
    }
}

#[test]
fn empty_payload_is_a_payload() {
    let mut image = local_header(0, b".foo.sozip.idx", b"xy", b"");
    assert_eq!(scan(&image, 0, ".foo.sozip.idx").unwrap(), Some(vec![]));
    image.pop();
    image.pop();
    assert_eq!(scan(&image, 0, ".foo.sozip.idx").unwrap(), Some(vec![]));
}

#[test]
fn names_are_decoded() {
    let image = local_header(0, ".ü.sozip.idx".as_bytes(), b"", b"p");
    assert_eq!(
        scan(&image, 0, ".ü.sozip.idx").unwrap(),
        Some(b"p".to_vec())
    );
    let image = local_header(0, b".\xff.sozip.idx", b"", b"p");
    assert_eq!(
        scan(&image, 0, ".\u{fffd}.sozip.idx").unwrap(),
        Some(b"p".to_vec())
    );
}

#[test]
fn scan_asks_step_by_step() {
    let image = local_header(0, b"n", b"xy", b"abc");
    let mut scan = OrphanScan::new("n".to_string());
    assert_eq!(scan.request(), ScanRequest::Read(4));
    scan.supply(image[..4].to_vec());
    assert_eq!(scan.request(), ScanRequest::Read(26));
    scan.supply(image[4..30].to_vec());
    assert_eq!(scan.request(), ScanRequest::Read(1));
    scan.supply(image[30..31].to_vec());
    assert_eq!(scan.request(), ScanRequest::Skip(2));
    scan.skipped();
    assert_eq!(scan.request(), ScanRequest::Read(3));
    scan.supply(image[33..].to_vec());
    assert_eq!(scan.request(), ScanRequest::Done);
    assert_eq!(scan.finish(), Some(b"abc".to_vec()));
}

#[test]
fn failures_end_a_scan() {
    let cause = || std::io::Error::from(std::io::ErrorKind::PermissionDenied);
    let scan = OrphanScan::new("n".to_string());
    assert!(matches!(scan.failed(cause()), Ok(None)));
    let mut scan = OrphanScan::new("n".to_string());
    scan.supply(vec![0x50, 0x4b, 0x03, 0x04]);
    match scan.failed(cause()) {
        Err(SozipError::Io(error)) => {
            assert_eq!(error.kind(), std::io::ErrorKind::PermissionDenied)
        }
        _ => panic!("the header could not be read"),
    }
}
