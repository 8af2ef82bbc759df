//! The error type of the library.

use vstd::prelude::*;

verus! {

/// `std::io::Error`, carried through unopened.
#[verifier::external_type_specification]
#[verifier::external_body]
pub struct ExIoError(std::io::Error);

/// `zip::result::ZipError`, carried through unopened.
#[verifier::external_type_specification]
#[verifier::external_body]
pub struct ExZipError(zip::result::ZipError);

/// Everything that can go wrong while opening an archive or reading an entry.
#[derive(Debug)]
pub enum SozipError {
    /// The archive could not be read.
    Io(std::io::Error),
    /// The ZIP structure could not be parsed.
    Zip(zip::result::ZipError),
    /// The chunk index is malformed.
    InvalidIndex { reason: String },
    /// The entry has no chunk index.
    NoIndex { name: String },
    /// The archive has no such entry.
    EntryNotFound { name: String },
    /// The entry is not Deflate-compressed.
    NotDeflate { name: String, method: u16 },
    /// An uncompressed offset lies at or beyond the end of the entry.
    SeekOutOfRange { offset: u64, size: u64 },
    /// A chunk could not be decompressed to its expected length.
    Inflate(String),
    /// The chunk index and the central directory disagree on a size.
    SizeMismatch { index_size: u64, entry_size: u64 },
}

/// What a [`SozipError`] says, as a mathematical value. The errors of the reader and
/// of the ZIP parser are opaque: only their presence is told.
pub enum ErrorModel {
    Io,
    Zip,
    InvalidIndex { reason: Seq<char> },
    NoIndex { name: Seq<char> },
    EntryNotFound { name: Seq<char> },
    NotDeflate { name: Seq<char>, method: u16 },
    SeekOutOfRange { offset: u64, size: u64 },
    Inflate { reason: Seq<char> },
    SizeMismatch { index_size: u64, entry_size: u64 },
}

impl View for SozipError {
    type V = ErrorModel;

    open spec fn view(&self) -> ErrorModel {
        match *self {
            SozipError::Io(_) => ErrorModel::Io,
            SozipError::Zip(_) => ErrorModel::Zip,
            SozipError::InvalidIndex { reason } => ErrorModel::InvalidIndex { reason: reason@ },
            SozipError::NoIndex { name } => ErrorModel::NoIndex { name: name@ },
            SozipError::EntryNotFound { name } => ErrorModel::EntryNotFound { name: name@ },
            SozipError::NotDeflate { name, method } => ErrorModel::NotDeflate {
                name: name@,
                method,
            },
            SozipError::SeekOutOfRange { offset, size } => ErrorModel::SeekOutOfRange {
                offset,
                size,
            },
            SozipError::Inflate(reason) => ErrorModel::Inflate { reason: reason@ },
            SozipError::SizeMismatch { index_size, entry_size } => ErrorModel::SizeMismatch {
                index_size,
                entry_size,
            },
        }
    }
}

/// Makes the error of a read that meets the end of the data too early.
///
/// Calls `std::io::Error::from` on `std::io::ErrorKind::UnexpectedEof`. Nothing is
/// claimed of the opaque error that comes back.
#[verifier::external_body]
pub(crate) fn unexpected_eof() -> (error: std::io::Error) {
    std::io::Error::from(std::io::ErrorKind::UnexpectedEof)
}

} // verus!
