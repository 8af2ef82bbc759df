//! Laws of the error type.

use vstd::prelude::*;

use crate::error::{ErrorModel, SozipError};

verus! {

/// The view of an error tells its variant and what it carries, but for the errors of the
/// reader and of the ZIP parser, of which only the presence is told.
pub proof fn law_error_view(
    io: std::io::Error,
    zip: zip::result::ZipError,
    text: String,
    method: u16,
    a: u64,
    b: u64,
)
    ensures
        SozipError::Io(io)@ == ErrorModel::Io,
        SozipError::Zip(zip)@ == ErrorModel::Zip,
        (SozipError::InvalidIndex { reason: text })@ == (ErrorModel::InvalidIndex { reason: text@ }),
        (SozipError::NoIndex { name: text })@ == (ErrorModel::NoIndex { name: text@ }),
        (SozipError::EntryNotFound { name: text })@ == (ErrorModel::EntryNotFound { name: text@ }),
        (SozipError::NotDeflate { name: text, method })@ == (ErrorModel::NotDeflate {
            name: text@,
            method,
        }),
        (SozipError::SeekOutOfRange { offset: a, size: b })@ == (ErrorModel::SeekOutOfRange {
            offset: a,
            size: b,
        }),
        SozipError::Inflate(text)@ == (ErrorModel::Inflate { reason: text@ }),
        (SozipError::SizeMismatch { index_size: a, entry_size: b })@ == (ErrorModel::SizeMismatch {
            index_size: a,
            entry_size: b,
        }),
{
}

} // verus!
