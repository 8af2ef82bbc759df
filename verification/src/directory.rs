//! The central directory of an archive that is held in memory, as the `zip` crate
//! reads it.

use std::io::{Cursor, Read};
use vstd::prelude::*;
use zip::result::ZipError;
use zip::ZipArchive;

verus! {

/// `std::io::Cursor`, carried through unopened.
#[verifier::external_type_specification]
#[verifier::external_body]
#[verifier::reject_recursive_types(T)]
pub struct ExCursor<T>(Cursor<T>);

/// `zip::ZipArchive`, carried through unopened.
#[verifier::external_type_specification]
#[verifier::external_body]
#[verifier::reject_recursive_types(R)]
pub struct ExZipArchive<R>(ZipArchive<R>);

/// The bytes that an open `ZipArchive` reads from.
pub uninterp spec fn zip_image(archive: ZipArchive<Cursor<Vec<u8>>>) -> Seq<u8>;

/// Whether `ZipArchive::new` accepts an archive.
pub uninterp spec fn zip_opens(image: Seq<u8>) -> bool;

/// The number of files that `ZipArchive::len` gives for an archive.
pub uninterp spec fn zip_count(image: Seq<u8>) -> usize;

/// What `ZipArchive::by_index_raw` tells of a file: its name, where its data starts,
/// its uncompressed and its compressed size; `None` if it reports an error.
pub uninterp spec fn zip_listed(image: Seq<u8>, position: usize) -> Option<
    (Seq<char>, u64, u64, u64),
>;

/// The bytes that reading a file of `ZipArchive::by_index` to its end gives: `None` if
/// `by_index` reports an error, `Some(None)` if the reading does.
pub uninterp spec fn zip_contents(image: Seq<u8>, position: usize) -> Option<Option<Seq<u8>>>;

/// Opens an archive.
///
/// Calls `zip::ZipArchive::new` on a cursor over the bytes. Whether it succeeds
/// depends on the bytes alone, and the open archive reads from them.
#[verifier::external_body]
pub(crate) fn open_zip(image: Vec<u8>) -> (archive: Result<
    ZipArchive<Cursor<Vec<u8>>>,
    ZipError,
>)
    ensures
        archive is Ok <==> zip_opens(image@),
        archive matches Ok(archive) ==> zip_image(archive) == image@,
{
    ZipArchive::new(Cursor::new(image))
}

/// Counts the files of an archive.
///
/// Calls `zip::ZipArchive::len`. The count depends on the bytes of the archive alone.
#[verifier::external_body]
pub(crate) fn count_files(archive: &ZipArchive<Cursor<Vec<u8>>>) -> (count: usize)
    ensures
        count == zip_count(zip_image(*archive)),
{
    archive.len()
}

/// Looks a file up.
///
/// Calls `zip::ZipArchive::by_index_raw` and takes the name, the start of the data,
/// the size and the compressed size from the `ZipFile`. They depend on the bytes of
/// the archive and on the position alone; the bytes stay as they are.
#[verifier::external_body]
pub(crate) fn list_file(archive: &mut ZipArchive<Cursor<Vec<u8>>>, position: usize) -> (file:
    Result<(String, u64, u64, u64), ZipError>)
    ensures
        zip_image(*final(archive)) == zip_image(*old(archive)),
        zip_listed(zip_image(*old(archive)), position) == (match file {
            Ok((name, data_start, size, compressed)) => Some(
                (name@, data_start, size, compressed),
            ),
            Err(_) => None,
        }),
{
    let file = archive.by_index_raw(position)?;
    Ok((file.name().to_string(), file.data_start(), file.size(), file.compressed_size()))
}

/// Reads the contents of a file.
///
/// Calls `zip::ZipArchive::by_index` and reads the `ZipFile` to its end. The contents,
/// or which of the two fails, depend on the bytes of the archive and on the position
/// alone; the bytes stay as they are.
#[verifier::external_body]
pub(crate) fn read_file(archive: &mut ZipArchive<Cursor<Vec<u8>>>, position: usize) -> (contents:
    Result<Result<Vec<u8>, std::io::Error>, ZipError>)
    ensures
        zip_image(*final(archive)) == zip_image(*old(archive)),
        zip_contents(zip_image(*old(archive)), position) == (match contents {
            Ok(Ok(bytes)) => Some(Some(bytes@)),
            Ok(Err(_)) => Some(None),
            Err(_) => None,
        }),
{
    let mut bytes: Vec<u8> = Vec::new();
    match archive.by_index(position)?.read_to_end(&mut bytes) {
        Ok(_) => Ok(Ok(bytes)),
        Err(error) => Ok(Err(error)),
    }
}

/// Gives back the bytes of an archive.
///
/// Calls `zip::ZipArchive::into_inner`, which hands out the cursor that the archive
/// was opened with, and takes the bytes from it.
#[verifier::external_body]
pub(crate) fn close_zip(archive: ZipArchive<Cursor<Vec<u8>>>) -> (image: Vec<u8>)
    ensures
        image@ == zip_image(archive),
{
    archive.into_inner().into_inner()
}

} // verus!
