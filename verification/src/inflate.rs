//! Decompression of one chunk.

use flate2::read::DeflateDecoder;
use std::io::Read;
use vstd::prelude::*;

verus! {

/// What `flate2::read::DeflateDecoder` makes of a sequence of bytes: the bytes that
/// it decompresses to, or the text of the error that it reports.
pub uninterp spec fn inflated(compressed: Seq<u8>) -> Result<Seq<u8>, Seq<char>>;

/// Decompresses raw Deflate data.
///
/// Reads a `flate2::read::DeflateDecoder` over `compressed` to its end. The bytes
/// that it yields, or the text of its error, depend on `compressed` alone; they are
/// named, not described.
#[verifier::external_body]
pub(crate) fn inflate(compressed: &[u8]) -> (result: Result<Vec<u8>, String>)
    ensures
        inflated(compressed@) == (match result {
            Ok(bytes) => Ok::<Seq<u8>, Seq<char>>(bytes@),
            Err(reason) => Err::<Seq<u8>, Seq<char>>(reason@),
        }),
{
    let mut bytes: Vec<u8> = Vec::new();
    match DeflateDecoder::new(compressed).read_to_end(&mut bytes) {
        Ok(_) => Ok(bytes),
        Err(error) => Err(error.to_string()),
    }
}

} // verus!
