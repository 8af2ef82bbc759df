//! Reading from an archive that is held in memory.

use vstd::prelude::*;
use vstd::slice::{slice_subrange, slice_to_vec};

verus! {

/// The `len` bytes at `at` of an archive, or `None` if it ends before. Reading no
/// bytes succeeds anywhere.
pub open spec fn bytes_at(image: Seq<u8>, at: int, len: int) -> Option<Seq<u8>> {
    if len == 0 {
        Some(Seq::empty())
    } else if at + len <= image.len() {
        Some(image.subrange(at, at + len))
    } else {
        None
    }
}

/// Reads the `len` bytes at `at`.
pub(crate) fn read_at(image: &[u8], at: u128, len: u64) -> (bytes: Option<Vec<u8>>)
    ensures
        bytes_at(image@, at as int, len as int) == (match bytes {
            Some(bytes) => Some(bytes@),
            None => None::<Seq<u8>>,
        }),
{
    if len == 0 {
        return Some(Vec::new());
    }
    let size: u128 = image.len() as u128;
    if at > size || len as u128 > size - at {
        return None;
    }
    let from: usize = at as usize;
    let to: usize = (at + len as u128) as usize;
    Some(slice_to_vec(slice_subrange(image, from, to)))
}

} // verus!
