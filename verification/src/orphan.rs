//! Index files that the central directory does not list.
//!
//! The index of an entry is written right after the compressed data of that entry,
//! behind a local file header of its own that the central directory leaves out. An
//! [`OrphanScan`] looks for it: it says which bytes it needs next and decides by
//! what they are.

use vstd::bytes::*;
use vstd::prelude::*;
use vstd::slice::slice_subrange;
use vstd::utf8::*;

use crate::error;
use crate::error::{ErrorModel, SozipError};
use crate::image;
use crate::index;
use crate::text;

verus! {

/// The text that `String::from_utf8_lossy` makes of bytes that are not valid UTF-8.
pub uninterp spec fn utf8_repaired(bytes: Seq<u8>) -> Seq<char>;

/// Decodes a file name.
///
/// Calls `String::from_utf8_lossy`. Valid UTF-8 gives the text that it encodes. Other
/// bytes give a text that depends on them alone; it is named, not described.
#[verifier::external_body]
fn decode_lossy(bytes: &[u8]) -> (decoded: String)
    ensures
        valid_utf8(bytes@) ==> decoded@ == decode_utf8(bytes@),
        !valid_utf8(bytes@) ==> decoded@ == utf8_repaired(bytes@),
{
    String::from_utf8_lossy(bytes).into_owned()
}

/// The file name that a local file header holds in `bytes`.
pub open spec fn file_name(bytes: Seq<u8>) -> Seq<char> {
    if valid_utf8(bytes) {
        decode_utf8(bytes)
    } else {
        utf8_repaired(bytes)
    }
}

/// The signature that every local file header starts with.
pub open spec fn header_signature() -> Seq<u8> {
    seq![0x50u8, 0x4bu8, 0x03u8, 0x04u8]
}

/// What a local file header says of the file behind it.
#[derive(Debug, Clone, Copy, PartialEq, Eq, Structural)]
pub struct LocalHeader {
    /// Compression method; 0 is stored.
    pub compression: u16,
    /// Length of the data.
    pub payload_len: u32,
    /// Length of the file name.
    pub name_len: u16,
    /// Length of the extra field.
    pub extra_len: u16,
}

/// The little-endian `u16` at byte `at`.
pub open spec fn u16_at(data: Seq<u8>, at: int) -> u16 {
    spec_u16_from_le_bytes(data.subrange(at, at + 2))
}

/// The header that follows the signature, in the 26 bytes `fixed`.
pub open spec fn local_header(fixed: Seq<u8>) -> LocalHeader {
    LocalHeader {
        compression: u16_at(fixed, 4),
        payload_len: index::u32_at(fixed, 14),
        name_len: u16_at(fixed, 22),
        extra_len: u16_at(fixed, 24),
    }
}

/// The index file named `expected` whose local file header stands at `offset` of an
/// archive: its payload, nothing if another file or none stands there or the file is
/// compressed, or an I/O error if the archive ends inside of it.
pub open spec fn orphan_index(image: Seq<u8>, offset: int, expected: Seq<char>) -> Result<
    Option<Seq<u8>>,
    ErrorModel,
> {
    if image::bytes_at(image, offset, 4) != Some(header_signature()) {
        Ok(None)
    } else {
        match image::bytes_at(image, offset + 4, 26) {
            None => Err(ErrorModel::Io),
            Some(fixed) => {
                let header = local_header(fixed);
                match image::bytes_at(image, offset + 30, header.name_len as int) {
                    None => Err(ErrorModel::Io),
                    Some(name) => if file_name(name) != expected || header.compression != 0 {
                        Ok(None)
                    } else {
                        match image::bytes_at(
                            image,
                            offset + 30 + header.name_len + header.extra_len,
                            header.payload_len as int,
                        ) {
                            None => Err(ErrorModel::Io),
                            Some(payload) => Ok(Some(payload)),
                        }
                    },
                }
            },
        }
    }
}

/// How far a scan has come.
pub enum ScanStage {
    /// At the signature.
    Signature,
    /// At the fixed part of the header.
    Header,
    /// At the file name.
    Name(LocalHeader),
    /// At the extra field of a file with the right name.
    Extra(LocalHeader),
    /// At the payload of a stored file with the right name.
    Payload(LocalHeader),
    /// Finished, with the payload if there is one.
    Finished(Option<Vec<u8>>),
}

/// [`ScanStage`] as a mathematical value.
pub enum StageModel {
    Signature,
    Header,
    Name(LocalHeader),
    Extra(LocalHeader),
    Payload(LocalHeader),
    Finished(Option<Seq<u8>>),
}

impl View for ScanStage {
    type V = StageModel;

    open spec fn view(&self) -> StageModel {
        match *self {
            ScanStage::Signature => StageModel::Signature,
            ScanStage::Header => StageModel::Header,
            ScanStage::Name(header) => StageModel::Name(header),
            ScanStage::Extra(header) => StageModel::Extra(header),
            ScanStage::Payload(header) => StageModel::Payload(header),
            ScanStage::Finished(Some(payload)) => StageModel::Finished(Some(payload@)),
            ScanStage::Finished(None) => StageModel::Finished(None),
        }
    }
}

/// What a scan needs next.
#[derive(Debug, Clone, Copy, PartialEq, Eq, Structural)]
pub enum ScanRequest {
    /// The next bytes of the archive, as many as said.
    Read(u64),
    /// To move on by as many bytes as said.
    Skip(u64),
    /// Nothing.
    Done,
}

impl StageModel {
    /// What the stage needs.
    pub open spec fn request(self) -> ScanRequest {
        match self {
            StageModel::Signature => ScanRequest::Read(4),
            StageModel::Header => ScanRequest::Read(26),
            StageModel::Name(header) => ScanRequest::Read(header.name_len as u64),
            StageModel::Extra(header) => ScanRequest::Skip(header.extra_len as u64),
            StageModel::Payload(header) => ScanRequest::Read(header.payload_len as u64),
            StageModel::Finished(_) => ScanRequest::Done,
        }
    }

    /// The stage behind the extra field: only stored files are indexes.
    pub open spec fn past_extra(header: LocalHeader) -> StageModel {
        if header.compression != 0 {
            StageModel::Finished(None)
        } else {
            StageModel::Payload(header)
        }
    }

    /// The stage that follows when `bytes` were read.
    pub open spec fn after_read(self, bytes: Seq<u8>, expected: Seq<char>) -> StageModel {
        match self {
            StageModel::Signature => if bytes == header_signature() {
                StageModel::Header
            } else {
                StageModel::Finished(None)
            },
            StageModel::Header => StageModel::Name(local_header(bytes)),
            StageModel::Name(header) => if file_name(bytes) != expected {
                StageModel::Finished(None)
            } else if header.extra_len > 0 {
                StageModel::Extra(header)
            } else {
                StageModel::past_extra(header)
            },
            StageModel::Payload(_) => StageModel::Finished(Some(bytes)),
            _ => self,
        }
    }

    /// The stage that follows when the extra field was skipped.
    pub open spec fn after_skip(self) -> StageModel {
        match self {
            StageModel::Extra(header) => StageModel::past_extra(header),
            _ => self,
        }
    }

    /// The result of the scan when the archive cannot be read: a missing signature
    /// is no header at all, anything else is an error.
    pub open spec fn on_failure(self) -> Result<Option<Seq<u8>>, ErrorModel> {
        match self {
            StageModel::Signature => Ok(None),
            _ => Err(ErrorModel::Io),
        }
    }

    /// The number of steps that may still follow.
    pub open spec fn steps_left(self) -> nat {
        match self {
            StageModel::Signature => 5,
            StageModel::Header => 4,
            StageModel::Name(_) => 3,
            StageModel::Extra(_) => 2,
            StageModel::Payload(_) => 1,
            StageModel::Finished(_) => 0,
        }
    }
}

/// A search for the index file of an entry among the bytes that follow the entry.
pub struct OrphanScan {
    /// The name that the file must have.
    expected: String,
    /// How far the search has come.
    stage: ScanStage,
}

impl OrphanScan {
    /// The name that is looked for.
    pub closed spec fn name(self) -> Seq<char> {
        self.expected@
    }

    /// How far the search has come.
    pub closed spec fn progress(self) -> StageModel {
        self.stage@
    }

    /// Starts a search for a file of the given name.
    pub fn new(expected: String) -> (scan: Self)
        ensures
            scan.name() == expected@,
            scan.progress() == StageModel::Signature,
    {
        OrphanScan { expected, stage: ScanStage::Signature }
    }

    /// Says what is needed next.
    pub fn request(&self) -> (request: ScanRequest)
        ensures
            request == self.progress().request(),
    {
        match &self.stage {
            ScanStage::Signature => ScanRequest::Read(4),
            ScanStage::Header => ScanRequest::Read(26),
            ScanStage::Name(header) => ScanRequest::Read(header.name_len as u64),
            ScanStage::Extra(header) => ScanRequest::Skip(header.extra_len as u64),
            ScanStage::Payload(header) => ScanRequest::Read(header.payload_len as u64),
            ScanStage::Finished(_) => ScanRequest::Done,
        }
    }

    /// Takes the bytes that were asked for.
    pub fn supply(&mut self, bytes: Vec<u8>)
        requires
            old(self).progress().request() matches ScanRequest::Read(len) && len == bytes@.len(),
        ensures
            final(self).name() == old(self).name(),
            final(self).progress() == old(self).progress().after_read(bytes@, old(self).name()),
    {
        let next = match &self.stage {
            ScanStage::Signature => {
                if bytes[0] == 0x50 && bytes[1] == 0x4b && bytes[2] == 0x03 && bytes[3] == 0x04 {
                    assert(bytes@ =~= header_signature());
                    ScanStage::Header
                } else {
                    ScanStage::Finished(None)
                }
            },
            ScanStage::Header => {
                let fixed = bytes.as_slice();
                ScanStage::Name(
                    LocalHeader {
                        compression: u16_from_le_bytes(slice_subrange(fixed, 4, 6)),
                        payload_len: u32_from_le_bytes(slice_subrange(fixed, 14, 18)),
                        name_len: u16_from_le_bytes(slice_subrange(fixed, 22, 24)),
                        extra_len: u16_from_le_bytes(slice_subrange(fixed, 24, 26)),
                    },
                )
            },
            ScanStage::Name(header) => {
                let name = decode_lossy(bytes.as_slice());
                if !text::same_text(name.as_str(), self.expected.as_str()) {
                    ScanStage::Finished(None)
                } else if header.extra_len > 0 {
                    ScanStage::Extra(*header)
                } else if header.compression != 0 {
                    ScanStage::Finished(None)
                } else {
                    ScanStage::Payload(*header)
                }
            },
            ScanStage::Payload(_) => ScanStage::Finished(Some(bytes)),
            _ => {
                return ;
            },
        };
        self.stage = next;
    }

    /// Notes that the extra field was skipped as asked for.
    pub fn skipped(&mut self)
        ensures
            final(self).name() == old(self).name(),
            final(self).progress() == old(self).progress().after_skip(),
    {
        let next = match &self.stage {
            ScanStage::Extra(header) => if header.compression != 0 {
                ScanStage::Finished(None)
            } else {
                ScanStage::Payload(*header)
            },
            _ => {
                return ;
            },
        };
        self.stage = next;
    }

    /// Ends the search because the archive could not be read, for the given cause.
    pub fn failed(self, cause: std::io::Error) -> (result: Result<Option<Vec<u8>>, SozipError>)
        ensures
            self.progress().on_failure() == payload_model(result),
            result matches Err(error) ==> error == SozipError::Io(cause),
    {
        match self.stage {
            ScanStage::Signature => Ok(None),
            _ => Err(SozipError::Io(cause)),
        }
    }

    /// The payload that was found.
    pub fn finish(self) -> (payload: Option<Vec<u8>>)
        requires
            self.progress() is Finished,
        ensures
            self.progress() == StageModel::Finished(
                (match payload {
                    Some(payload) => Some(payload@),
                    None => None,
                }),
            ),
    {
        match self.stage {
            ScanStage::Finished(payload) => payload,
            _ => None,
        }
    }
}

/// The outcome of a search, as a mathematical value.
pub open spec fn payload_model(result: Result<Option<Vec<u8>>, SozipError>) -> Result<
    Option<Seq<u8>>,
    ErrorModel,
> {
    match result {
        Ok(Some(payload)) => Ok(Some(payload@)),
        Ok(None) => Ok(None),
        Err(error) => Err(error@),
    }
}

/// What a search that has come to `stage` and to byte `pos` of an archive finds.
pub open spec fn scan_outcome(
    stage: StageModel,
    image: Seq<u8>,
    pos: int,
    expected: Seq<char>,
) -> Result<Option<Seq<u8>>, ErrorModel>
    decreases stage.steps_left(),
{
    match stage.request() {
        ScanRequest::Done => Ok(stage->Finished_0),
        ScanRequest::Skip(len) => scan_outcome(stage.after_skip(), image, pos + len, expected),
        ScanRequest::Read(len) => match image::bytes_at(image, pos, len as int) {
            Some(bytes) => scan_outcome(
                stage.after_read(bytes, expected),
                image,
                pos + len,
                expected,
            ),
            None => stage.on_failure(),
        },
    }
}

/// A search that is given the bytes of an archive from `offset` on finds the index
/// file there, and nothing else.
pub proof fn law_scan_finds_orphan(image: Seq<u8>, offset: int, expected: Seq<char>)
    ensures
        scan_outcome(StageModel::Signature, image, offset, expected) == orphan_index(
            image,
            offset,
            expected,
        ),
{
    reveal_with_fuel(scan_outcome, 6);
}

/// An index file that is written behind an entry is found there with its payload, if
/// it is stored, has the expected name and its header tells the lengths of its parts.
pub proof fn law_written_orphan_is_found(
    before: Seq<u8>,
    fixed: Seq<u8>,
    expected: Seq<char>,
    extra: Seq<u8>,
    payload: Seq<u8>,
    after: Seq<u8>,
)
    requires
        fixed.len() == 26,
        local_header(fixed).compression == 0,
        local_header(fixed).name_len == encode_utf8(expected).len(),
        local_header(fixed).extra_len == extra.len(),
        local_header(fixed).payload_len == payload.len(),
    ensures
        orphan_index(
            before + header_signature() + fixed + encode_utf8(expected) + extra + payload + after,
            before.len() as int,
            expected,
        ) == Ok::<Option<Seq<u8>>, ErrorModel>(Some(payload)),
{
    let name = encode_utf8(expected);
    let image = before + header_signature() + fixed + name + extra + payload + after;
    let offset = before.len() as int;
    encode_utf8_valid_utf8(expected);
    encode_utf8_decode_utf8(expected);
    assert(image.subrange(offset, offset + 4) =~= header_signature());
    assert(image.subrange(offset + 4, offset + 30) =~= fixed);
    assert(image::bytes_at(image, offset + 30, name.len() as int)->0 =~= name);
    let start = offset + 30 + name.len() + extra.len();
    assert(image::bytes_at(image, start, payload.len() as int)->0 =~= payload);
}

/// Looks for the index file named `expected_name` at `offset` of an archive.
pub fn scan_orphan_index(image: &[u8], offset: u64, expected_name: String) -> (result: Result<
    Option<Vec<u8>>,
    SozipError,
>)
    ensures
        payload_model(result) == orphan_index(image@, offset as int, expected_name@),
{
    let mut scan = OrphanScan::new(expected_name);
    let mut pos: u128 = offset as u128;
    proof {
        law_scan_finds_orphan(image@, offset as int, expected_name@);
    }
    loop
        invariant
            scan.name() == expected_name@,
            pos <= u64::MAX + (5 - scan.progress().steps_left()) * u32::MAX,
            scan_outcome(scan.progress(), image@, pos as int, expected_name@) == orphan_index(
                image@,
                offset as int,
                expected_name@,
            ),
        decreases scan.progress().steps_left(),
    {
        match scan.request() {
            ScanRequest::Done => {
                return Ok(scan.finish());
            },
            ScanRequest::Skip(len) => {
                scan.skipped();
                pos = pos + len as u128;
            },
            ScanRequest::Read(len) => {
                match image::read_at(image, pos, len) {
                    Some(bytes) => {
                        scan.supply(bytes);
                        pos = pos + len as u128;
                    },
                    None => {
                        return scan.failed(error::unexpected_eof());
                    },
                }
            },
        }
    }
}

} // verus!
