//! Laws of index files that the central directory does not list.

use vstd::bytes::*;
use vstd::prelude::*;
use vstd::utf8::*;

use crate::error::{ErrorModel, SozipError};
use crate::orphan;
use crate::orphan::{LocalHeader, ScanRequest, ScanStage, StageModel};

verus! {

/// A file name in UTF-8 is read as the text that it encodes; other bytes are repaired.
pub proof fn law_file_name(name: Seq<char>, bytes: Seq<u8>)
    ensures
        orphan::file_name(encode_utf8(name)) == name,
        valid_utf8(bytes) ==> encode_utf8(orphan::file_name(bytes)) == bytes,
        !valid_utf8(bytes) ==> orphan::file_name(bytes) == orphan::utf8_repaired(bytes),
{
    encode_utf8_valid_utf8(name);
    encode_utf8_decode_utf8(name);
    if valid_utf8(bytes) {
        decode_utf8_encode_utf8(bytes);
    }
}

/// What stands at a place of an archive, byte by byte. Without the signature `50 4b 03 04`
/// there is no file. Behind it 26 bytes follow, then the name, the extra field and the
/// payload; the compression method stands at byte 8 of all this, the length of the payload
/// at byte 18, that of the name at byte 26 and that of the extra field at byte 28. The file
/// is the index if its name is the expected one and it is stored. An archive that ends
/// inside of the header, the name or the payload is an I/O error.
pub proof fn law_orphan_layout(image: Seq<u8>, offset: int, expected: Seq<char>)
    requires
        0 <= offset,
    ensures
        ({
            let found = orphan::orphan_index(image, offset, expected);
            let none = Ok::<Option<Seq<u8>>, ErrorModel>(None);
            let cut_off = Err::<Option<Seq<u8>>, ErrorModel>(ErrorModel::Io);
            let method = spec_u16_from_le_bytes(image.subrange(offset + 8, offset + 10));
            let payload_len = spec_u32_from_le_bytes(image.subrange(offset + 18, offset + 22)) as int;
            let name_len = spec_u16_from_le_bytes(image.subrange(offset + 26, offset + 28)) as int;
            let extra_len = spec_u16_from_le_bytes(image.subrange(offset + 28, offset + 30)) as int;
            let name = orphan::file_name(image.subrange(offset + 30, offset + 30 + name_len));
            let payload_at = offset + 30 + name_len + extra_len;
            if image.len() < offset + 4 {
                found == none
            } else if image[offset] != 0x50 || image[offset + 1] != 0x4b || image[offset + 2]
                != 0x03 || image[offset + 3] != 0x04 {
                found == none
            } else if image.len() < offset + 30 {
                found == cut_off
            } else if image.len() < offset + 30 + name_len {
                found == cut_off
            } else if name != expected {
                found == none
            } else if method != 0 {
                found == none
            } else if payload_len == 0 {
                found == Ok::<Option<Seq<u8>>, ErrorModel>(Some(Seq::empty()))
            } else if image.len() < payload_at + payload_len {
                found == cut_off
            } else {
                found == Ok::<Option<Seq<u8>>, ErrorModel>(
                    Some(image.subrange(payload_at, payload_at + payload_len)),
                )
            }
        }),
{
    if image.len() >= offset + 4 {
        let signature = image.subrange(offset, offset + 4);
        if signature == orphan::header_signature() {
            assert(image[offset] == signature[0]);
            assert(image[offset + 1] == signature[1]);
            assert(image[offset + 2] == signature[2]);
            assert(image[offset + 3] == signature[3]);
        }
        if image[offset] == 0x50 && image[offset + 1] == 0x4b && image[offset + 2] == 0x03
            && image[offset + 3] == 0x04 {
            assert(signature =~= orphan::header_signature());
        }
    }
    if image.len() >= offset + 30 {
        let fixed = image.subrange(offset + 4, offset + 30);
        assert(fixed.subrange(4, 6) =~= image.subrange(offset + 8, offset + 10));
        assert(fixed.subrange(14, 18) =~= image.subrange(offset + 18, offset + 22));
        assert(fixed.subrange(22, 24) =~= image.subrange(offset + 26, offset + 28));
        assert(fixed.subrange(24, 26) =~= image.subrange(offset + 28, offset + 30));
        assert(image.subrange(offset + 30, offset + 30) =~= Seq::empty());
    }
}

/// What a search asks for: the 4 bytes of the signature, the 26 bytes behind it, the
/// name, to skip the extra field, and the payload, each as long as the header says.
pub proof fn law_scan_requests(header: LocalHeader, payload: Option<Seq<u8>>)
    ensures
        StageModel::Signature.request() == ScanRequest::Read(4),
        StageModel::Header.request() == ScanRequest::Read(26),
        StageModel::Name(header).request() == ScanRequest::Read(header.name_len as u64),
        StageModel::Extra(header).request() == ScanRequest::Skip(header.extra_len as u64),
        StageModel::Payload(header).request() == ScanRequest::Read(header.payload_len as u64),
        StageModel::Finished(payload).request() == ScanRequest::Done,
{
}

/// How a search goes on: it ends without a result at another signature, another name or
/// a compressed file, passes over the extra field if there is one, and ends with the
/// payload.
pub proof fn law_scan_goes_on(header: LocalHeader, bytes: Seq<u8>, expected: Seq<char>)
    ensures
        ({
            let none = StageModel::Finished(None);
            let behind = if header.compression == 0 {
                StageModel::Payload(header)
            } else {
                none
            };
            &&& StageModel::Signature.after_read(bytes, expected) == (if bytes == seq![
                0x50u8,
                0x4bu8,
                0x03u8,
                0x04u8,
            ] {
                StageModel::Header
            } else {
                none
            })
            &&& StageModel::Header.after_read(bytes, expected) == StageModel::Name(
                LocalHeader {
                    compression: spec_u16_from_le_bytes(bytes.subrange(4, 6)),
                    payload_len: spec_u32_from_le_bytes(bytes.subrange(14, 18)),
                    name_len: spec_u16_from_le_bytes(bytes.subrange(22, 24)),
                    extra_len: spec_u16_from_le_bytes(bytes.subrange(24, 26)),
                },
            )
            &&& StageModel::Name(header).after_read(bytes, expected) == (if orphan::file_name(bytes)
                != expected {
                none
            } else if header.extra_len > 0 {
                StageModel::Extra(header)
            } else {
                behind
            })
            &&& StageModel::Extra(header).after_skip() == behind
            &&& StageModel::Payload(header).after_read(bytes, expected) == StageModel::Finished(
                Some(bytes),
            )
        }),
{
}

/// A search that cannot read the signature finds nothing; one that cannot read on is an
/// I/O error.
pub proof fn law_scan_failure(stage: StageModel)
    ensures
        stage is Signature ==> stage.on_failure() == Ok::<Option<Seq<u8>>, ErrorModel>(None),
        !(stage is Signature) ==> stage.on_failure() == Err::<Option<Seq<u8>>, ErrorModel>(
            ErrorModel::Io,
        ),
{
}

/// The stage and the outcome of a search are what they say.
pub proof fn law_scan_views(
    header: LocalHeader,
    payload: Vec<u8>,
    error: SozipError,
)
    ensures
        ScanStage::Signature@ == StageModel::Signature,
        ScanStage::Header@ == StageModel::Header,
        ScanStage::Name(header)@ == StageModel::Name(header),
        ScanStage::Extra(header)@ == StageModel::Extra(header),
        ScanStage::Payload(header)@ == StageModel::Payload(header),
        ScanStage::Finished(None)@ == StageModel::Finished(None),
        ScanStage::Finished(Some(payload))@ == StageModel::Finished(Some(payload@)),
        orphan::payload_model(Ok(None)) == Ok::<Option<Seq<u8>>, ErrorModel>(None),
        orphan::payload_model(Ok(Some(payload))) == Ok::<Option<Seq<u8>>, ErrorModel>(
            Some(payload@),
        ),
        orphan::payload_model(Err(error)) == Err::<Option<Seq<u8>>, ErrorModel>(error@),
{
}

} // verus!
