//! Laws of discovery.

use vstd::prelude::*;
use vstd::utf8::*;

use crate::archive;
use crate::archive::{EntryMeta, EntryModel, MetaModel, SozipEntry, ValidationResult};
use crate::error::ErrorModel;
use crate::index;
use crate::index::IndexModel;
use crate::index_laws;
use crate::open;
use crate::orphan;
use crate::text;

verus! {

/// The files of an archive are the entries of its directory that are not index files:
/// all of them, in the order of the directory, and no others.
pub proof fn law_files_are_all_but_indexes(listing: Seq<MetaModel>)
    ensures
        archive::data_entries(listing) == listing.filter(
            |entry: MetaModel| !index::is_index_name(entry.name),
        ),
        forall|i: int|
            0 <= i < archive::data_entries(listing).len() ==> !index::is_index_name(
                #[trigger] archive::names_of(archive::data_entries(listing))[i],
            ),
        forall|i: int|
            0 <= i < listing.len() && !index::is_index_name(listing[i].name)
                ==> archive::data_entries(listing).contains(#[trigger] listing[i]),
    decreases listing.len(),
{
    reveal(Seq::filter);
    if listing.len() > 0 {
        let front = listing.drop_last();
        let all = archive::data_entries(listing);
        law_files_are_all_but_indexes(front);
        assert forall|i: int| 0 <= i < all.len() implies !index::is_index_name(
            #[trigger] archive::names_of(all)[i],
        ) by {
            if i < archive::data_entries(front).len() {
                assert(archive::names_of(archive::data_entries(front))[i] == archive::names_of(
                    all,
                )[i]);
            }
        }
        assert forall|i: int|
            0 <= i < listing.len() && !index::is_index_name(
                listing[i].name,
            ) implies all.contains(#[trigger] listing[i]) by {
            if i < front.len() {
                assert(front[i] == listing[i]);
                let j = choose|j: int|
                    0 <= j < archive::data_entries(front).len() && archive::data_entries(front)[j]
                        == listing[i];
                assert(all[j] == listing[i]);
            } else {
                assert(all[all.len() - 1] == listing[i]);
            }
        }
    }
}

/// `entry` is what the directory entry `meta` and its index file in the archive `image`
/// make together.
pub open spec fn made_from(
    entry: EntryModel,
    meta: MetaModel,
    image: Seq<u8>,
    payloads: Map<Seq<char>, Seq<u8>>,
) -> bool {
    &&& entry.name == meta.name
    &&& entry.data_start == meta.data_start
    &&& entry.uncompressed_size == meta.uncompressed_size
    &&& entry.compressed_size == meta.compressed_size
    &&& entry.index.well_formed()
    &&& entry.index.uncompressed_size == meta.uncompressed_size
    &&& entry.index.compressed_size == meta.compressed_size
    &&& open::payload_of(image, meta, payloads) matches Ok(Some(data)) && index::parse_index(data)
        == Ok::<IndexModel, Seq<char>>(entry.index)
}

/// Whatever is found was made from an entry of the directory and its own index file,
/// and the two agree on both sizes.
pub proof fn law_found_entries_are_consistent(
    image: Seq<u8>,
    data: Seq<MetaModel>,
    payloads: Map<Seq<char>, Seq<u8>>,
)
    requires
        open::discovered(image, data, payloads) is Ok,
    ensures
        forall|name: Seq<char>| #[trigger]
            open::discovered(image, data, payloads)->Ok_0.contains_key(name) ==> {
                &&& open::discovered(image, data, payloads)->Ok_0[name].name == name
                &&& exists|i: int|
                    0 <= i < data.len() && made_from(
                        open::discovered(image, data, payloads)->Ok_0[name],
                        #[trigger] data[i],
                        image,
                        payloads,
                    )
            },
    decreases data.len(),
{
    if data.len() > 0 {
        let front = data.drop_last();
        let found = open::discovered(image, data, payloads)->Ok_0;
        let before = open::discovered(image, front, payloads)->Ok_0;
        law_found_entries_are_consistent(image, front, payloads);
        assert forall|name: Seq<char>| #[trigger] found.contains_key(name) implies {
            &&& found[name].name == name
            &&& exists|i: int|
                0 <= i < data.len() && made_from(
                    found[name],
                    #[trigger] data[i],
                    image,
                    payloads,
                )
        } by {
            let payload = open::payload_of(image, data.last(), payloads)->Ok_0;
            if name == data.last().name && archive::resolved(data.last(), payload) matches Ok(
                Some(_),
            ) {
                index_laws::law_parsed_bytes(payload->0);
                assert(made_from(found[name], data[data.len() - 1], image, payloads));
            } else {
                assert(before.contains_key(name));
                let i = choose|i: int|
                    0 <= i < front.len() && made_from(
                        before[name],
                        #[trigger] front[i],
                        image,
                        payloads,
                    );
                assert(data[i] == front[i]);
            }
        }
    }
}

/// No index is missed: an entry whose index file can be had and parsed is found.
pub proof fn law_every_index_is_found(
    image: Seq<u8>,
    data: Seq<MetaModel>,
    payloads: Map<Seq<char>, Seq<u8>>,
    i: int,
)
    requires
        open::discovered(image, data, payloads) is Ok,
        0 <= i < data.len(),
        open::payload_of(image, data[i], payloads) matches Ok(Some(payload)) && index::parse_index(
            payload,
        ) is Ok,
    ensures
        open::discovered(image, data, payloads)->Ok_0.contains_key(data[i].name),
    decreases data.len(),
{
    if i < data.len() - 1 {
        assert(data.drop_last()[i] == data[i]);
        law_every_index_is_found(image, data.drop_last(), payloads, i);
    }
}

/// An index file that is written right behind the compressed data of its entry is found
/// there: if it holds an index that agrees with the directory on both sizes, the entry
/// is SOZip-enabled with that very index.
pub proof fn law_written_index_is_found(
    before: Seq<u8>,
    fixed: Seq<u8>,
    extra: Seq<u8>,
    skipped: Seq<u8>,
    after: Seq<u8>,
    meta: MetaModel,
    index: IndexModel,
    payloads: Map<Seq<char>, Seq<u8>>,
    found: Map<Seq<char>, EntryModel>,
)
    requires
        index.well_formed(),
        index.uncompressed_size == meta.uncompressed_size,
        index.compressed_size == meta.compressed_size,
        skipped.len() <= u32::MAX,
        !payloads.contains_key(index::hidden_name(meta.name)),
        before.len() == archive::data_end(meta),
        fixed.len() == 26,
        orphan::local_header(fixed).compression == 0,
        orphan::local_header(fixed).name_len == encode_utf8(index::hidden_name(meta.name)).len(),
        orphan::local_header(fixed).extra_len == extra.len(),
        orphan::local_header(fixed).payload_len == index_laws::encoded(index, skipped).len(),
    ensures
        ({
            let image = before + orphan::header_signature() + fixed + encode_utf8(
                index::hidden_name(meta.name),
            ) + extra + index_laws::encoded(index, skipped) + after;
            let entry = EntryModel {
                name: meta.name,
                uncompressed_size: meta.uncompressed_size,
                compressed_size: meta.compressed_size,
                data_start: meta.data_start,
                index,
            };
            open::payload_of(image, meta, payloads) matches Ok(payload) && archive::recorded(
                found,
                meta,
                payload,
            ) == Ok::<Map<Seq<char>, EntryModel>, ErrorModel>(found.insert(meta.name, entry))
        }),
{
    let payload = index_laws::encoded(index, skipped);
    orphan::law_written_orphan_is_found(
        before,
        fixed,
        index::hidden_name(meta.name),
        extra,
        payload,
        after,
    );
    index_laws::law_parse_encoded(index, skipped, Seq::empty());
    assert(payload + Seq::empty() =~= payload);
}

/// An archive without index files opens like any other: no entry is SOZip-enabled, and
/// that is no error.
pub proof fn law_plain_archive(
    image: Seq<u8>,
    data: Seq<MetaModel>,
    payloads: Map<Seq<char>, Seq<u8>>,
)
    requires
        forall|i: int|
            0 <= i < data.len() ==> open::payload_of(image, #[trigger] data[i], payloads) == Ok::<
                Option<Seq<u8>>,
                ErrorModel,
            >(None),
    ensures
        open::discovered(image, data, payloads) == Ok::<Map<Seq<char>, EntryModel>, ErrorModel>(
            Map::empty(),
        ),
    decreases data.len(),
{
    if data.len() > 0 {
        let front = data.drop_last();
        assert forall|i: int| 0 <= i < front.len() implies open::payload_of(
            image,
            #[trigger] front[i],
            payloads,
        ) == Ok::<Option<Seq<u8>>, ErrorModel>(None) by {
            assert(front[i] == data[i]);
        }
        law_plain_archive(image, front, payloads);
        assert(data[data.len() - 1] == data.last());
    }
}

/// An index file that cannot be parsed leaves its entry as a plain one: it is neither
/// listed as SOZip-enabled nor an error.
pub proof fn law_malformed_index_is_passed_over(
    found: Map<Seq<char>, EntryModel>,
    meta: MetaModel,
    data: Seq<u8>,
)
    requires
        index::parse_index(data) is Err,
    ensures
        archive::recorded(found, meta, Some(data)) == Ok::<
            Map<Seq<char>, EntryModel>,
            ErrorModel,
        >(found),
{
}

/// An index file that the directory lists prevails over whatever stands behind the
/// entry.
pub proof fn law_listed_index_prevails(
    image: Seq<u8>,
    meta: MetaModel,
    payloads: Map<Seq<char>, Seq<u8>>,
)
    requires
        payloads.contains_key(index::hidden_name(meta.name)),
    ensures
        open::payload_of(image, meta, payloads) == Ok::<Option<Seq<u8>>, ErrorModel>(
            Some(payloads[index::hidden_name(meta.name)]),
        ),
{
}

/// Directory entries and SOZip-enabled entries say what their fields say.
pub proof fn law_entry_views(meta: EntryMeta, entry: SozipEntry)
    ensures
        meta@.name == meta.name@,
        meta@.data_start == meta.data_start,
        meta@.uncompressed_size == meta.uncompressed_size,
        meta@.compressed_size == meta.compressed_size,
        entry@.name == entry.name@,
        entry@.data_start == entry.data_start,
        entry@.uncompressed_size == entry.uncompressed_size,
        entry@.compressed_size == entry.compressed_size,
        entry@.index == entry.index@,
{
}

/// Sequences of names and of entries are taken element by element.
pub proof fn law_sequence_views(
    strings: Seq<String>,
    entries: Seq<EntryMeta>,
    metas: Seq<MetaModel>,
    payload: Vec<u8>,
)
    ensures
        archive::texts(strings).len() == strings.len(),
        forall|i: int|
            0 <= i < strings.len() ==> #[trigger] archive::texts(strings)[i] == strings[i]@,
        archive::metas(entries).len() == entries.len(),
        forall|i: int|
            0 <= i < entries.len() ==> #[trigger] archive::metas(entries)[i] == entries[i]@,
        archive::names_of(metas).len() == metas.len(),
        forall|i: int|
            0 <= i < metas.len() ==> #[trigger] archive::names_of(metas)[i] == metas[i].name,
        archive::option_model(None) is None,
        archive::option_model(Some(payload)) == Some(payload@),
{
}

/// The listed index files are the directory entries with the name of an index file, each
/// under its own name and with its own position, all of them once and in order.
pub proof fn law_index_files_have_their_positions(listing: Seq<MetaModel>)
    requires
        listing.len() <= usize::MAX,
    ensures
        ({
            let files = archive::index_files(listing);
            &&& forall|k: int|
                #![trigger files[k]]
                0 <= k < files.len() ==> {
                    &&& 0 <= files[k].1 < listing.len()
                    &&& files[k].0 == listing[files[k].1 as int].name
                    &&& index::is_index_name(files[k].0)
                }
            &&& forall|k: int, l: int|
                0 <= k < l < files.len() ==> (#[trigger] files[k]).1 < (#[trigger] files[l]).1
            &&& forall|p: int|
                #![trigger listing[p]]
                0 <= p < listing.len() && index::is_index_name(listing[p].name) ==> exists|k: int|
                    0 <= k < files.len() && (#[trigger] files[k]).1 == p
        }),
    decreases listing.len(),
{
    if listing.len() > 0 {
        let front = listing.drop_last();
        let before = archive::index_files(front);
        let files = archive::index_files(listing);
        law_index_files_have_their_positions(front);
        assert forall|k: int| #![trigger files[k]] 0 <= k < files.len() implies {
            &&& 0 <= files[k].1 < listing.len()
            &&& files[k].0 == listing[files[k].1 as int].name
            &&& index::is_index_name(files[k].0)
        } by {
            if k < before.len() {
                assert(files[k] == before[k]);
                assert(front[before[k].1 as int] == listing[before[k].1 as int]);
            }
        }
        assert forall|k: int, l: int| 0 <= k < l < files.len() implies (#[trigger] files[k]).1 < (
        #[trigger] files[l]).1 by {
            assert(files[k] == before[k]);
            if l < before.len() {
                assert(files[l] == before[l]);
            }
        }
        assert forall|p: int|
            #![trigger listing[p]]
            0 <= p < listing.len() && index::is_index_name(listing[p].name) implies exists|k: int|
            0 <= k < files.len() && (#[trigger] files[k]).1 == p by {
            if p < front.len() {
                assert(front[p] == listing[p]);
                let k = choose|k: int| 0 <= k < before.len() && (#[trigger] before[k]).1 == p;
                assert(files[k] == before[k]);
            } else {
                assert(files[files.len() - 1].1 == p);
            }
        }
    }
}

/// What an index file makes of its entry: one that is missing or refused makes nothing of
/// it, one that disagrees on a size is an error that tells both, the uncompressed sizes
/// first, and any other makes it SOZip-enabled with the sizes and the place that the
/// directory tells and the index that the file holds.
pub proof fn law_index_file_decides(meta: MetaModel, data: Seq<u8>, found: Map<
    Seq<char>,
    EntryModel,
>)
    ensures
        archive::resolved(meta, None) == Ok::<Option<EntryModel>, ErrorModel>(None),
        archive::recorded(found, meta, None) == Ok::<Map<Seq<char>, EntryModel>, ErrorModel>(found),
        match index::parse_index(data) {
            Err(_) => archive::resolved(meta, Some(data)) == Ok::<Option<EntryModel>, ErrorModel>(
                None,
            ),
            Ok(index) => {
                let result = archive::resolved(meta, Some(data));
                let stored = archive::recorded(found, meta, Some(data));
                if index.uncompressed_size != meta.uncompressed_size {
                    &&& result matches Err(ErrorModel::SizeMismatch { index_size, entry_size })
                    &&& index_size == index.uncompressed_size
                    &&& entry_size == meta.uncompressed_size
                    &&& stored matches Err(error) && result == Err::<
                        Option<EntryModel>,
                        ErrorModel,
                    >(error)
                } else if index.compressed_size != meta.compressed_size {
                    &&& result matches Err(ErrorModel::SizeMismatch { index_size, entry_size })
                    &&& index_size == index.compressed_size
                    &&& entry_size == meta.compressed_size
                    &&& stored matches Err(error) && result == Err::<
                        Option<EntryModel>,
                        ErrorModel,
                    >(error)
                } else {
                    &&& result matches Ok(Some(entry))
                    &&& entry.name == meta.name
                    &&& entry.data_start == meta.data_start
                    &&& entry.uncompressed_size == meta.uncompressed_size
                    &&& entry.compressed_size == meta.compressed_size
                    &&& entry.index == index
                    &&& stored == Ok::<Map<Seq<char>, EntryModel>, ErrorModel>(
                        found.insert(meta.name, entry),
                    )
                }
            },
        },
{
}

/// The index of an entry is looked for behind its compressed data only if the directory
/// lists none, and not at all if nothing can follow the entry.
pub proof fn law_where_to_look(meta: MetaModel, payloads: Map<Seq<char>, Seq<u8>>)
    ensures
        archive::data_end(meta) == meta.data_start + meta.compressed_size,
        ({
            let name = index::hidden_name(meta.name);
            let known = archive::known_payload(meta, payloads);
            &&& payloads.contains_key(name) ==> known == Some(Some(payloads[name]))
            &&& !payloads.contains_key(name) && meta.data_start + meta.compressed_size > u64::MAX
                ==> known == Some(None::<Seq<u8>>)
            &&& !payloads.contains_key(name) && meta.data_start + meta.compressed_size <= u64::MAX
                ==> known is None
        }),
{
}

/// The status of a file tells its name, whether it is SOZip-enabled and, if it is, the
/// chunk size and the number of chunks of its index.
pub proof fn law_status(
    result: ValidationResult,
    name: Seq<char>,
    entries: Map<Seq<char>, EntryModel>,
)
    ensures
        archive::validated(result, name, entries) <==> {
            &&& result.name@ == name
            &&& result.sozip <==> entries.contains_key(name)
            &&& result.sozip ==> {
                let index = entries[name].index;
                &&& result.chunk_size == Some(index.chunk_size)
                &&& result.num_chunks matches Some(count)
                &&& count == (if index.uncompressed_size == 0 {
                    0
                } else {
                    index.offsets.len() + 1
                })
            }
            &&& !result.sozip ==> result.chunk_size is None && result.num_chunks is None
        },
{
}

/// The summary of a status: a line with the name, and with the chunk size of a file that
/// is SOZip-enabled.
pub proof fn law_summary(result: ValidationResult, chunk_size: u32)
    ensures
        result.sozip && result.chunk_size == Some(chunk_size) ==> result.summary() == "* File "@
            + result.name@ + " has a valid SOZip index, using chunk_size = "@ + text::decimal(
            chunk_size as nat,
        ),
        result.sozip && result.chunk_size is None ==> result.summary() == "* File "@ + result.name@
            + " has a valid SOZip index, using chunk_size = "@ + text::decimal(0),
        !result.sozip ==> result.summary() == "  File "@ + result.name@
            + " is not SOZip-optimized"@,
{
}

} // verus!
