//! Laws of opening an archive.

use vstd::prelude::*;

use crate::archive;
use crate::archive::{EntryModel, MetaModel};
use crate::archive_laws;
use crate::directory;
use crate::error::ErrorModel;
use crate::index;
use crate::index_laws;
use crate::open;
use crate::open::ArchiveModel;
use crate::orphan;

verus! {

/// The error of an index file that cannot be read, or none.
pub open spec fn reading_error(image: Seq<u8>, position: usize) -> Option<ErrorModel> {
    match directory::zip_contents(image, position) {
        None => Some(ErrorModel::Zip),
        Some(None) => Some(ErrorModel::Io),
        Some(Some(_)) => None,
    }
}

/// The contents under a name are those of the last index file of that name, read at its
/// own position.
pub proof fn law_index_file_is_read_at_its_position(
    image: Seq<u8>,
    files: Seq<(Seq<char>, usize)>,
    k: int,
)
    requires
        open::payloads_of(image, files) is Ok,
        0 <= k < files.len(),
        forall|l: int| k < l < files.len() ==> (#[trigger] files[l]).0 != files[k].0,
    ensures
        open::payloads_of(image, files)->Ok_0.contains_key(files[k].0),
        directory::zip_contents(image, files[k].1) == Some(
            Some(open::payloads_of(image, files)->Ok_0[files[k].0]),
        ),
    decreases files.len(),
{
    let front = files.drop_last();
    if k < front.len() {
        assert(files[files.len() - 1].0 != files[k].0);
        assert forall|l: int| k < l < front.len() implies (#[trigger] front[l]).0
            != front[k].0 by {
            assert(front[l] == files[l]);
        }
        law_index_file_is_read_at_its_position(image, front, k);
    }
}

/// Only the names of index files have contents.
pub proof fn law_only_index_files_have_contents(
    image: Seq<u8>,
    files: Seq<(Seq<char>, usize)>,
    name: Seq<char>,
)
    requires
        open::payloads_of(image, files) is Ok,
        open::payloads_of(image, files)->Ok_0.contains_key(name),
    ensures
        exists|k: int| 0 <= k < files.len() && (#[trigger] files[k]).0 == name,
    decreases files.len(),
{
    if files.len() > 0 {
        let front = files.drop_last();
        if files.last().0 == name {
            assert(files[files.len() - 1].0 == name);
        } else {
            law_only_index_files_have_contents(image, front, name);
            let k = choose|k: int| 0 <= k < front.len() && (#[trigger] front[k]).0 == name;
            assert(files[k] == front[k]);
        }
    }
}

/// Index files that can all be read are read without an error.
pub proof fn law_readable_index_files(image: Seq<u8>, files: Seq<(Seq<char>, usize)>)
    requires
        forall|k: int|
            0 <= k < files.len() ==> reading_error(image, (#[trigger] files[k]).1) is None,
    ensures
        open::payloads_of(image, files) is Ok,
    decreases files.len(),
{
    if files.len() > 0 {
        let front = files.drop_last();
        assert forall|k: int| 0 <= k < front.len() implies reading_error(
            image,
            (#[trigger] front[k]).1,
        ) is None by {
            assert(front[k] == files[k]);
        }
        law_readable_index_files(image, front);
        assert(reading_error(image, files[files.len() - 1].1) is None);
    }
}

/// The first index file that cannot be read decides the error.
pub proof fn law_first_unreadable_index_file(
    image: Seq<u8>,
    files: Seq<(Seq<char>, usize)>,
    k: int,
    error: ErrorModel,
)
    requires
        0 <= k < files.len(),
        reading_error(image, files[k].1) == Some(error),
        forall|l: int| 0 <= l < k ==> reading_error(image, (#[trigger] files[l]).1) is None,
    ensures
        open::payloads_of(image, files) == Err::<Map<Seq<char>, Seq<u8>>, ErrorModel>(error),
    decreases files.len(),
{
    let front = files.drop_last();
    assert forall|l: int| 0 <= l < k implies reading_error(
        image,
        (#[trigger] front[l]).1,
    ) is None by {
        assert(front[l] == files[l]);
    }
    if k < front.len() {
        law_first_unreadable_index_file(image, front, k, error);
    } else {
        law_readable_index_files(image, front);
    }
}

/// The contents under the name of a listed index file are those of the directory entry
/// with that name, if no two index files share a name.
pub proof fn law_listed_contents(image: Seq<u8>, listing: Seq<MetaModel>, p: int)
    requires
        listing.len() <= usize::MAX,
        forall|i: int, j: int|
            0 <= i < j < listing.len() ==> (#[trigger] listing[i]).name != (
            #[trigger] listing[j]).name,
        open::payloads_of(image, archive::index_files(listing)) is Ok,
        0 <= p < listing.len(),
    ensures
        ({
            let payloads = open::payloads_of(image, archive::index_files(listing))->Ok_0;
            &&& payloads.contains_key(listing[p].name) <==> index::is_index_name(listing[p].name)
            &&& index::is_index_name(listing[p].name) ==> directory::zip_contents(image, p as usize)
                == Some(Some(payloads[listing[p].name]))
            &&& forall|name: Seq<char>| #[trigger]
                payloads.contains_key(name) ==> exists|q: int|
                    0 <= q < listing.len() && (#[trigger] listing[q]).name == name
        }),
{
    let files = archive::index_files(listing);
    let payloads = open::payloads_of(image, files)->Ok_0;
    archive_laws::law_index_files_have_their_positions(listing);
    assert forall|name: Seq<char>| #[trigger] payloads.contains_key(name) implies exists|q: int|
        0 <= q < listing.len() && (#[trigger] listing[q]).name == name by {
        law_only_index_files_have_contents(image, files, name);
        let k = choose|k: int| 0 <= k < files.len() && (#[trigger] files[k]).0 == name;
        assert(listing[files[k].1 as int].name == name);
    }
    if index::is_index_name(listing[p].name) {
        let k = choose|k: int| 0 <= k < files.len() && (#[trigger] files[k]).1 == p;
        assert(files[k].0 == listing[p].name);
        assert forall|l: int| k < l < files.len() implies (#[trigger] files[l]).0
            != files[k].0 by {
            assert(files[k].1 < files[l].1);
            assert(listing[p].name != listing[files[l].1 as int].name);
        }
        law_index_file_is_read_at_its_position(image, files, k);
    } else if payloads.contains_key(listing[p].name) {
        law_only_index_files_have_contents(image, files, listing[p].name);
        let k = choose|k: int| 0 <= k < files.len() && (#[trigger] files[k]).0 == listing[p].name;
        assert(index::is_index_name(files[k].0));
    }
}

/// What an entry of the directory comes to by itself.
pub open spec fn entry_of(
    image: Seq<u8>,
    meta: MetaModel,
    payloads: Map<Seq<char>, Seq<u8>>,
) -> Result<Option<EntryModel>, ErrorModel> {
    match open::payload_of(image, meta, payloads) {
        Err(error) => Err(error),
        Ok(payload) => archive::resolved(meta, payload),
    }
}

/// The index of an entry is the listed one, or else what stands where the compressed
/// data of the entry ends.
pub proof fn law_index_of_an_entry(
    image: Seq<u8>,
    meta: MetaModel,
    payloads: Map<Seq<char>, Seq<u8>>,
)
    ensures
        ({
            let name = index::hidden_name(meta.name);
            open::payload_of(image, meta, payloads) == (if payloads.contains_key(name) {
                Ok::<Option<Seq<u8>>, ErrorModel>(Some(payloads[name]))
            } else {
                orphan::orphan_index(image, meta.data_start + meta.compressed_size, name)
            })
        }),
{
}

/// What is found under a name is the last entry of that name that has an index.
pub proof fn law_entry_is_found(
    image: Seq<u8>,
    data: Seq<MetaModel>,
    payloads: Map<Seq<char>, Seq<u8>>,
    i: int,
    entry: EntryModel,
)
    requires
        open::discovered(image, data, payloads) is Ok,
        0 <= i < data.len(),
        entry_of(image, data[i], payloads) == Ok::<Option<EntryModel>, ErrorModel>(Some(entry)),
        forall|j: int|
            i < j < data.len() ==> (#[trigger] data[j]).name != data[i].name || entry_of(
                image,
                data[j],
                payloads,
            ) == Ok::<Option<EntryModel>, ErrorModel>(None),
    ensures
        open::discovered(image, data, payloads)->Ok_0.contains_key(data[i].name),
        open::discovered(image, data, payloads)->Ok_0[data[i].name] == entry,
    decreases data.len(),
{
    let front = data.drop_last();
    if i < front.len() {
        let last = data[data.len() - 1];
        assert(last.name != data[i].name || entry_of(image, last, payloads) == Ok::<
            Option<EntryModel>,
            ErrorModel,
        >(None));
        assert forall|j: int| i < j < front.len() implies (#[trigger] front[j]).name
            != front[i].name || entry_of(image, front[j], payloads) == Ok::<
            Option<EntryModel>,
            ErrorModel,
        >(None) by {
            assert(front[j] == data[j]);
        }
        law_entry_is_found(image, front, payloads, i, entry);
    }
}

/// Nothing is found but what an entry of that name comes to by itself.
pub proof fn law_only_entries_are_found(
    image: Seq<u8>,
    data: Seq<MetaModel>,
    payloads: Map<Seq<char>, Seq<u8>>,
    name: Seq<char>,
)
    requires
        open::discovered(image, data, payloads) is Ok,
        open::discovered(image, data, payloads)->Ok_0.contains_key(name),
    ensures
        exists|i: int|
            0 <= i < data.len() && (#[trigger] data[i]).name == name && entry_of(
                image,
                data[i],
                payloads,
            ) == Ok::<Option<EntryModel>, ErrorModel>(
                Some(open::discovered(image, data, payloads)->Ok_0[name]),
            ),
    decreases data.len(),
{
    if data.len() > 0 {
        let front = data.drop_last();
        let last = data[data.len() - 1];
        let before = open::discovered(image, front, payloads)->Ok_0;
        if last.name == name && entry_of(image, last, payloads)->Ok_0 is Some {
            assert(data[data.len() - 1].name == name);
        } else {
            law_only_entries_are_found(image, front, payloads, name);
            let i = choose|i: int|
                0 <= i < front.len() && (#[trigger] front[i]).name == name && entry_of(
                    image,
                    front[i],
                    payloads,
                ) == Ok::<Option<EntryModel>, ErrorModel>(Some(before[name]));
            assert(data[i] == front[i]);
        }
    }
}

/// If no entry fails, the search does not fail.
pub proof fn law_search_succeeds(
    image: Seq<u8>,
    data: Seq<MetaModel>,
    payloads: Map<Seq<char>, Seq<u8>>,
)
    requires
        forall|i: int|
            0 <= i < data.len() ==> entry_of(image, #[trigger] data[i], payloads) is Ok,
    ensures
        open::discovered(image, data, payloads) is Ok,
    decreases data.len(),
{
    if data.len() > 0 {
        let front = data.drop_last();
        assert forall|i: int| 0 <= i < front.len() implies entry_of(
            image,
            #[trigger] front[i],
            payloads,
        ) is Ok by {
            assert(front[i] == data[i]);
        }
        law_search_succeeds(image, front, payloads);
        assert(entry_of(image, data[data.len() - 1], payloads) is Ok);
    }
}

/// The first entry that fails decides the error of the search.
pub proof fn law_first_failing_entry(
    image: Seq<u8>,
    data: Seq<MetaModel>,
    payloads: Map<Seq<char>, Seq<u8>>,
    i: int,
    error: ErrorModel,
)
    requires
        0 <= i < data.len(),
        entry_of(image, data[i], payloads) == Err::<Option<EntryModel>, ErrorModel>(error),
        forall|j: int| 0 <= j < i ==> entry_of(image, #[trigger] data[j], payloads) is Ok,
    ensures
        open::discovered(image, data, payloads) == Err::<Map<Seq<char>, EntryModel>, ErrorModel>(
            error,
        ),
    decreases data.len(),
{
    let front = data.drop_last();
    assert forall|j: int| 0 <= j < i implies entry_of(
        image,
        #[trigger] front[j],
        payloads,
    ) is Ok by {
        assert(front[j] == data[j]);
    }
    if i < front.len() {
        law_first_failing_entry(image, front, payloads, i, error);
    } else {
        law_search_succeeds(image, front, payloads);
    }
}

/// A search that succeeds has met no entry that fails.
proof fn lemma_no_failing_entry(
    image: Seq<u8>,
    data: Seq<MetaModel>,
    payloads: Map<Seq<char>, Seq<u8>>,
    i: int,
)
    requires
        open::discovered(image, data, payloads) is Ok,
        0 <= i < data.len(),
    ensures
        entry_of(image, data[i], payloads) is Ok,
    decreases data.len(),
{
    if i < data.len() - 1 {
        lemma_no_failing_entry(image, data.drop_last(), payloads, i);
    }
}

/// `listing` is the central directory of an archive, as far as it can be had: every
/// entry with the name, the place and the sizes that are reported for its position.
pub open spec fn lists(image: Seq<u8>, listing: Seq<MetaModel>) -> bool {
    &&& listing.len() == directory::zip_count(image)
    &&& forall|i: int|
        #![trigger listing[i]]
        0 <= i < listing.len() ==> directory::zip_listed(image, i as usize) == Some(
            (
                listing[i].name,
                listing[i].data_start,
                listing[i].uncompressed_size,
                listing[i].compressed_size,
            ),
        )
}

/// Opening an archive: one that the ZIP parser refuses, or of which a file cannot be
/// looked up, is a ZIP error. Otherwise the listed index files are read, the entries are
/// searched, and the archive has the names of all other files, in order.
pub proof fn law_opening(image: Seq<u8>, listing: Seq<MetaModel>)
    ensures
        !directory::zip_opens(image) ==> open::opened(image) == Err::<ArchiveModel, ErrorModel>(
            ErrorModel::Zip,
        ),
        (exists|i: int|
            0 <= i < directory::zip_count(image) && #[trigger] directory::zip_listed(
                image,
                i as usize,
            ) is None) ==> open::opened(image) == Err::<ArchiveModel, ErrorModel>(ErrorModel::Zip),
        directory::zip_opens(image) && lists(image, listing) ==> match open::payloads_of(
            image,
            archive::index_files(listing),
        ) {
            Err(error) => open::opened(image) == Err::<ArchiveModel, ErrorModel>(error),
            Ok(payloads) => {
                let data = listing.filter(
                    |entry: MetaModel| !index::is_index_name(entry.name),
                );
                match open::discovered(image, data, payloads) {
                    Err(error) => open::opened(image) == Err::<ArchiveModel, ErrorModel>(error),
                    Ok(entries) => {
                        &&& open::opened(image) matches Ok(model)
                        &&& model.entries == entries
                        &&& model.files == data.map_values(|entry: MetaModel| entry.name)
                    },
                }
            },
        },
{
    if directory::zip_opens(image) && lists(image, listing) {
        let count = directory::zip_count(image) as nat;
        assert forall|i: int| 0 <= i < count implies #[trigger] directory::zip_listed(
            image,
            i as usize,
        ) is Some by {
            assert(listing[i].name == listing[i].name);
        }
        assert forall|i: int| 0 <= i < count implies #[trigger] open::listing_of(
            image,
            count,
        )->0[i] == listing[i] by {}
        assert(open::listing_of(image, count)->0 =~= listing);
        archive_laws::law_files_are_all_but_indexes(listing);
        let data = archive::data_entries(listing);
        assert(archive::names_of(data) =~= data.map_values(|entry: MetaModel| entry.name));
    }
}

/// What becomes of an index file of the entry `meta` with the contents `data`: the entry
/// is SOZip-enabled with the index in it, unless it is refused.
pub open spec fn becomes(model: ArchiveModel, meta: MetaModel, data: Seq<u8>) -> bool {
    match index::parse_index(data) {
        Ok(index) => {
            &&& model.entries.contains_key(meta.name)
            &&& model.entries[meta.name] == (EntryModel {
                name: meta.name,
                uncompressed_size: meta.uncompressed_size,
                compressed_size: meta.compressed_size,
                data_start: meta.data_start,
                index,
            })
            &&& index.uncompressed_size == meta.uncompressed_size
            &&& index.compressed_size == meta.compressed_size
        },
        Err(_) => !model.entries.contains_key(meta.name),
    }
}

/// In an archive that opens, every file has the index that was written for it: the
/// directory entry `dir/.base.sozip.idx`, read at its own position, is the index of
/// `dir/base`; without one it is the file of that name right behind the compressed data of
/// `dir/base`; without either `dir/base` is a plain file. Names in the directory are
/// distinct.
pub proof fn law_every_file_has_its_own_index(
    image: Seq<u8>,
    listing: Seq<MetaModel>,
    i: int,
    dir: Seq<char>,
    base: Seq<char>,
)
    requires
        directory::zip_opens(image),
        lists(image, listing),
        forall|p: int, q: int|
            0 <= p < q < listing.len() ==> (#[trigger] listing[p]).name != (
            #[trigger] listing[q]).name,
        open::opened(image) is Ok,
        0 <= i < listing.len(),
        listing[i].name == dir + base,
        !index::is_index_name(dir + base),
        dir.len() == 0 || dir.last() == '/',
        forall|k: int| 0 <= k < base.len() ==> base[k] != '/',
    ensures
        ({
            let model = open::opened(image)->Ok_0;
            let meta = listing[i];
            let hidden = dir + "."@ + base + ".sozip.idx"@;
            &&& forall|p: int|
                0 <= p < listing.len() && (#[trigger] listing[p]).name == hidden ==> (
                directory::zip_contents(image, p as usize) matches Some(Some(data)) && becomes(
                    model,
                    meta,
                    data,
                ))
            &&& (forall|p: int| 0 <= p < listing.len() ==> (#[trigger] listing[p]).name != hidden)
                ==> match orphan::orphan_index(
                image,
                meta.data_start + meta.compressed_size,
                hidden,
            ) {
                Ok(Some(data)) => becomes(model, meta, data),
                Ok(None) => !model.entries.contains_key(meta.name),
                Err(_) => false,
            }
        }),
{
    let model = open::opened(image)->Ok_0;
    let meta = listing[i];
    let hidden = dir + "."@ + base + ".sozip.idx"@;
    let files = archive::index_files(listing);
    let payloads = open::payloads_of(image, files)->Ok_0;
    let data = archive::data_entries(listing);
    law_opening(image, listing);
    archive_laws::law_files_are_all_but_indexes(listing);
    index_laws::law_index_file_name(dir, base);
    index_laws::law_index_file_is_hidden(dir + base);
    law_listed_contents(image, listing, i);
    lemma_distinct_data(listing);
    assert(data.contains(listing[i]));
    let at = choose|k: int| 0 <= k < data.len() && data[k] == meta;
    lemma_no_failing_entry(image, data, payloads, at);
    if entry_of(image, meta, payloads)->Ok_0 is Some {
        law_entry_is_found(
            image,
            data,
            payloads,
            at,
            entry_of(image, meta, payloads)->Ok_0->0,
        );
    }
    if model.entries.contains_key(meta.name) {
        law_only_entries_are_found(image, data, payloads, meta.name);
        let k = choose|k: int|
            0 <= k < data.len() && (#[trigger] data[k]).name == meta.name && entry_of(
                image,
                data[k],
                payloads,
            ) == Ok::<Option<EntryModel>, ErrorModel>(Some(model.entries[meta.name]));
        if k < at {
            assert(data[k].name != data[at].name);
        }
        if at < k {
            assert(data[at].name != data[k].name);
        }
    }
    assert forall|p: int| 0 <= p < listing.len() && (#[trigger] listing[p]).name == hidden implies (
    directory::zip_contents(image, p as usize) matches Some(Some(data)) && becomes(
        model,
        meta,
        data,
    )) by {
        law_listed_contents(image, listing, p);
    }
    if forall|p: int| 0 <= p < listing.len() ==> (#[trigger] listing[p]).name != hidden {
        if payloads.contains_key(hidden) {
            let q = choose|q: int| 0 <= q < listing.len() && (#[trigger] listing[q]).name == hidden;
            assert(listing[q].name == hidden);
        }
    }
}

/// Entries with distinct names keep them when index files are left out.
proof fn lemma_distinct_data(listing: Seq<MetaModel>)
    requires
        forall|p: int, q: int|
            0 <= p < q < listing.len() ==> (#[trigger] listing[p]).name != (
            #[trigger] listing[q]).name,
    ensures
        forall|p: int, q: int|
            0 <= p < q < archive::data_entries(listing).len() ==> (
            #[trigger] archive::data_entries(listing)[p]).name != (#[trigger] archive::data_entries(
                listing,
            )[q]).name,
        forall|p: int|
            0 <= p < archive::data_entries(listing).len() ==> listing.contains(
                #[trigger] archive::data_entries(listing)[p],
            ),
    decreases listing.len(),
{
    if listing.len() > 0 {
        let front = listing.drop_last();
        let before = archive::data_entries(front);
        let data = archive::data_entries(listing);
        assert forall|p: int, q: int| 0 <= p < q < front.len() implies (#[trigger] front[p]).name
            != (#[trigger] front[q]).name by {
            assert(listing[p].name != listing[q].name);
        }
        lemma_distinct_data(front);
        assert forall|p: int| 0 <= p < data.len() implies listing.contains(
            #[trigger] data[p],
        ) by {
            if p < before.len() {
                assert(data[p] == before[p]);
                let k = choose|k: int| 0 <= k < front.len() && front[k] == before[p];
                assert(listing[k] == data[p]);
            } else {
                assert(listing[listing.len() - 1] == data[p]);
            }
        }
        assert forall|p: int, q: int| 0 <= p < q < data.len() implies (#[trigger] data[p]).name
            != (#[trigger] data[q]).name by {
            assert(data[p] == before[p]);
            if q < before.len() {
                assert(data[q] == before[q]);
            } else {
                let k = choose|k: int| 0 <= k < front.len() && front[k] == before[p];
                assert(listing[k].name != listing[listing.len() - 1].name);
            }
        }
    }
}

} // verus!
