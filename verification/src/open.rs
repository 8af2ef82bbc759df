//! Opening an archive that is held in memory.

use std::io::Cursor;
use vstd::prelude::*;
use zip::ZipArchive;

use crate::archive;
use crate::archive::{Discovery, EntryMeta, EntryModel, Lookup, MetaModel, SozipArchive};
use crate::directory;
use crate::error::{ErrorModel, SozipError};
use crate::index;
use crate::orphan;

verus! {

/// What an open archive offers: its files and the SOZip-enabled ones among them.
pub struct ArchiveModel {
    pub files: Seq<Seq<char>>,
    pub entries: Map<Seq<char>, EntryModel>,
}

/// The contents of the index file of an entry: the one that the directory lists, or
/// else the one that stands behind the entry in the archive `image`.
pub open spec fn payload_of(
    image: Seq<u8>,
    meta: MetaModel,
    payloads: Map<Seq<char>, Seq<u8>>,
) -> Result<Option<Seq<u8>>, ErrorModel> {
    let name = index::hidden_name(meta.name);
    if payloads.contains_key(name) {
        Ok(Some(payloads[name]))
    } else {
        orphan::orphan_index(image, archive::data_end(meta), name)
    }
}

/// The SOZip-enabled entries among `data`, in the archive `image` whose directory lists
/// index files with the contents `payloads`; or the first error on the way.
pub open spec fn discovered(
    image: Seq<u8>,
    data: Seq<MetaModel>,
    payloads: Map<Seq<char>, Seq<u8>>,
) -> Result<Map<Seq<char>, EntryModel>, ErrorModel>
    decreases data.len(),
{
    if data.len() == 0 {
        Ok(Map::empty())
    } else {
        match discovered(image, data.drop_last(), payloads) {
            Err(error) => Err(error),
            Ok(found) => match payload_of(image, data.last(), payloads) {
                Err(error) => Err(error),
                Ok(payload) => archive::recorded(found, data.last(), payload),
            },
        }
    }
}

/// The directory entry that the `zip` crate reports.
pub open spec fn meta_of(listed: (Seq<char>, u64, u64, u64)) -> MetaModel {
    MetaModel {
        name: listed.0,
        data_start: listed.1,
        uncompressed_size: listed.2,
        compressed_size: listed.3,
    }
}

/// The first `count` entries of the central directory of an archive, if all of them
/// can be had.
pub open spec fn listing_of(image: Seq<u8>, count: nat) -> Option<Seq<MetaModel>> {
    if forall|i: int|
        0 <= i < count ==> #[trigger] directory::zip_listed(image, i as usize) is Some {
        Some(Seq::new(count, |i: int| meta_of(directory::zip_listed(image, i as usize)->0)))
    } else {
        None
    }
}

/// The contents of index files of an archive by name; or the first error on the way.
pub open spec fn payloads_of(image: Seq<u8>, files: Seq<(Seq<char>, usize)>) -> Result<
    Map<Seq<char>, Seq<u8>>,
    ErrorModel,
>
    decreases files.len(),
{
    if files.len() == 0 {
        Ok(Map::empty())
    } else {
        match payloads_of(image, files.drop_last()) {
            Err(error) => Err(error),
            Ok(payloads) => match directory::zip_contents(image, files.last().1) {
                None => Err(ErrorModel::Zip),
                Some(None) => Err(ErrorModel::Io),
                Some(Some(bytes)) => Ok(payloads.insert(files.last().0, bytes)),
            },
        }
    }
}

/// The result of opening an archive.
pub open spec fn opened(image: Seq<u8>) -> Result<ArchiveModel, ErrorModel> {
    if !directory::zip_opens(image) {
        Err(ErrorModel::Zip)
    } else {
        match listing_of(image, directory::zip_count(image) as nat) {
            None => Err(ErrorModel::Zip),
            Some(listing) => match payloads_of(image, archive::index_files(listing)) {
                Err(error) => Err(error),
                Ok(payloads) => match discovered(image, archive::data_entries(listing), payloads) {
                    Err(error) => Err(error),
                    Ok(entries) => Ok(
                        ArchiveModel {
                            files: archive::names_of(archive::data_entries(listing)),
                            entries,
                        },
                    ),
                },
            },
        }
    }
}

/// No index file stands beyond the end of an archive.
proof fn lemma_nothing_past_the_end(image: Seq<u8>, offset: int, expected: Seq<char>)
    requires
        offset > image.len(),
    ensures
        orphan::orphan_index(image, offset, expected) == Ok::<Option<Seq<u8>>, ErrorModel>(None),
{
}

/// An error among the first entries is the error of all.
proof fn lemma_discovery_stops(
    image: Seq<u8>,
    data: Seq<MetaModel>,
    payloads: Map<Seq<char>, Seq<u8>>,
    count: nat,
)
    requires
        count <= data.len(),
        discovered(image, data.take(count as int), payloads) is Err,
    ensures
        discovered(image, data, payloads) == discovered(image, data.take(count as int), payloads),
    decreases data.len() - count,
{
    if count == data.len() {
        assert(data.take(count as int) =~= data);
    } else {
        assert(data.take((count + 1) as int).drop_last() =~= data.take(count as int));
        lemma_discovery_stops(image, data, payloads, count + 1);
    }
}

/// An error among the first index files is the error of all.
proof fn lemma_reading_stops(image: Seq<u8>, files: Seq<(Seq<char>, usize)>, count: nat)
    requires
        count <= files.len(),
        payloads_of(image, files.take(count as int)) is Err,
    ensures
        payloads_of(image, files) == payloads_of(image, files.take(count as int)),
    decreases files.len() - count,
{
    if count == files.len() {
        assert(files.take(count as int) =~= files);
    } else {
        assert(files.take((count + 1) as int).drop_last() =~= files.take(count as int));
        lemma_reading_stops(image, files, count + 1);
    }
}

impl Discovery {
    /// Looks for the index of every entry in an archive that is held in memory.
    pub fn search(&mut self, image: &[u8]) -> (result: Result<(), SozipError>)
        requires
            old(self).well_formed(),
            old(self).done() == 0,
            old(self).found() == Map::<Seq<char>, EntryModel>::empty(),
        ensures
            final(self).well_formed(),
            final(self).data() == old(self).data(),
            final(self).indexes() == old(self).indexes(),
            final(self).payloads() == old(self).payloads(),
            match result {
                Ok(_) => {
                    &&& final(self).done() == old(self).data().len()
                    &&& discovered(image@, old(self).data(), old(self).payloads()) == Ok::<
                        Map<Seq<char>, EntryModel>,
                        ErrorModel,
                    >(final(self).found())
                },
                Err(error) => discovered(image@, old(self).data(), old(self).payloads()) == Err::<
                    Map<Seq<char>, EntryModel>,
                    ErrorModel,
                >(error@),
            },
    {
        let ghost data = self.data();
        let ghost payloads = self.payloads();
        assert(data.take(0) =~= Seq::empty());
        loop
            invariant
                self.well_formed(),
                self.data() == data,
                self.indexes() == old(self).indexes(),
                self.payloads() == payloads,
                data == old(self).data(),
                payloads == old(self).payloads(),
                self.done() <= data.len(),
                discovered(image@, data.take(self.done() as int), payloads) == Ok::<
                    Map<Seq<char>, EntryModel>,
                    ErrorModel,
                >(self.found()),
            decreases data.len() - self.done(),
        {
            let ghost at = self.done();
            let payload = match self.next_lookup() {
                Lookup::Finished => {
                    assert(data.take(at as int) =~= data);
                    return Ok(());
                },
                Lookup::Known(payload) => {
                    proof {
                        if archive::data_end(data[at as int]) > u64::MAX {
                            assert(image@.len() == image.len());
                            lemma_nothing_past_the_end(
                                image@,
                                archive::data_end(data[at as int]),
                                index::hidden_name(data[at as int].name),
                            );
                        }
                    }
                    Ok(payload)
                },
                Lookup::Orphan { offset, name } => orphan::scan_orphan_index(image, offset, name),
            };
            assert(orphan::payload_model(payload) == payload_of(image@, data[at as int], payloads));
            assert(data.take((at + 1) as int).drop_last() =~= data.take(at as int));
            assert(data.take((at + 1) as int).last() == data[at as int]);
            match payload {
                Err(error) => {
                    proof {
                        lemma_discovery_stops(image@, data, payloads, at + 1);
                    }
                    return Err(error);
                },
                Ok(payload) => {
                    match self.resolve(payload) {
                        Ok(_) => {},
                        Err(error) => {
                            proof {
                                lemma_discovery_stops(image@, data, payloads, at + 1);
                            }
                            return Err(error);
                        },
                    }
                },
            }
        }
    }
}

/// Reads the central directory.
fn read_listing(zip: &mut ZipArchive<Cursor<Vec<u8>>>) -> (listing: Result<
    Vec<EntryMeta>,
    SozipError,
>)
    ensures
        directory::zip_image(*final(zip)) == directory::zip_image(*old(zip)),
        ({
            let image = directory::zip_image(*old(zip));
            let expected = listing_of(image, directory::zip_count(image) as nat);
            match listing {
                Ok(listing) => expected == Some(archive::metas(listing@)),
                Err(error) => expected is None && error@ == ErrorModel::Zip,
            }
        }),
{
    let ghost image = directory::zip_image(*zip);
    let count: usize = directory::count_files(zip);
    let mut listing: Vec<EntryMeta> = Vec::new();
    let mut i: usize = 0;
    while i < count
        invariant
            image == directory::zip_image(*old(zip)),
            directory::zip_image(*zip) == image,
            count == directory::zip_count(image),
            i <= count,
            listing@.len() == i,
            forall|j: int|
                0 <= j < i ==> #[trigger] directory::zip_listed(image, j as usize) is Some
                    && listing@[j]@ == meta_of(directory::zip_listed(image, j as usize)->0),
        decreases count - i,
    {
        match directory::list_file(zip, i) {
            Ok((name, data_start, uncompressed_size, compressed_size)) => {
                listing.push(
                    EntryMeta { name, data_start, uncompressed_size, compressed_size },
                );
            },
            Err(error) => {
                assert(directory::zip_listed(image, (i as int) as usize) is None);
                return Err(SozipError::Zip(error));
            },
        }
        i += 1;
    }
    assert(archive::metas(listing@) =~= listing_of(image, count as nat)->0);
    Ok(listing)
}

/// Reads the index files that the central directory lists.
fn read_indexes(zip: &mut ZipArchive<Cursor<Vec<u8>>>, search: &mut Discovery) -> (result: Result<
    (),
    SozipError,
>)
    requires
        old(search).well_formed(),
        old(search).loaded() == 0,
        old(search).payloads() == Map::<Seq<char>, Seq<u8>>::empty(),
    ensures
        directory::zip_image(*final(zip)) == directory::zip_image(*old(zip)),
        final(search).well_formed(),
        final(search).data() == old(search).data(),
        final(search).indexes() == old(search).indexes(),
        final(search).done() == old(search).done(),
        final(search).found() == old(search).found(),
        ({
            let expected = payloads_of(directory::zip_image(*old(zip)), old(search).indexes());
            match result {
                Ok(_) => expected == Ok::<Map<Seq<char>, Seq<u8>>, ErrorModel>(
                    final(search).payloads(),
                ),
                Err(error) => expected == Err::<Map<Seq<char>, Seq<u8>>, ErrorModel>(error@),
            }
        }),
{
    let ghost image = directory::zip_image(*zip);
    let ghost files = search.indexes();
    assert(files.take(0) =~= Seq::empty());
    loop
        invariant
            directory::zip_image(*zip) == image,
            search.well_formed(),
            search.data() == old(search).data(),
            search.indexes() == files,
            files == old(search).indexes(),
            image == directory::zip_image(*old(zip)),
            search.done() == old(search).done(),
            search.found() == old(search).found(),
            search.loaded() <= files.len(),
            payloads_of(image, files.take(search.loaded() as int)) == Ok::<
                Map<Seq<char>, Seq<u8>>,
                ErrorModel,
            >(search.payloads()),
        decreases files.len() - search.loaded(),
    {
        let ghost at = search.loaded();
        let place: usize = match search.next_index() {
            Some(place) => place,
            None => {
                assert(files.take(at as int) =~= files);
                return Ok(());
            },
        };
        assert(files.take((at + 1) as int).drop_last() =~= files.take(at as int));
        assert(files.take((at + 1) as int).last() == files[at as int]);
        match directory::read_file(zip, place) {
            Ok(Ok(payload)) => {
                search.supply_index(payload);
            },
            Ok(Err(error)) => {
                proof {
                    lemma_reading_stops(image, files, at + 1);
                }
                return Err(SozipError::Io(error));
            },
            Err(error) => {
                proof {
                    lemma_reading_stops(image, files, at + 1);
                }
                return Err(SozipError::Zip(error));
            },
        }
    }
}

impl SozipArchive<Vec<u8>> {
    /// Opens an archive that is held in memory.
    ///
    /// Goes through the central directory, finds the chunk index of each entry, listed
    /// in the directory or behind the entry, and keeps what can be told of the entries.
    pub fn new(image: Vec<u8>) -> (result: Result<Self, SozipError>)
        ensures
            match result {
                Ok(archive) => {
                    &&& archive.well_formed()
                    &&& archive.source()@ == image@
                    &&& opened(image@) == Ok::<ArchiveModel, ErrorModel>(
                        ArchiveModel { files: archive.files(), entries: archive.entries() },
                    )
                },
                Err(error) => opened(image@) == Err::<ArchiveModel, ErrorModel>(error@),
            },
    {
        let mut zip = match directory::open_zip(image) {
            Ok(zip) => zip,
            Err(error) => {
                return Err(SozipError::Zip(error));
            },
        };
        let listing = match read_listing(&mut zip) {
            Ok(listing) => listing,
            Err(error) => {
                return Err(error);
            },
        };
        let mut search = Discovery::new(listing);
        match read_indexes(&mut zip, &mut search) {
            Ok(_) => {},
            Err(error) => {
                return Err(error);
            },
        }
        let reader = directory::close_zip(zip);
        match search.search(reader.as_slice()) {
            Ok(_) => {},
            Err(error) => {
                return Err(error);
            },
        }
        Ok(search.finish(reader))
    }
}

} // verus!
