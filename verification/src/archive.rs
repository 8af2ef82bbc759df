//! SOZip-enabled archives: discovery of chunk indexes and what is known of the
//! entries.
//!
//! A [`Discovery`] goes through the central directory of an archive and decides what
//! has to be read from it: first the index files that the directory lists, then what
//! follows each entry. For an archive that is held in memory, [`SozipArchive::new`]
//! does all of it.

use vstd::hash_map::StringHashMap;
use vstd::prelude::*;
use vstd::slice::slice_to_vec;
use vstd::string::*;

use crate::error::{ErrorModel, SozipError};
use crate::index;
use crate::index::{IndexModel, SozipIndex};
use crate::text;

verus! {

/// What the central directory says of a file.
#[derive(Debug)]
pub struct EntryMeta {
    /// The name (path within the archive).
    pub name: String,
    /// Where the compressed data starts in the archive.
    pub data_start: u64,
    /// The uncompressed size.
    pub uncompressed_size: u64,
    /// The compressed size.
    pub compressed_size: u64,
}

impl Clone for EntryMeta {
    fn clone(&self) -> (copy: Self)
        ensures
            copy@ == self@,
    {
        EntryMeta {
            name: self.name.clone(),
            data_start: self.data_start,
            uncompressed_size: self.uncompressed_size,
            compressed_size: self.compressed_size,
        }
    }
}

/// [`EntryMeta`] as a mathematical value.
pub struct MetaModel {
    pub name: Seq<char>,
    pub data_start: u64,
    pub uncompressed_size: u64,
    pub compressed_size: u64,
}

impl View for EntryMeta {
    type V = MetaModel;

    open spec fn view(&self) -> MetaModel {
        MetaModel {
            name: self.name@,
            data_start: self.data_start,
            uncompressed_size: self.uncompressed_size,
            compressed_size: self.compressed_size,
        }
    }
}

/// A SOZip-enabled entry of an archive.
#[derive(Debug)]
pub struct SozipEntry {
    /// The name (path within the archive).
    pub name: String,
    /// The uncompressed size, from the central directory.
    pub uncompressed_size: u64,
    /// The compressed size, from the central directory.
    pub compressed_size: u64,
    /// Where the compressed data starts in the archive.
    pub data_start: u64,
    /// The chunk index.
    pub index: SozipIndex,
}

impl Clone for SozipEntry {
    fn clone(&self) -> (copy: Self)
        ensures
            copy@ == self@,
    {
        SozipEntry {
            name: self.name.clone(),
            uncompressed_size: self.uncompressed_size,
            compressed_size: self.compressed_size,
            data_start: self.data_start,
            index: self.index.clone(),
        }
    }
}

/// [`SozipEntry`] as a mathematical value.
pub struct EntryModel {
    pub name: Seq<char>,
    pub uncompressed_size: u64,
    pub compressed_size: u64,
    pub data_start: u64,
    pub index: IndexModel,
}

impl View for SozipEntry {
    type V = EntryModel;

    open spec fn view(&self) -> EntryModel {
        EntryModel {
            name: self.name@,
            uncompressed_size: self.uncompressed_size,
            compressed_size: self.compressed_size,
            data_start: self.data_start,
            index: self.index@,
        }
    }
}

/// The SOZip status of one file of an archive.
#[derive(Debug)]
pub struct ValidationResult {
    /// The name of the file.
    pub name: String,
    /// Whether it has a chunk index.
    pub sozip: bool,
    /// The chunk size, if it has.
    pub chunk_size: Option<u32>,
    /// The number of chunks, if it has.
    pub num_chunks: Option<usize>,
}

impl ValidationResult {
    /// The one-line summary of a result.
    pub open spec fn summary(self) -> Seq<char> {
        if self.sozip {
            "* File "@ + self.name@ + " has a valid SOZip index, using chunk_size = "@
                + text::decimal(
                match self.chunk_size {
                    Some(chunk_size) => chunk_size as nat,
                    None => 0,
                },
            )
        } else {
            "  File "@ + self.name@ + " is not SOZip-optimized"@
        }
    }

    /// Writes the one-line summary of a result.
    pub fn to_string(&self) -> (line: String)
        ensures
            line@ == self.summary(),
    {
        if self.sozip {
            let chunk_size: u32 = match self.chunk_size {
                Some(chunk_size) => chunk_size,
                None => 0,
            };
            let mut line = "* File ".to_owned();
            line.append(self.name.as_str());
            line.append(" has a valid SOZip index, using chunk_size = ");
            text::append_decimal(&mut line, chunk_size as u128);
            line
        } else {
            let mut line = "  File ".to_owned();
            line.append(self.name.as_str());
            line.append(" is not SOZip-optimized");
            line
        }
    }
}

/// The entries of a directory that are not index files, in order.
pub open spec fn data_entries(listing: Seq<MetaModel>) -> Seq<MetaModel>
    decreases listing.len(),
{
    if listing.len() == 0 {
        Seq::empty()
    } else if index::is_index_name(listing.last().name) {
        data_entries(listing.drop_last())
    } else {
        data_entries(listing.drop_last()).push(listing.last())
    }
}

/// The index files of a directory, in order: their names and their positions in it.
pub open spec fn index_files(listing: Seq<MetaModel>) -> Seq<(Seq<char>, usize)>
    decreases listing.len(),
{
    if listing.len() == 0 {
        Seq::empty()
    } else if index::is_index_name(listing.last().name) {
        index_files(listing.drop_last()).push((listing.last().name, (listing.len() - 1) as usize))
    } else {
        index_files(listing.drop_last())
    }
}

/// The names of entries, in order.
pub open spec fn names_of(entries: Seq<MetaModel>) -> Seq<Seq<char>> {
    entries.map_values(|entry: MetaModel| entry.name)
}

/// What the index file found for an entry makes of it: nothing if there is none or it
/// cannot be parsed, an error if it disagrees with the directory on a size.
pub open spec fn resolved(meta: MetaModel, payload: Option<Seq<u8>>) -> Result<
    Option<EntryModel>,
    ErrorModel,
> {
    match payload {
        None => Ok(None),
        Some(data) => match index::parse_index(data) {
            Err(_) => Ok(None),
            Ok(index) => if index.uncompressed_size != meta.uncompressed_size {
                Err(
                    ErrorModel::SizeMismatch {
                        index_size: index.uncompressed_size,
                        entry_size: meta.uncompressed_size,
                    },
                )
            } else if index.compressed_size != meta.compressed_size {
                Err(
                    ErrorModel::SizeMismatch {
                        index_size: index.compressed_size,
                        entry_size: meta.compressed_size,
                    },
                )
            } else {
                Ok(
                    Some(
                        EntryModel {
                            name: meta.name,
                            uncompressed_size: meta.uncompressed_size,
                            compressed_size: meta.compressed_size,
                            data_start: meta.data_start,
                            index,
                        },
                    ),
                )
            },
        },
    }
}

/// The entries found so far, with what `payload` makes of the entry `meta`.
pub open spec fn recorded(
    found: Map<Seq<char>, EntryModel>,
    meta: MetaModel,
    payload: Option<Seq<u8>>,
) -> Result<Map<Seq<char>, EntryModel>, ErrorModel> {
    match resolved(meta, payload) {
        Err(error) => Err(error),
        Ok(None) => Ok(found),
        Ok(Some(entry)) => Ok(found.insert(meta.name, entry)),
    }
}

/// SOZip-enabled entries by name. A later entry takes the place of an earlier one of
/// the same name.
struct EntryTable {
    /// The entries.
    map: StringHashMap<SozipEntry>,
    /// Their names, each once.
    keys: Vec<String>,
}

impl EntryTable {
    /// The entries by name.
    closed spec fn entries(self) -> Map<Seq<char>, EntryModel> {
        self.map@.map_values(|entry: SozipEntry| entry@)
    }

    /// The keys are the names of the entries, each once, and every index is one that
    /// parsing gave.
    closed spec fn well_formed(self) -> bool {
        &&& forall|i: int|
            0 <= i < self.keys@.len() ==> self.map@.contains_key(#[trigger] self.keys@[i]@)
        &&& forall|name: Seq<char>| #[trigger]
            self.map@.contains_key(name) ==> exists|i: int|
                0 <= i < self.keys@.len() && #[trigger] self.keys@[i]@ == name
        &&& forall|i: int, j: int|
            0 <= i < j < self.keys@.len() ==> #[trigger] self.keys@[i]@ != #[trigger] self.keys@[j]@
        &&& forall|name: Seq<char>| #[trigger]
            self.map@.contains_key(name) ==> {
                &&& self.map@[name].name@ == name
                &&& self.map@[name].index@.well_formed()
                &&& self.map@[name].index@.addressable()
            }
    }

    fn new() -> (table: Self)
        ensures
            table.well_formed(),
            table.entries() == Map::<Seq<char>, EntryModel>::empty(),
    {
        let table = EntryTable { map: StringHashMap::new(), keys: Vec::new() };
        assert(table.entries() =~= Map::empty());
        table
    }

    fn insert(&mut self, entry: SozipEntry)
        requires
            old(self).well_formed(),
            entry.index@.well_formed(),
            entry.index@.addressable(),
        ensures
            final(self).well_formed(),
            final(self).entries() == old(self).entries().insert(entry.name@, entry@),
    {
        let name = entry.name.clone();
        if !self.map.contains_key(name.as_str()) {
            self.keys.push(entry.name.clone());
        }
        self.map.insert(name, entry);
        proof {
            let keys = self.keys@;
            assert(self.entries() =~= old(self).entries().insert(entry.name@, entry@));
            assert forall|k: Seq<char>| #[trigger] self.map@.contains_key(k) implies exists|i: int|
                0 <= i < self.keys@.len() && #[trigger] self.keys@[i]@ == k by {
                if old(self).map@.contains_key(k) {
                    let i = choose|i: int|
                        0 <= i < old(self).keys@.len() && #[trigger] old(self).keys@[i]@ == k;
                    assert(keys[i]@ == k);
                } else {
                    assert(keys[keys.len() - 1]@ == k);
                }
            }
            assert forall|i: int| 0 <= i < keys.len() implies self.map@.contains_key(
                #[trigger] keys[i]@,
            ) by {
                if i < old(self).keys@.len() {
                    assert(keys[i] == old(self).keys@[i]);
                    assert(old(self).map@.contains_key(keys[i]@));
                }
            }
            assert forall|i: int, j: int| 0 <= i < j < keys.len() implies #[trigger] keys[i]@
                != #[trigger] keys[j]@ by {
                assert(keys[i] == old(self).keys@[i]);
                assert(old(self).map@.contains_key(old(self).keys@[i]@));
                if j < old(self).keys@.len() {
                    assert(keys[j] == old(self).keys@[j]);
                }
            }
            assert forall|k: Seq<char>| #[trigger] self.map@.contains_key(k) implies {
                &&& self.map@[k].name@ == k
                &&& self.map@[k].index@.well_formed()
                &&& self.map@[k].index@.addressable()
            } by {
                if k != entry.name@ {
                    assert(old(self).map@.contains_key(k));
                }
            }
        }
    }

    fn get(&self, name: &str) -> (entry: Option<&SozipEntry>)
        requires
            self.well_formed(),
        ensures
            match entry {
                Some(entry) => {
                    &&& self.entries().contains_key(name@)
                    &&& entry@ == self.entries()[name@]
                    &&& entry.index@.well_formed()
                    &&& entry.index@.addressable()
                },
                None => !self.entries().contains_key(name@),
            },
    {
        self.map.get(name)
    }
}

/// A SOZip-aware archive.
pub struct SozipArchive<R> {
    /// The archive itself.
    reader: R,
    /// The SOZip-enabled entries.
    entries: EntryTable,
    /// The names of all files but index files, in order.
    file_names: Vec<String>,
}

/// The texts of a sequence of strings.
pub open spec fn texts(strings: Seq<String>) -> Seq<Seq<char>> {
    strings.map_values(|string: String| string@)
}

impl<R> SozipArchive<R> {
    /// The archive itself.
    pub closed spec fn source(self) -> R {
        self.reader
    }

    /// The names of all files but index files, in order.
    pub closed spec fn files(self) -> Seq<Seq<char>> {
        texts(self.file_names@)
    }

    /// The SOZip-enabled entries by name.
    pub closed spec fn entries(self) -> Map<Seq<char>, EntryModel> {
        self.entries.entries()
    }

    /// What holds of every archive that was opened.
    pub closed spec fn well_formed(self) -> bool {
        self.entries.well_formed()
    }

    /// Access to the archive itself.
    pub fn reader_mut(&mut self) -> (reader: &mut R)
        ensures
            *reader == old(self).source(),
            final(self).source() == *final(reader),
            final(self).files() == old(self).files(),
            final(self).entries() == old(self).entries(),
            old(self).well_formed() ==> final(self).well_formed(),
    {
        &mut self.reader
    }

    /// Gives back the archive itself.
    pub fn into_inner(self) -> (reader: R)
        ensures
            reader == self.source(),
    {
        self.reader
    }

    /// The names of all files, SOZip-enabled or not, except index files.
    pub fn file_names(&self) -> (names: &[String])
        ensures
            texts(names@) == self.files(),
    {
        self.file_names.as_slice()
    }

    /// The names of the SOZip-enabled entries, each once.
    pub fn sozip_entries(&self) -> (names: Vec<&str>)
        requires
            self.well_formed(),
        ensures
            names@.map_values(|name: &str| name@).no_duplicates(),
            names@.map_values(|name: &str| name@).to_set() == self.entries().dom(),
    {
        let mut names: Vec<&str> = Vec::new();
        let keys = &self.entries.keys;
        let mut i: usize = 0;
        while i < keys.len()
            invariant
                i <= keys@.len(),
                names@.len() == i,
                forall|j: int| 0 <= j < i ==> #[trigger] names@[j]@ == keys@[j]@,
            decreases keys@.len() - i,
        {
            names.push(keys[i].as_str());
            i += 1;
        }
        proof {
            let found = names@.map_values(|name: &str| name@);
            assert forall|name: Seq<char>| self.entries().dom().contains(name) implies #[trigger]
                found.to_set().contains(name) by {
                assert(self.entries.map@.contains_key(name));
                let i = choose|i: int| 0 <= i < keys@.len() && #[trigger] keys@[i]@ == name;
                assert(found[i] == name);
            }
            assert forall|name: Seq<char>| #[trigger] found.to_set().contains(
                name,
            ) implies self.entries().dom().contains(name) by {
                let i = choose|i: int| 0 <= i < found.len() && found[i] == name;
                assert(keys@[i]@ == name);
                assert(self.entries.map@.contains_key(name));
            }
            assert(found.to_set() =~= self.entries().dom());
            assert forall|i: int, j: int|
                0 <= i < found.len() && 0 <= j < found.len() && i != j implies found[i]
                != found[j] by {
                assert(found[i] == keys@[i]@);
                assert(found[j] == keys@[j]@);
            }
        }
        names
    }

    /// Whether an entry is SOZip-enabled.
    pub fn is_sozip(&self, name: &str) -> (yes: bool)
        requires
            self.well_formed(),
        ensures
            yes == self.entries().contains_key(name@),
    {
        self.entries.get(name).is_some()
    }

    /// What is known of a SOZip-enabled entry.
    pub fn entry_info(&self, name: &str) -> (entry: Option<&SozipEntry>)
        requires
            self.well_formed(),
        ensures
            match entry {
                Some(entry) => {
                    &&& self.entries().contains_key(name@)
                    &&& entry@ == self.entries()[name@]
                    &&& entry.index@.well_formed()
                    &&& entry.index@.addressable()
                },
                None => !self.entries().contains_key(name@),
            },
    {
        self.entries.get(name)
    }

    /// The SOZip status of every file, in order.
    pub fn validate(&self) -> (results: Vec<ValidationResult>)
        requires
            self.well_formed(),
        ensures
            results@.len() == self.files().len(),
            forall|i: int|
                0 <= i < results@.len() ==> validated(
                    #[trigger] results@[i],
                    self.files()[i],
                    self.entries(),
                ),
    {
        let mut results: Vec<ValidationResult> = Vec::new();
        let mut i: usize = 0;
        while i < self.file_names.len()
            invariant
                self.well_formed(),
                i <= self.file_names@.len(),
                results@.len() == i,
                forall|j: int|
                    0 <= j < i ==> validated(
                        #[trigger] results@[j],
                        self.file_names@[j]@,
                        self.entries(),
                    ),
            decreases self.file_names@.len() - i,
        {
            let name = self.file_names[i].clone();
            let result = match self.entries.get(name.as_str()) {
                Some(entry) => ValidationResult {
                    name,
                    sozip: true,
                    chunk_size: Some(entry.index.chunk_size),
                    num_chunks: Some(entry.index.num_chunks()),
                },
                None => ValidationResult {
                    name,
                    sozip: false,
                    chunk_size: None,
                    num_chunks: None,
                },
            };
            results.push(result);
            i += 1;
        }
        results
    }
}

/// `result` is the SOZip status of the file `name`.
pub open spec fn validated(
    result: ValidationResult,
    name: Seq<char>,
    entries: Map<Seq<char>, EntryModel>,
) -> bool {
    &&& result.name@ == name
    &&& result.sozip == entries.contains_key(name)
    &&& if entries.contains_key(name) {
        &&& result.chunk_size == Some(entries[name].index.chunk_size)
        &&& result.num_chunks matches Some(count) && count == entries[name].index.num_chunks()
    } else {
        &&& result.chunk_size is None
        &&& result.num_chunks is None
    }
}

/// Where the index of an entry is to be looked for.
pub enum Lookup {
    /// All entries are done.
    Finished,
    /// It need not be looked for: it is listed in the directory, or nothing can follow
    /// the entry.
    Known(Option<Vec<u8>>),
    /// It may stand at `offset` of the archive, as a file called `name`.
    Orphan { offset: u64, name: String },
}

/// What the directory entries of a vector say.
pub open spec fn metas(entries: Seq<EntryMeta>) -> Seq<MetaModel> {
    entries.map_values(|entry: EntryMeta| entry@)
}

/// The search for the chunk indexes of an archive.
///
/// It is made from the central directory. Then [`Discovery::next_index`] names the
/// index files to read and [`Discovery::supply_index`] takes them; after that
/// [`Discovery::next_lookup`] says where to look for the index of the next entry and
/// [`Discovery::resolve`] takes what was found.
pub struct Discovery {
    /// The entries that are not index files.
    data: Vec<EntryMeta>,
    /// The names of the index files that the directory lists.
    index_names: Vec<String>,
    /// Their positions in the directory.
    index_places: Vec<usize>,
    /// How many of them were read.
    loaded: usize,
    /// The contents of those, by name.
    payloads: StringHashMap<Vec<u8>>,
    /// How many entries are done.
    done: usize,
    /// The SOZip-enabled ones among these.
    found: EntryTable,
}

impl Discovery {
    /// The entries that are not index files.
    pub closed spec fn data(self) -> Seq<MetaModel> {
        metas(self.data@)
    }

    /// The index files that the directory lists: their names and positions.
    pub closed spec fn indexes(self) -> Seq<(Seq<char>, usize)> {
        Seq::new(self.index_names@.len(), |i: int| (self.index_names@[i]@, self.index_places@[i]))
    }

    /// How many of the index files were read.
    pub closed spec fn loaded(self) -> nat {
        self.loaded as nat
    }

    /// The contents of those, by name.
    pub closed spec fn payloads(self) -> Map<Seq<char>, Seq<u8>> {
        self.payloads@.map_values(|payload: Vec<u8>| payload@)
    }

    /// How many entries are done.
    pub closed spec fn done(self) -> nat {
        self.done as nat
    }

    /// The SOZip-enabled ones among these.
    pub closed spec fn found(self) -> Map<Seq<char>, EntryModel> {
        self.found.entries()
    }

    /// What holds at every stage of the search.
    pub closed spec fn well_formed(self) -> bool {
        &&& self.index_names.len() == self.index_places.len()
        &&& self.loaded <= self.index_names.len()
        &&& self.done <= self.data.len()
        &&& self.found.well_formed()
    }

    /// Starts a search with the central directory of an archive.
    pub fn new(listing: Vec<EntryMeta>) -> (search: Self)
        ensures
            search.well_formed(),
            search.data() == data_entries(metas(listing@)),
            search.indexes() == index_files(metas(listing@)),
            search.loaded() == 0,
            search.payloads() == Map::<Seq<char>, Seq<u8>>::empty(),
            search.done() == 0,
            search.found() == Map::<Seq<char>, EntryModel>::empty(),
    {
        let mut search = Discovery {
            data: Vec::new(),
            index_names: Vec::new(),
            index_places: Vec::new(),
            loaded: 0,
            payloads: StringHashMap::new(),
            done: 0,
            found: EntryTable::new(),
        };
        assert(search.payloads() =~= Map::empty());
        assert(search.data() =~= data_entries(metas(listing@).take(0)));
        assert(search.indexes() =~= index_files(metas(listing@).take(0)));
        let mut i: usize = 0;
        while i < listing.len()
            invariant
                i <= listing@.len(),
                search.well_formed(),
                search.data() == data_entries(metas(listing@).take(i as int)),
                search.indexes() == index_files(metas(listing@).take(i as int)),
                search.loaded() == 0,
                search.payloads() == Map::<Seq<char>, Seq<u8>>::empty(),
                search.done() == 0,
                search.found() == Map::<Seq<char>, EntryModel>::empty(),
            decreases listing@.len() - i,
        {
            let entry = &listing[i];
            let ghost before = search;
            assert(metas(listing@).take(i + 1).drop_last() =~= metas(listing@).take(i as int));
            assert(metas(listing@).take(i + 1).last() == entry@);
            if index::is_index_file(entry.name.as_str()) {
                search.index_names.push(entry.name.clone());
                search.index_places.push(i);
                assert(search.indexes() =~= before.indexes().push((entry.name@, i)));
            } else {
                search.data.push(entry.clone());
                assert(search.data() =~= before.data().push(entry@));
            }
            i += 1;
        }
        assert(metas(listing@).take(listing@.len() as int) =~= metas(listing@));
        search
    }

    /// The position in the directory of the next index file to read.
    pub fn next_index(&self) -> (place: Option<usize>)
        requires
            self.well_formed(),
        ensures
            match place {
                Some(place) => self.loaded() < self.indexes().len() && place
                    == self.indexes()[self.loaded() as int].1,
                None => self.loaded() == self.indexes().len(),
            },
    {
        if self.loaded < self.index_places.len() {
            Some(self.index_places[self.loaded])
        } else {
            None
        }
    }

    /// Takes the contents of the next index file.
    pub fn supply_index(&mut self, payload: Vec<u8>)
        requires
            old(self).well_formed(),
            old(self).loaded() < old(self).indexes().len(),
        ensures
            final(self).well_formed(),
            final(self).data() == old(self).data(),
            final(self).indexes() == old(self).indexes(),
            final(self).loaded() == old(self).loaded() + 1,
            final(self).payloads() == old(self).payloads().insert(
                old(self).indexes()[old(self).loaded() as int].0,
                payload@,
            ),
            final(self).done() == old(self).done(),
            final(self).found() == old(self).found(),
    {
        let name = self.index_names[self.loaded].clone();
        self.payloads.insert(name, payload);
        self.loaded = self.loaded + 1;
        assert(self.payloads() =~= old(self).payloads().insert(name@, payload@));
    }

    /// Says where to look for the index of the next entry.
    ///
    /// An index file that the directory lists comes first; otherwise it may stand right
    /// behind the compressed data of the entry.
    pub fn next_lookup(&self) -> (lookup: Lookup)
        requires
            self.well_formed(),
        ensures
            match lookup {
                Lookup::Finished => self.done() == self.data().len(),
                Lookup::Known(payload) => {
                    &&& self.done() < self.data().len()
                    &&& known_payload(
                        self.data()[self.done() as int],
                        self.payloads(),
                    ) == Some(option_model(payload))
                },
                Lookup::Orphan { offset, name } => {
                    &&& self.done() < self.data().len()
                    &&& known_payload(self.data()[self.done() as int], self.payloads()) is None
                    &&& offset == data_end(self.data()[self.done() as int])
                    &&& name@ == index::hidden_name(self.data()[self.done() as int].name)
                },
            },
    {
        if self.done == self.data.len() {
            return Lookup::Finished;
        }
        let meta = &self.data[self.done];
        assert(meta@ == self.data()[self.done as int]);
        let name = index::index_filename(meta.name.as_str());
        match self.payloads.get(name.as_str()) {
            Some(payload) => {
                return Lookup::Known(Some(slice_to_vec(payload.as_slice())));
            },
            None => {},
        }
        match meta.data_start.checked_add(meta.compressed_size) {
            Some(offset) => Lookup::Orphan { offset, name },
            None => Lookup::Known(None),
        }
    }

    /// Takes the contents of the index file of the next entry, if one was found.
    ///
    /// Contents that are no index are passed over. An index that disagrees with the
    /// directory on a size is an error.
    pub fn resolve(&mut self, payload: Option<Vec<u8>>) -> (result: Result<(), SozipError>)
        requires
            old(self).well_formed(),
            old(self).done() < old(self).data().len(),
        ensures
            final(self).well_formed(),
            final(self).data() == old(self).data(),
            final(self).indexes() == old(self).indexes(),
            final(self).loaded() == old(self).loaded(),
            final(self).payloads() == old(self).payloads(),
            match result {
                Ok(_) => {
                    &&& final(self).done() == old(self).done() + 1
                    &&& recorded(
                        old(self).found(),
                        old(self).data()[old(self).done() as int],
                        option_model(payload),
                    ) == Ok::<Map<Seq<char>, EntryModel>, ErrorModel>(final(self).found())
                },
                Err(error) => {
                    &&& final(self).done() == old(self).done()
                    &&& final(self).found() == old(self).found()
                    &&& recorded(
                        old(self).found(),
                        old(self).data()[old(self).done() as int],
                        option_model(payload),
                    ) == Err::<Map<Seq<char>, EntryModel>, ErrorModel>(error@)
                },
            },
    {
        let meta = &self.data[self.done];
        assert(meta@ == self.data()[self.done as int]);
        let data = match payload {
            Some(data) => data,
            None => {
                self.done = self.done + 1;
                return Ok(());
            },
        };
        let index = match SozipIndex::from_bytes(data.as_slice()) {
            Ok(index) => index,
            Err(_) => {
                self.done = self.done + 1;
                return Ok(());
            },
        };
        if index.uncompressed_size != meta.uncompressed_size {
            return Err(
                SozipError::SizeMismatch {
                    index_size: index.uncompressed_size,
                    entry_size: meta.uncompressed_size,
                },
            );
        }
        if index.compressed_size != meta.compressed_size {
            return Err(
                SozipError::SizeMismatch {
                    index_size: index.compressed_size,
                    entry_size: meta.compressed_size,
                },
            );
        }
        let entry = SozipEntry {
            name: meta.name.clone(),
            uncompressed_size: meta.uncompressed_size,
            compressed_size: meta.compressed_size,
            data_start: meta.data_start,
            index,
        };
        self.found.insert(entry);
        self.done = self.done + 1;
        Ok(())
    }

    /// Ends a search in which all entries are done.
    pub fn finish<R>(self, reader: R) -> (archive: SozipArchive<R>)
        requires
            self.well_formed(),
            self.done() == self.data().len(),
        ensures
            archive.well_formed(),
            archive.source() == reader,
            archive.files() == names_of(self.data()),
            archive.entries() == self.found(),
    {
        let mut file_names: Vec<String> = Vec::new();
        let mut i: usize = 0;
        while i < self.data.len()
            invariant
                i <= self.data@.len(),
                file_names@.len() == i,
                forall|j: int| 0 <= j < i ==> #[trigger] file_names@[j]@ == self.data@[j].name@,
            decreases self.data@.len() - i,
        {
            file_names.push(self.data[i].name.clone());
            i += 1;
        }
        assert(texts(file_names@) =~= names_of(self.data()));
        SozipArchive { reader, entries: self.found, file_names }
    }
}

/// The bytes of an optional vector.
pub open spec fn option_model(payload: Option<Vec<u8>>) -> Option<Seq<u8>> {
    match payload {
        Some(payload) => Some(payload@),
        None => None,
    }
}

/// Where the compressed data of an entry ends.
pub open spec fn data_end(meta: MetaModel) -> int {
    meta.data_start + meta.compressed_size
}

/// The contents of the index file of an entry, as far as they are known without
/// looking behind the entry: an index file that the directory lists, or none if no
/// position can follow the entry.
pub open spec fn known_payload(meta: MetaModel, payloads: Map<Seq<char>, Seq<u8>>) -> Option<
    Option<Seq<u8>>,
> {
    if payloads.contains_key(index::hidden_name(meta.name)) {
        Some(Some(payloads[index::hidden_name(meta.name)]))
    } else if data_end(meta) > u64::MAX {
        Some(None)
    } else {
        None
    }
}

} // verus!
