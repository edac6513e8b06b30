//! Entries to try archives on.

use crate::builder::{
    all_data_exact, external_attributes, has_name, too_long, Builder, BuilderFileType, BuilderPermissions,
};
use crate::crc32::crc32_of;
use crate::entry_data::{bytes_clone, bytes_contents};
use crate::layout::{archive_size, lemma_parts_fit, lemma_sizes_same, FileView};
use crate::reader::Reader;
use crate::structs::DosDatetime;
use bytes::Bytes;
use std::ops::Range;
use vstd::prelude::*;

verus! {

/// How entries are made up.
#[derive(Debug)]
pub struct ArbitraryTestEntryDataParams {
    /// How many entries to generate
    pub count_range: Range<usize>,
    /// How much data can an entry have
    pub max_size: usize,
    /// Which strings to use for filenames
    pub entry_name_pattern: &'static str,
}

/// How readers are made up.
#[derive(Debug)]
pub struct ArbitraryReaderParams {
    /// Parameters for generating the entries
    pub entries: ArbitraryTestEntryDataParams,
    /// Controls whether the reader should also be sought to a random position.
    pub seek: bool,
}

impl Clone for ArbitraryTestEntryDataParams {
    fn clone(&self) -> (copy: ArbitraryTestEntryDataParams)
        ensures
            copy == *self,
    {
        ArbitraryTestEntryDataParams {
            count_range: self.count_range.start..self.count_range.end,
            max_size: self.max_size,
            entry_name_pattern: self.entry_name_pattern,
        }
    }
}

impl Clone for ArbitraryReaderParams {
    fn clone(&self) -> (copy: ArbitraryReaderParams)
        ensures
            copy == *self,
    {
        ArbitraryReaderParams { entries: self.entries.clone(), seek: self.seek }
    }
}

impl Default for ArbitraryTestEntryDataParams {
    fn default() -> (params: ArbitraryTestEntryDataParams)
        ensures
            params.count_range.start == 0,
            params.count_range.end == 64,
            params.max_size == 512,
            params.entry_name_pattern@ == ".{0,30}"@,
    {
        ArbitraryTestEntryDataParams {
            count_range: 0..64,
            max_size: 512,
            entry_name_pattern: ".{0,30}",
        }
    }
}

impl Default for ArbitraryReaderParams {
    fn default() -> (params: ArbitraryReaderParams)
        ensures
            params.entries.count_range.start == 0,
            params.entries.count_range.end == 64,
            params.entries.max_size == 512,
            params.entries.entry_name_pattern@ == ".{0,30}"@,
            !params.seek,
    {
        ArbitraryReaderParams { entries: ArbitraryTestEntryDataParams::default(), seek: false }
    }
}

impl vstd::std_specs::convert::FromSpecImpl<ArbitraryReaderParams> for ArbitraryTestEntryDataParams {
    open spec fn obeys_from_spec() -> bool {
        true
    }

    open spec fn from_spec(params: ArbitraryReaderParams) -> ArbitraryTestEntryDataParams {
        params.entries
    }
}

impl From<ArbitraryReaderParams> for ArbitraryTestEntryDataParams {
    fn from(params: ArbitraryReaderParams) -> (entries: ArbitraryTestEntryDataParams) {
        params.entries
    }
}

/// Names and contents of entries.
pub struct TestEntryData(pub Vec<(String, Bytes)>);

/// A type that holds both a reader and the entries the reader contains.
pub struct ReaderAndData {
    pub reader: Reader<Bytes>,
    pub data: TestEntryData,
}

/// The entry that a name and a content make.
pub open spec fn test_file(named: (String, Bytes)) -> FileView {
    FileView {
        name: vstd::utf8::encode_utf8(named.0@),
        size: bytes_contents(named.1).len() as u64,
        content: bytes_contents(named.1),
        crc32: crc32_of(bytes_contents(named.1)),
        datetime: DosDatetime::spec_new(1980, 1, 1, 0, 0, 0)->0,
        external_attributes: external_attributes(BuilderFileType::File, BuilderPermissions::Rw),
    }
}

/// The entries that names and contents make.
pub open spec fn test_files(entries: Seq<(String, Bytes)>) -> Seq<FileView> {
    Seq::new(entries.len(), |i: int| test_file(entries[i]))
}

impl TestEntryData {
    /// All names are different and fit, and the archive is not too large.
    pub open spec fn wf(&self) -> bool {
        &&& forall|i: int, j: int|
            0 <= i < j < self.0@.len() ==> (#[trigger] self.0@[i]).0@ != (
            #[trigger] self.0@[j]).0@
        &&& forall|i: int| 0 <= i < self.0@.len() ==> !too_long((#[trigger] self.0@[i]).0@)
        &&& archive_size(test_files(self.0@)) <= u64::MAX
    }

    /// Puts all entries into a builder, in order.
    pub fn into_builder(self) -> (builder: Builder<Bytes>)
        requires
            self.wf(),
        ensures
            builder.wf(),
            builder.files() == test_files(self.0@),
            all_data_exact(builder.spec_entries()),
            builder.spec_entries().len() == self.0@.len(),
            forall|i: int|
                0 <= i < self.0@.len() ==> {
                    &&& (#[trigger] builder.spec_entries()[i]).0 == self.0@[i].0@
                    &&& builder.spec_entries()[i].1.spec_data() == self.0@[i].1
                },
    {
        let mut builder: Builder<Bytes> = Builder::new();
        let ghost all = self.0@;
        let ghost fs = test_files(all);
        for named in it: self.0.into_iter()
            invariant
                self.wf(),
                all == self.0@,
                it.seq() == all,
                fs == test_files(all),
                builder.wf(),
                all_data_exact(builder.spec_entries()),
                builder.spec_entries().len() == it.index(),
                builder.spec_time_converter() is None,
                forall|i: int|
                    0 <= i < it.index() ==> {
                        &&& (#[trigger] builder.spec_entries()[i]).0 == all[i].0@
                        &&& builder.spec_entries()[i].1.spec_data() == all[i].1
                    },
                builder.files() == fs.take(it.index()),
        {
            let ghost i = it.index();
            let ghost before = builder;
            let (name, content) = named;
            proof {
                assert(!too_long(all[i].0@));
                assert(!has_name(builder.spec_entries(), name@)) by {
                    if has_name(builder.spec_entries(), name@) {
                        let j = choose|j: int|
                            0 <= j < builder.spec_entries().len() && (
                            #[trigger] builder.spec_entries()[j]).0 == name@;
                        assert(all[j].0@ != all[i].0@);
                    }
                }
                lemma_parts_fit(fs, i as nat);
                lemma_sizes_same(fs.take(i), fs, i as nat);
                assert(fs[i] == test_file(all[i]));
            }
            let added = builder.add_entry_data(name, content);
            assert(added is Ok);
            proof {
                assert(builder.files() =~= fs.take(i + 1));
            }
        }
        assert(fs.take(fs.len() as int) =~= fs);
        builder
    }

    /// A reader of an archive of all entries, in order.
    pub fn into_reader(self) -> (reader: Reader<Bytes>)
        requires
            self.wf(),
        ensures
            reader.wf(),
            reader.files() == test_files(self.0@),
            reader.spec_tell() == 0,
            reader.on_track(),
            reader.prompt(),
            reader.counted(),
            reader.in_order(),
            reader.lists(),
    {
        self.into_builder().build()
    }
}

impl Clone for TestEntryData {
    fn clone(&self) -> (copy: TestEntryData)
        ensures
            copy.0@.len() == self.0@.len(),
            forall|i: int|
                0 <= i < self.0@.len() ==> {
                    &&& (#[trigger] copy.0@[i]).0@ == self.0@[i].0@
                    &&& bytes_contents(copy.0@[i].1) == bytes_contents(self.0@[i].1)
                },
            test_files(copy.0@) == test_files(self.0@),
            copy.wf() == self.wf(),
    {
        let mut entries: Vec<(String, Bytes)> = Vec::new();
        for i in 0..self.0.len()
            invariant
                entries@.len() == i,
                forall|j: int|
                    0 <= j < i ==> {
                        &&& (#[trigger] entries@[j]).0@ == self.0@[j].0@
                        &&& bytes_contents(entries@[j].1) == bytes_contents(self.0@[j].1)
                    },
        {
            entries.push((self.0[i].0.clone(), bytes_clone(&self.0[i].1)));
        }
        let copy = TestEntryData(entries);
        proof {
            assert(test_files(copy.0@) =~= test_files(self.0@));
            if copy.wf() {
                assert forall|i: int, j: int| 0 <= i < j < self.0@.len() implies (
                #[trigger] self.0@[i]).0@ != (#[trigger] self.0@[j]).0@ by {
                    assert(copy.0@[i].0@ != copy.0@[j].0@);
                }
                assert forall|i: int| 0 <= i < self.0@.len() implies !too_long(
                    (#[trigger] self.0@[i]).0@,
                ) by {
                    assert(!too_long(copy.0@[i].0@));
                }
            }
        }
        copy
    }
}

impl ReaderAndData {
    /// The reader reads an archive of just these entries.
    pub open spec fn wf(&self) -> bool {
        &&& self.reader.wf()
        &&& self.reader.on_track()
        &&& self.reader.prompt()
        &&& self.reader.counted()
        &&& self.reader.files() == test_files(self.data.0@)
    }

    /// Entries and a reader of them, at the start.
    pub fn new(data: TestEntryData) -> (both: ReaderAndData)
        requires
            data.wf(),
        ensures
            both.wf(),
            both.data == data,
            both.reader.spec_tell() == 0,
    {
        ReaderAndData { reader: data.clone().into_reader(), data }
    }

    /// The same entries and reader, which goes to `position`.
    pub fn sought(self, position: u64) -> (both: ReaderAndData)
        requires
            self.wf(),
        ensures
            both.wf(),
            both.data == self.data,
            both.reader.spec_entries() == self.reader.spec_entries(),
            both.reader.spec_tell() == position,
    {
        let mut both = self;
        both.reader.seek_from_start_mut(position);
        both
    }
}

} // verus!
