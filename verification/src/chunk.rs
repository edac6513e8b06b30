//! The pieces that an archive is produced in.

use crate::entry_data::EntryData;
use crate::layout::{
    all_complete, archive, archive_eocd, archive_size, cd_length, cd_part, cd_start, entry_offset,
    eocd_start, lemma_cd_length_monotonic, lemma_cd_part_at, lemma_cd_part_len,
    lemma_entry_offset_monotonic, lemma_eocd_len, lemma_local_part_at, lemma_local_part_len,
    local_part, FileView,
};
use crate::reader_entry::ReaderEntry;
use crate::structs::{
    CentralDirectoryHeader, DataDescriptor64, EndOfCentralDirectory, LocalFileHeader,
    PackedStructZippityExt, Zip64EndOfCentralDirectoryLocator, Zip64EndOfCentralDirectoryRecord,
    Zip64ExtraField,
};
use vstd::prelude::*;

verus! {

/// A piece of an archive.
#[derive(Clone, Copy, Debug, PartialEq, Eq, Structural)]
pub enum Chunk {
    LocalHeader { entry_index: usize },
    FileData { entry_index: usize },
    DataDescriptor { entry_index: usize },
    CDFileHeader { entry_index: usize },
    Eocd,
    /// There is nothing more.
    Finished,
}

impl Default for Chunk {
    fn default() -> (chunk: Chunk)
        ensures
            chunk == Chunk::Finished,
    {
        Chunk::Finished
    }
}

/// What the archive says of each entry, and holds for it.
pub open spec fn files<D: EntryData>(entries: Seq<ReaderEntry<D>>) -> Seq<FileView> {
    Seq::new(entries.len(), |i: int| entries[i].file())
}

/// The names of all entries fit, and there are readers unless the data is empty.
pub open spec fn entries_wf<D: EntryData>(entries: Seq<ReaderEntry<D>>) -> bool {
    forall|i: int| 0 <= i < entries.len() ==> (#[trigger] entries[i]).wf()
}

impl Chunk {
    /// The chunk belongs to an archive of `count` entries.
    pub open spec fn valid(self, count: nat) -> bool {
        match self {
            Chunk::LocalHeader { entry_index } => entry_index < count,
            Chunk::FileData { entry_index } => entry_index < count,
            Chunk::DataDescriptor { entry_index } => entry_index < count,
            Chunk::CDFileHeader { entry_index } => entry_index < count,
            Chunk::Eocd => true,
            Chunk::Finished => true,
        }
    }

    /// The first chunk of an archive of `count` entries.
    pub open spec fn first(count: nat) -> Chunk {
        if count == 0 {
            Chunk::Eocd
        } else {
            Chunk::LocalHeader { entry_index: 0 }
        }
    }

    /// The chunk that follows.
    pub open spec fn spec_next(self, count: nat) -> Chunk {
        match self {
            Chunk::LocalHeader { entry_index } => Chunk::FileData { entry_index },
            Chunk::FileData { entry_index } => Chunk::DataDescriptor { entry_index },
            Chunk::DataDescriptor { entry_index } => if entry_index + 1 < count {
                Chunk::LocalHeader { entry_index: (entry_index + 1) as usize }
            } else {
                Chunk::CDFileHeader { entry_index: 0 }
            },
            Chunk::CDFileHeader { entry_index } => if entry_index + 1 < count {
                Chunk::CDFileHeader { entry_index: (entry_index + 1) as usize }
            } else {
                Chunk::Eocd
            },
            Chunk::Eocd => Chunk::Finished,
            Chunk::Finished => Chunk::Finished,
        }
    }

    /// How many bytes the chunk has.
    pub open spec fn spec_size(self, files: Seq<FileView>) -> nat {
        match self {
            Chunk::LocalHeader { entry_index } => files[entry_index as int].local_header_size(),
            Chunk::FileData { entry_index } => files[entry_index as int].size as nat,
            Chunk::DataDescriptor { entry_index } => 24,
            Chunk::CDFileHeader { entry_index } => files[entry_index as int].cd_header_size(),
            Chunk::Eocd => 98,
            Chunk::Finished => 0,
        }
    }

    /// Where in the archive the chunk begins.
    pub open spec fn start(self, files: Seq<FileView>) -> nat {
        match self {
            Chunk::LocalHeader { entry_index } => entry_offset(files, entry_index as nat),
            Chunk::FileData { entry_index } => entry_offset(files, entry_index as nat)
                + files[entry_index as int].local_header_size(),
            Chunk::DataDescriptor { entry_index } => entry_offset(files, entry_index as nat)
                + files[entry_index as int].local_header_size()
                + files[entry_index as int].size as nat,
            Chunk::CDFileHeader { entry_index } => cd_start(files) + cd_length(
                files,
                entry_index as nat,
            ),
            Chunk::Eocd => eocd_start(files),
            Chunk::Finished => archive_size(files),
        }
    }

    /// The bytes of the chunk.
    pub open spec fn bytes(self, files: Seq<FileView>) -> Seq<u8> {
        match self {
            Chunk::LocalHeader { entry_index } => files[entry_index as int].local_header(
                entry_offset(files, entry_index as nat),
            ),
            Chunk::FileData { entry_index } => files[entry_index as int].content,
            Chunk::DataDescriptor { entry_index } => files[entry_index as int].descriptor(),
            Chunk::CDFileHeader { entry_index } => files[entry_index as int].cd_header(
                entry_offset(files, entry_index as nat),
            ),
            Chunk::Eocd => archive_eocd(files),
            Chunk::Finished => Seq::empty(),
        }
    }

    /// How many chunks are left, this one included.
    pub open spec fn rank(self, count: nat) -> int {
        match self {
            Chunk::LocalHeader { entry_index } => 4 * count - 3 * entry_index + 1,
            Chunk::FileData { entry_index } => 4 * count - 3 * entry_index,
            Chunk::DataDescriptor { entry_index } => 4 * count - 3 * entry_index - 1,
            Chunk::CDFileHeader { entry_index } => count - entry_index + 1,
            Chunk::Eocd => 1,
            Chunk::Finished => 0,
        }
    }

    /// Each chunk begins where the one before it ends.
    pub proof fn lemma_next(self, files: Seq<FileView>)
        requires
            self.valid(files.len()),
            self !is Finished,
            files.len() <= usize::MAX,
        ensures
            self.spec_next(files.len()).valid(files.len()),
            self.spec_next(files.len()).start(files) == self.start(files) + self.spec_size(files),
            0 <= self.spec_next(files.len()).rank(files.len()) < self.rank(files.len()),
    {
        match self {
            Chunk::DataDescriptor { entry_index } => {
                assert(entry_offset(files, (entry_index + 1) as nat) == entry_offset(
                    files,
                    entry_index as nat,
                ) + files[entry_index as int].local_size());
                assert(cd_length(files, 0) == 0);
            },
            Chunk::CDFileHeader { entry_index } => {
                assert(cd_length(files, (entry_index + 1) as nat) == cd_length(
                    files,
                    entry_index as nat,
                ) + files[entry_index as int].cd_header_size());
            },
            _ => {},
        }
    }

    /// No chunk lies outside of the archive.
    pub proof fn lemma_within(self, files: Seq<FileView>)
        requires
            self.valid(files.len()),
        ensures
            self.start(files) + self.spec_size(files) <= archive_size(files),
    {
        match self {
            Chunk::LocalHeader { entry_index } => {
                lemma_entry_offset_monotonic(files, entry_index as nat, files.len());
            },
            Chunk::FileData { entry_index } => {
                lemma_entry_offset_monotonic(files, entry_index as nat, files.len());
            },
            Chunk::DataDescriptor { entry_index } => {
                lemma_entry_offset_monotonic(files, entry_index as nat, files.len());
            },
            Chunk::CDFileHeader { entry_index } => {
                lemma_cd_length_monotonic(files, entry_index as nat, files.len());
            },
            _ => {},
        }
    }

    /// Chunks other than file data have the sizes that are reckoned with.
    pub proof fn lemma_header_size(self, files: Seq<FileView>)
        requires
            self.valid(files.len()),
            self !is FileData,
        ensures
            self.bytes(files).len() == self.spec_size(files),
    {
        match self {
            Chunk::LocalHeader { entry_index } | Chunk::DataDescriptor { entry_index }
            | Chunk::CDFileHeader { entry_index } => {
                files[entry_index as int].lemma_header_lens(
                    entry_offset(files, entry_index as nat),
                );
            },
            _ => {
                lemma_eocd_len(
                    files.len(),
                    cd_start(files),
                    cd_length(files, files.len()),
                    eocd_start(files),
                );
            },
        }
    }

    /// The archive holds the bytes of each chunk from its start on.
    pub proof fn lemma_bytes(self, files: Seq<FileView>)
        requires
            self.valid(files.len()),
            all_complete(files),
        ensures
            self.bytes(files).len() == self.spec_size(files),
            self.start(files) + self.spec_size(files) <= archive(files).len(),
            archive(files).subrange(
                self.start(files) as int,
                (self.start(files) + self.spec_size(files)) as int,
            ) == self.bytes(files),
    {
        crate::layout::lemma_archive_len(files);
        self.lemma_within(files);
        let n = files.len();
        lemma_local_part_len(files, n);
        lemma_cd_part_len(files, n);
        lemma_eocd_len(n, cd_start(files), cd_length(files, n), eocd_start(files));
        match self {
            Chunk::LocalHeader { entry_index } => {
                lemma_in_local_part(files, entry_index as nat);
            },
            Chunk::FileData { entry_index } => {
                lemma_in_local_part(files, entry_index as nat);
            },
            Chunk::DataDescriptor { entry_index } => {
                lemma_in_local_part(files, entry_index as nat);
            },
            Chunk::CDFileHeader { entry_index } => {
                let i = entry_index as nat;
                lemma_cd_part_at(files, n, i);
                files[i as int].lemma_header_lens(entry_offset(files, i));
                assert(cd_length(files, i + 1) == cd_length(files, i)
                    + files[i as int].cd_header_size());
                assert(archive(files).subrange(
                    self.start(files) as int,
                    (self.start(files) + self.spec_size(files)) as int,
                ) =~= cd_part(files, n).subrange(
                    cd_length(files, i) as int,
                    cd_length(files, i + 1) as int,
                ));
            },
            Chunk::Eocd => {
                assert(archive(files).subrange(
                    self.start(files) as int,
                    (self.start(files) + self.spec_size(files)) as int,
                ) =~= archive_eocd(files));
            },
            Chunk::Finished => {},
        }
    }

    /// The first chunk that is read of an archive with `entries`.
    pub fn new<D: EntryData>(entries: &[ReaderEntry<D>]) -> (chunk: Chunk)
        ensures
            chunk == Chunk::first(entries@.len()),
    {
        if entries.len() == 0 {
            Chunk::Eocd
        } else {
            Chunk::LocalHeader { entry_index: 0 }
        }
    }

    /// How many bytes the chunk has.
    pub fn size<D: EntryData>(&self, entries: &[ReaderEntry<D>]) -> (size: u64)
        requires
            self.valid(entries@.len()),
            self !is Finished,
            entries_wf(entries@),
        ensures
            size == self.spec_size(files(entries@)),
    {
        match *self {
            Chunk::LocalHeader { entry_index } => {
                let entry = &entries[entry_index];
                assert(entries@[entry_index as int].wf());
                LocalFileHeader::packed_size() + entry.name.as_str().as_bytes().len() as u64
                    + Zip64ExtraField::packed_size()
            },
            Chunk::FileData { entry_index } => entries[entry_index].size,
            Chunk::DataDescriptor { .. } => DataDescriptor64::packed_size(),
            Chunk::CDFileHeader { entry_index } => {
                let entry = &entries[entry_index];
                assert(entries@[entry_index as int].wf());
                CentralDirectoryHeader::packed_size() + entry.name.as_str().as_bytes().len() as u64
                    + Zip64ExtraField::packed_size()
            },
            Chunk::Eocd => {
                Zip64EndOfCentralDirectoryLocator::packed_size()
                    + Zip64EndOfCentralDirectoryRecord::packed_size()
                    + EndOfCentralDirectory::packed_size()
            },
            Chunk::Finished => 0,
        }
    }

    /// The chunk that follows.
    pub fn next<D: EntryData>(&self, entries: &[ReaderEntry<D>]) -> (chunk: Chunk)
        requires
            self.valid(entries@.len()),
            self !is Finished,
        ensures
            chunk == self.spec_next(entries@.len()),
    {
        let count: usize = entries.len();
        match *self {
            Chunk::LocalHeader { entry_index } => Chunk::FileData { entry_index },
            Chunk::FileData { entry_index } => Chunk::DataDescriptor { entry_index },
            Chunk::DataDescriptor { entry_index } => if entry_index + 1 < count {
                Chunk::LocalHeader { entry_index: entry_index + 1 }
            } else {
                Chunk::CDFileHeader { entry_index: 0 }
            },
            Chunk::CDFileHeader { entry_index } => if entry_index + 1 < count {
                Chunk::CDFileHeader { entry_index: entry_index + 1 }
            } else {
                Chunk::Eocd
            },
            Chunk::Eocd => Chunk::Finished,
            Chunk::Finished => Chunk::Finished,
        }
    }
}

/// The three chunks of an entry stand one after the other in the archive.
proof fn lemma_in_local_part(files: Seq<FileView>, i: nat)
    requires
        i < files.len(),
        all_complete(files),
    ensures
        ({
            let file = files[i as int];
            let offset = entry_offset(files, i) as int;
            let data = offset + file.local_header_size();
            &&& file.local_header(offset as nat).len() == file.local_header_size()
            &&& file.content.len() == file.size
            &&& file.descriptor().len() == 24
            &&& archive(files).subrange(offset, data) == file.local_header(offset as nat)
            &&& archive(files).subrange(data, data + file.size) == file.content
            &&& archive(files).subrange(data + file.size, data + file.size + 24)
                == file.descriptor()
        }),
{
    let file = files[i as int];
    let offset = entry_offset(files, i) as int;
    let data = offset + file.local_header_size();
    let n = files.len();
    assert(files[i as int].complete());
    file.lemma_header_lens(offset as nat);
    lemma_local_part_at(files, n, i);
    assert(entry_offset(files, i + 1) == offset + file.local_size());
    let part = local_part(files, n);
    let whole = file.local_entry(offset as nat);
    assert(part.subrange(offset, offset + file.local_size()) == whole);
    assert forall|a: int, b: int|
        0 <= a <= b <= whole.len() implies #[trigger] whole.subrange(a, b) == archive(
        files,
    ).subrange(offset + a, offset + b) by {
        assert(whole.subrange(a, b) =~= part.subrange(offset + a, offset + b));
        assert(part.subrange(offset + a, offset + b) =~= archive(files).subrange(
            offset + a,
            offset + b,
        ));
    }
    let h = file.local_header_size() as int;
    assert(whole.subrange(0, h) =~= file.local_header(offset as nat));
    assert(whole.subrange(h, h + file.size) =~= file.content);
    assert(whole.subrange(h + file.size, h + file.size + 24) =~= file.descriptor());
}

} // verus!
