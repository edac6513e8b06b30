//! Reading an archive from any position on.

use crate::chunk::{entries_wf, files, Chunk};
use crate::entry_data::EntryData;
use crate::error::{ReadError, ZippityError};
use crate::io::{Poll, ReadBuf};
use crate::layout::{
    all_complete, archive, archive_size, cd_length, cd_start, entry_offset, eocd_start,
    lemma_archive_len, lemma_entry_offset_monotonic, FileView,
};
use crate::read_state::{file_data_error, passes, saturating_sum, ReadState, Sizes};
use crate::reader_entry::{ReaderEntry, ReaderPinned};
use std::task::Context;
use vstd::prelude::*;

verus! {

/// The entries are placed one after the other, and the sizes are theirs.
pub open spec fn layout_matches<D: EntryData>(
    sizes: Sizes,
    entries: Seq<ReaderEntry<D>>,
) -> bool {
    let fs = files(entries);
    &&& entries_wf(entries)
    &&& entries.len() <= usize::MAX
    &&& sizes.cd_offset == cd_start(fs)
    &&& sizes.cd_size == cd_length(fs, fs.len())
    &&& sizes.eocd_offset == eocd_start(fs)
    &&& sizes.total_size == archive_size(fs)
    &&& forall|i: int|
        0 <= i < entries.len() ==> (#[trigger] entries[i]).offset == entry_offset(fs, i as nat)
}

/// The data of all entries is what it will be read as, and of the size that the headers give.
pub open spec fn all_exact<D: EntryData>(entries: Seq<ReaderEntry<D>>) -> bool {
    forall|i: int| 0 <= i < entries.len() ==> (#[trigger] entries[i]).exact()
}

/// The data of all entries is at hand.
pub open spec fn all_prompt<D: EntryData>(entries: Seq<ReaderEntry<D>>) -> bool {
    forall|i: int| 0 <= i < entries.len() ==> (#[trigger] entries[i]).data.prompt()
}

/// The entries are those `before`, but for the checksums.
pub open spec fn same_but_crc32s<D: EntryData>(
    entries: Seq<ReaderEntry<D>>,
    before: Seq<ReaderEntry<D>>,
) -> bool {
    &&& entries.len() == before.len()
    &&& forall|i: int|
        0 <= i < entries.len() ==> (#[trigger] entries[i]).same_but_crc32(before[i])
}

/// What was appended to `before` is what the archive holds from `position` on.
#[verifier::opaque]
pub open spec fn appended(
    fs: Seq<FileView>,
    position: int,
    before: Seq<u8>,
    after: Seq<u8>,
) -> bool {
    let size = after.len() - before.len();
    &&& before.is_prefix_of(after)
    &&& size > 0 ==> {
        &&& position + size <= archive(fs).len()
        &&& after == before + archive(fs).subrange(position, position + size)
    }
}

/// A position as it can be counted.
pub open spec fn capped(position: int) -> int {
    if position > u64::MAX {
        u64::MAX as int
    } else {
        position
    }
}

impl Chunk {
    /// How many entries of `count` have their data before this chunk.
    pub open spec fn data_before(self, count: nat) -> nat {
        match self {
            Chunk::LocalHeader { entry_index } => entry_index as nat,
            Chunk::FileData { entry_index } => entry_index as nat,
            Chunk::DataDescriptor { entry_index } => (entry_index + 1) as nat,
            _ => count,
        }
    }

    /// How many entries of `count` have all that precedes the central directory before this chunk.
    pub open spec fn entries_before(self, count: nat) -> nat {
        match self {
            Chunk::LocalHeader { entry_index } => entry_index as nat,
            Chunk::FileData { entry_index } => entry_index as nat,
            Chunk::DataDescriptor { entry_index } => entry_index as nat,
            _ => count,
        }
    }
}

impl ReadState {
    /// Where reading goes on if nothing is staged.
    pub open spec fn unstaged_position<D: EntryData>(&self, entries: Seq<ReaderEntry<D>>) -> int {
        self.current_chunk.start(files(entries)) + self.to_skip + self.chunk_processed_size
    }

    /// By the bytes that were counted, reading goes on at `position`: so far into the current
    /// chunk, or behind what is staged.
    #[verifier::opaque]
    pub open spec fn stands_at<D: EntryData>(
        &self,
        entries: Seq<ReaderEntry<D>>,
        position: int,
    ) -> bool {
        let fs = files(entries);
        let staged = self.staging_buffer@;
        &&& self.chunk_processed_size == 0 || self.to_skip < self.current_chunk.spec_size(fs)
        &&& if staged.len() == 0 {
            capped(position) == capped(self.unstaged_position(entries))
        } else {
            &&& self.chunk_processed_size == 0
            &&& self.to_skip < staged.len()
            &&& position + staged.len() - self.to_skip == self.current_chunk.start(fs)
        }
    }

    /// Everything before the current chunk was read, nothing was skipped: the checksums of the
    /// entries that lie behind are known, and their data had the sizes that the headers give.
    #[verifier::opaque]
    pub open spec fn in_order<D: EntryData>(
        &self,
        entries: Seq<ReaderEntry<D>>,
        pinned: ReaderPinned<D>,
    ) -> bool {
        let count = entries.len();
        let unstaged = self.staging_buffer@.len() == 0;
        &&& unstaged ==> self.to_skip == 0
        &&& forall|i: int|
            0 <= i < self.current_chunk.entries_before(count) ==> (
            #[trigger] entries[i]).crc32 is Some
        &&& forall|i: int|
            0 <= i < self.current_chunk.data_before(count) ==> (#[trigger] entries[i]).right_size()
        &&& self.current_chunk matches Chunk::FileData { entry_index } ==> {
            let data = &entries[entry_index as int].data;
            if unstaged {
                data.exact() && data.content().len() <= u64::MAX ==> self.stands_in(data, pinned)
            } else {
                pinned is Nothing && self.chunk_processed_size == 0
            }
        }
    }

    /// Nothing of the central directory was skipped: the checksums in all headers there that were
    /// read are known.
    #[verifier::opaque]
    pub open spec fn lists<D: EntryData>(&self, entries: Seq<ReaderEntry<D>>) -> bool {
        let fs = files(entries);
        let unstaged = self.staging_buffer@.len() == 0;
        match self.current_chunk {
            Chunk::CDFileHeader { entry_index } => {
                &&& unstaged ==> self.to_skip == 0
                &&& forall|i: int| 0 <= i < entry_index ==> (#[trigger] entries[i]).crc32 is Some
            },
            Chunk::Eocd | Chunk::Finished => forall|i: int|
                0 <= i < entries.len() ==> (#[trigger] entries[i]).crc32 is Some,
            _ => unstaged ==> self.current_chunk.start(fs) + self.to_skip <= cd_start(fs),
        }
    }

    /// Everything was read.
    pub open spec fn at_end(&self) -> bool {
        self.current_chunk is Finished && self.staging_buffer@.len() == 0
    }

    /// The current chunk is one of the archive's, and only file data is left half-way.
    pub open spec fn wf(&self, count: nat) -> bool {
        &&& self.current_chunk.valid(count)
        &&& self.current_chunk !is FileData ==> self.chunk_processed_size == 0
    }

    /// Something is open only while it is needed: while the current chunk is file data, or while
    /// the checksum that the current chunk holds is computed from all of the data.
    pub open spec fn opened_fits<D: EntryData>(
        &self,
        entries: Seq<ReaderEntry<D>>,
        pinned: ReaderPinned<D>,
    ) -> bool {
        pinned is Nothing || {
            &&& self.staging_buffer@.len() == 0
            &&& self.to_skip < self.current_chunk.spec_size(files(entries))
            &&& match self.current_chunk {
                Chunk::FileData { .. } => true,
                Chunk::DataDescriptor { entry_index } | Chunk::CDFileHeader { entry_index } => {
                    &&& entries[entry_index as int].crc32 is None
                    &&& entries[entry_index as int].size > 0
                    &&& pinned.in_order()
                },
                _ => false,
            }
        }
    }

    /// Reading goes on at `position`: what is staged leads up to the current chunk, and what is
    /// open is where the current chunk was left.
    #[verifier::opaque]
    pub open spec fn synced<D: EntryData>(
        &self,
        entries: Seq<ReaderEntry<D>>,
        pinned: ReaderPinned<D>,
        position: int,
    ) -> bool {
        let fs = files(entries);
        let start = self.current_chunk.start(fs) as int;
        let staged = self.staging_buffer@;
        &&& self.wf(entries.len())
        &&& if staged.len() == 0 {
            position == start + self.to_skip + self.chunk_processed_size
        } else {
            &&& self.chunk_processed_size == 0
            &&& self.to_skip < staged.len()
            &&& position + staged.len() - self.to_skip == start
            &&& staged.skip(self.to_skip as int) == archive(fs).subrange(position, start)
        }
        &&& if pinned is Nothing {
            self.chunk_processed_size == 0
        } else {
            &&& staged.len() == 0
            &&& self.to_skip < self.current_chunk.spec_size(fs)
            &&& match self.current_chunk {
                Chunk::FileData { entry_index } => self.stands_in(
                    &entries[entry_index as int].data,
                    pinned,
                ),
                Chunk::DataDescriptor { entry_index } | Chunk::CDFileHeader { entry_index } => {
                    &&& entries[entry_index as int].crc32 is None
                    &&& entries[entry_index as int].size > 0
                    &&& pinned.computes(&entries[entry_index as int].data)
                },
                _ => false,
            }
        }
    }

    /// Whether data is needed to go on: that of the current chunk, or that of which the current chunk
    /// holds the checksum, which is not known.
    pub open spec fn asks_for_data<D: EntryData>(&self, entries: Seq<ReaderEntry<D>>) -> bool {
        match self.current_chunk {
            Chunk::FileData { .. } => true,
            Chunk::DataDescriptor { entry_index } | Chunk::CDFileHeader { entry_index } => {
                &&& entries[entry_index as int].crc32 is None
                &&& entries[entry_index as int].size > 0
            },
            _ => false,
        }
    }

    /// Whether `error` is about the data that the current chunk asks for.
    pub open spec fn fails_by<D: EntryData>(
        &self,
        entries: Seq<ReaderEntry<D>>,
        error: ReadError<D::Error>,
    ) -> bool {
        match self.current_chunk {
            Chunk::FileData { entry_index }
            | Chunk::DataDescriptor { entry_index }
            | Chunk::CDFileHeader { entry_index } => error.concerns(
                entries[entry_index as int].name,
                entries[entry_index as int].size,
            ),
            _ => false,
        }
    }

    /// Whether what was open `before` was kept while data was waited for, if the current chunk is
    /// still the same.
    pub open spec fn keeps_open<D: EntryData>(
        &self,
        before: ReadState,
        pinned_before: ReaderPinned<D>,
        pinned: ReaderPinned<D>,
    ) -> bool {
        &&& pinned !is Nothing
        &&& self.current_chunk == before.current_chunk ==> pinned.continues(pinned_before)
    }

    /// Whether what was open `before` did not fall back while data was waited for, if the current
    /// chunk is still the same.
    pub open spec fn not_behind<D: EntryData>(
        &self,
        before: ReadState,
        entries: Seq<ReaderEntry<D>>,
        pinned_before: ReaderPinned<D>,
        pinned: ReaderPinned<D>,
    ) -> bool {
        self.current_chunk == before.current_chunk ==> match self.current_chunk {
            Chunk::FileData { entry_index }
            | Chunk::DataDescriptor { entry_index }
            | Chunk::CDFileHeader { entry_index } => pinned.not_behind(
                pinned_before,
                &entries[entry_index as int].data,
            ),
            _ => true,
        }
    }

    /// What the next read will find wrong, if anything: all data of an entry was read, and has not
    /// the size that was reported, or was read in order and has not the checksum that was given.
    pub open spec fn pending_error<D: EntryData>(
        &self,
        entries: Seq<ReaderEntry<D>>,
        pinned: ReaderPinned<D>,
    ) -> Option<ZippityError> {
        match self.current_chunk {
            Chunk::FileData { entry_index } => {
                let entry = entries[entry_index as int];
                let at = self.chunk_processed_size + self.to_skip;
                if self.staging_buffer@.len() == 0 && self.to_skip < entry.size
                    && entry.data.exact() && self.stands_in(&entry.data, pinned) && at
                    >= entry.data.content().len() {
                    file_data_error(
                        entry.name,
                        entry.size,
                        at as u64,
                        entry.crc32,
                        self.computed_crc32(&entry.data, pinned),
                    )
                } else {
                    None
                }
            },
            _ => None,
        }
    }
}

/// Where the entries are does not depend on their checksums.
proof fn lemma_offsets_same<D: EntryData>(
    entries: Seq<ReaderEntry<D>>,
    before: Seq<ReaderEntry<D>>,
    i: nat,
)
    requires
        same_but_crc32s(entries, before),
        i <= entries.len(),
    ensures
        entry_offset(files(entries), i) == entry_offset(files(before), i),
        cd_length(files(entries), i) == cd_length(files(before), i),
    decreases i,
{
    if i > 0 {
        lemma_offsets_same(entries, before, (i - 1) as nat);
        assert(entries[i - 1].same_but_crc32(before[i - 1]));
    }
}

/// The layout does not depend on the checksums.
proof fn lemma_layout_same<D: EntryData>(
    sizes: Sizes,
    entries: Seq<ReaderEntry<D>>,
    before: Seq<ReaderEntry<D>>,
)
    requires
        layout_matches(sizes, before),
        same_but_crc32s(entries, before),
    ensures
        layout_matches(sizes, entries),
{
    lemma_offsets_same(entries, before, entries.len());
    assert forall|i: int| 0 <= i < entries.len() implies (#[trigger] entries[i]).wf() by {
        assert(before[i].wf());
        assert(entries[i].same_but_crc32(before[i]));
    }
    assert forall|i: int| 0 <= i < entries.len() implies (#[trigger] entries[i]).offset
        == entry_offset(files(entries), i as nat) by {
        lemma_offsets_same(entries, before, i as nat);
        assert(entries[i].same_but_crc32(before[i]));
        assert(before[i].offset == entry_offset(files(before), i as nat));
    }
}

/// Changing the checksum of one entry changes only that.
proof fn lemma_update_same<D: EntryData>(
    entries: Seq<ReaderEntry<D>>,
    first: Seq<ReaderEntry<D>>,
    i: int,
    entry: ReaderEntry<D>,
)
    requires
        same_but_crc32s(entries, first),
        0 <= i < entries.len(),
        entry.same_but_crc32(entries[i]),
    ensures
        same_but_crc32s(entries.update(i, entry), first),
        same_but_crc32s(entries.update(i, entry), entries),
        all_exact(entries) ==> all_exact(entries.update(i, entry)),
        entry.file() == entries[i].file() ==> files(entries.update(i, entry)) == files(entries),
{
    let new = entries.update(i, entry);
    assert forall|j: int| 0 <= j < new.len() implies (#[trigger] new[j]).same_but_crc32(
        first[j],
    ) && new[j].same_but_crc32(entries[j]) by {
        assert(entries[j].same_but_crc32(first[j]));
    }
    if all_exact(entries) {
        assert forall|j: int| 0 <= j < new.len() implies (#[trigger] new[j]).exact() by {
            assert(entries[j].exact());
        }
    }
    if entry.file() == entries[i].file() {
        assert(files(new) =~= files(entries));
    }
}

/// Entries that are the same but for the checksums stay so.
pub proof fn lemma_same_transitive<D: EntryData>(
    third: Seq<ReaderEntry<D>>,
    second: Seq<ReaderEntry<D>>,
    first: Seq<ReaderEntry<D>>,
)
    requires
        same_but_crc32s(third, second),
        same_but_crc32s(second, first),
    ensures
        same_but_crc32s(third, first),
{
    assert forall|i: int| 0 <= i < third.len() implies (#[trigger] third[i]).same_but_crc32(
        first[i],
    ) by {
        assert(third[i].same_but_crc32(second[i]));
        assert(second[i].same_but_crc32(first[i]));
    }
}

/// Exact entries make a complete archive.
pub proof fn lemma_exact_complete<D: EntryData>(entries: Seq<ReaderEntry<D>>)
    requires
        entries_wf(entries),
        all_exact(entries),
    ensures
        all_complete(files(entries)),
{
    assert forall|i: int| 0 <= i < files(entries).len() implies (#[trigger] files(
        entries,
    )[i]).complete() by {
        assert(entries[i].exact());
        assert(entries[i].wf());
    }
}

/// What is appended in two steps is appended in one.
pub proof fn lemma_appended_more(
    fs: Seq<FileView>,
    position: int,
    first: Seq<u8>,
    second: Seq<u8>,
    third: Seq<u8>,
)
    requires
        0 <= position,
        appended(fs, position, first, second),
        appended(fs, position + second.len() - first.len(), second, third),
    ensures
        appended(fs, position, first, third),
{
    reveal(appended);
    let middle = position + second.len() - first.len();
    let end = middle + third.len() - second.len();
    if third.len() > second.len() {
        if second.len() > first.len() {
            assert(archive(fs).subrange(position, end) =~= archive(fs).subrange(position, middle)
                + archive(fs).subrange(middle, end));
            assert(third =~= first + archive(fs).subrange(position, end));
        } else {
            assert(second =~= first);
        }
    } else {
        assert(third =~= second);
    }
    assert(first.is_prefix_of(third));
}

/// A chunk that passed was appended, and what is staged leads up to the next one.
proof fn lemma_chunk_passed(
    fs: Seq<FileView>,
    s0: ReadState,
    o0: ReadBuf,
    s1: ReadState,
    o1: ReadBuf,
)
    requires
        all_complete(fs),
        fs.len() <= usize::MAX,
        s0.current_chunk.valid(fs.len()),
        s0.current_chunk !is Finished,
        s0.chunk_processed_size == 0,
        s0.staging_buffer@.len() == 0,
        s0.to_skip < s0.current_chunk.spec_size(fs) <= u64::MAX,
        passes(s0.current_chunk.bytes(fs), s0, o0, s1, o1),
    ensures
        s1.chunk_processed_size == s0.current_chunk.spec_size(fs),
        appended(fs, s0.current_chunk.start(fs) + s0.to_skip, o0@, o1@),
        ({
            let position = s0.current_chunk.start(fs) + s0.to_skip + o1@.len() - o0@.len();
            let next = s0.current_chunk.spec_next(fs.len()).start(fs);
            let staged = s1.staging_buffer@;
            if staged.len() == 0 {
                &&& s1.to_skip == 0
                &&& position == next
            } else {
                &&& s1.to_skip < staged.len()
                &&& position + staged.len() - s1.to_skip == next
                &&& staged.skip(s1.to_skip as int) == archive(fs).subrange(position, next as int)
            }
        }),
{
    reveal(appended);
    let chunk = s0.current_chunk;
    let bytes = chunk.bytes(fs);
    let start = chunk.start(fs) as int;
    let skip = s0.to_skip as int;
    let added = o1@.skip(o0@.len() as int);
    let position = start + skip + added.len();
    let next = start + bytes.len();
    chunk.lemma_bytes(fs);
    chunk.lemma_next(fs);
    let rest = bytes.skip(skip);
    assert(rest =~= archive(fs).subrange(start + skip, next));
    assert(o1@ =~= o0@ + added);
    if s1.staging_buffer@.len() == 0 {
        assert(added == rest);
    } else {
        let left = s1.staging_buffer@.skip(s1.to_skip as int);
        assert(added + left == rest);
        assert(added =~= rest.take(added.len() as int));
        assert(left =~= rest.skip(added.len() as int));
        assert(left =~= archive(fs).subrange(position, next));
        assert(added =~= archive(fs).subrange(start + skip, position));
    }
}

/// What is staged goes to the output, as far as it fits.
proof fn lemma_staged_passed<D: EntryData>(
    entries: Seq<ReaderEntry<D>>,
    pinned: ReaderPinned<D>,
    position: int,
    s0: ReadState,
    o0: ReadBuf,
    s1: ReadState,
    o1: ReadBuf,
)
    requires
        0 <= position,
        s0.synced(entries, pinned, position),
        s0.staging_buffer@.len() > 0,
        archive(files(entries)).len() == archive_size(files(entries)),
        o0.wf(),
        s1.current_chunk == s0.current_chunk,
        s1.chunk_processed_size == s0.chunk_processed_size,
        ({
            let staged = s0.staging_buffer@;
            let start = s0.to_skip as int;
            let end = start + o0.room();
            if end >= staged.len() {
                &&& o1@ == o0@ + staged.skip(start)
                &&& s1.staging_buffer@ == Seq::<u8>::empty()
                &&& s1.to_skip == 0
            } else {
                &&& o1@ == o0@ + staged.subrange(start, end)
                &&& s1.staging_buffer@ == staged
                &&& s1.to_skip == end
            }
        }),
    ensures
        appended(files(entries), position, o0@, o1@),
        s1.synced(entries, pinned, position + o1@.len() - o0@.len()),
{
    reveal(appended);
    reveal(ReadState::synced);
    let fs = files(entries);
    let start = s0.current_chunk.start(fs) as int;
    let left = s0.staging_buffer@.skip(s0.to_skip as int);
    let size = o1@.len() - o0@.len();
    s0.current_chunk.lemma_within(fs);
    assert(o1@ =~= o0@ + left.take(size));
    assert(left.take(size) =~= archive(fs).subrange(position, position + size));
    if s1.staging_buffer@.len() > 0 {
        assert(s1.staging_buffer@.skip(s1.to_skip as int) =~= left.skip(size));
        assert(left.skip(size) =~= archive(fs).subrange(position + size, start));
    }
}

/// Nothing is open while a chunk other than file data is produced, unless its checksum is computed.
proof fn lemma_header_pinned<D: EntryData>(
    entries: Seq<ReaderEntry<D>>,
    pinned: ReaderPinned<D>,
    s: ReadState,
)
    requires
        s.synced(entries, pinned, s.unstaged_position(entries)),
        s.current_chunk !is FileData,
    ensures
        match s.current_chunk {
            Chunk::DataDescriptor { entry_index } | Chunk::CDFileHeader { entry_index } => {
                &&& pinned.computes(&entries[entry_index as int].data)
                &&& pinned is Nothing || entries[entry_index as int].crc32 is None
                    && entries[entry_index as int].size > 0
            },
            _ => pinned is Nothing,
        },
        s.wf(entries.len()),
{
    reveal(ReadState::synced);
}

/// Waiting for a checksum changes nothing of what is read.
proof fn lemma_header_wait<D: EntryData>(
    entries: Seq<ReaderEntry<D>>,
    pinned0: ReaderPinned<D>,
    pinned1: ReaderPinned<D>,
    s: ReadState,
    o: ReadBuf,
)
    requires
        all_exact(entries),
        s.synced(entries, pinned0, s.unstaged_position(entries)),
        s.staging_buffer@.len() == 0,
        s.to_skip < s.current_chunk.spec_size(files(entries)),
        match s.current_chunk {
            Chunk::DataDescriptor { entry_index } | Chunk::CDFileHeader { entry_index } => {
                &&& pinned1.computes(&entries[entry_index as int].data)
                &&& entries[entry_index as int].crc32 is None
                &&& entries[entry_index as int].size > 0
            },
            _ => false,
        },
    ensures
        s.keeps_to_archive(
            files(entries),
            s.unstaged_position(entries),
            o,
            entries,
            pinned1,
            o,
        ),
{
    reveal(ReadState::synced);
    reveal(appended);
}

/// Producing a chunk other than file data keeps to the archive.
proof fn lemma_header_step<D: EntryData>(
    es0: Seq<ReaderEntry<D>>,
    es1: Seq<ReaderEntry<D>>,
    pinned0: ReaderPinned<D>,
    pinned1: ReaderPinned<D>,
    s0: ReadState,
    o0: ReadBuf,
    s1: ReadState,
    o1: ReadBuf,
    s2: ReadState,
)
    requires
        entries_wf(es0),
        es0.len() <= usize::MAX,
        all_exact(es0),
        s0.staging_buffer@.len() == 0,
        s0.synced(es0, pinned0, s0.unstaged_position(es0)),
        s0.current_chunk !is FileData,
        s0.current_chunk !is Finished,
        s0.to_skip < s0.current_chunk.spec_size(files(es0)),
        passes(s0.current_chunk.bytes(files(es0)), s0, o0, s1, o1),
        files(es1) == files(es0),
        all_exact(es1),
        pinned1 is Nothing,
        s2.current_chunk == s0.current_chunk.spec_next(es0.len()),
        s2.chunk_processed_size == 0,
        s2.staging_buffer == s1.staging_buffer,
        s2.to_skip == s1.to_skip,
    ensures
        s2.keeps_to_archive(files(es0), s0.unstaged_position(es0), o0, es1, pinned1, o1),
{
    reveal(ReadState::synced);
    let fs = files(es0);
    assert(es1.len() == files(es1).len());
    lemma_exact_complete(es0);
    assert(s0.current_chunk.spec_size(fs) <= u64::MAX) by {
        match s0.current_chunk {
            Chunk::LocalHeader { entry_index } => {
                assert(es0[entry_index as int].wf());
            },
            Chunk::CDFileHeader { entry_index } => {
                assert(es0[entry_index as int].wf());
            },
            _ => {},
        }
    }
    s0.current_chunk.lemma_next(fs);
    lemma_chunk_passed(fs, s0, o0, s1, o1);
}

/// What is open fits how far the file data was read.
proof fn lemma_data_stands<D: EntryData>(
    entries: Seq<ReaderEntry<D>>,
    pinned: ReaderPinned<D>,
    s: ReadState,
)
    requires
        all_exact(entries),
        s.synced(entries, pinned, s.unstaged_position(entries)),
        s.staging_buffer@.len() == 0,
        s.current_chunk is FileData,
        s.to_skip < s.current_chunk.spec_size(files(entries)),
    ensures
        s.current_chunk matches Chunk::FileData { entry_index } ==> {
            let entry = entries[entry_index as int];
            &&& entry_index < entries.len()
            &&& entry.exact()
            &&& entry.data.exact()
            &&& s.stands_in(&entry.data, pinned)
            &&& s.chunk_processed_size + s.to_skip <= entry.size
            &&& s.chunk_processed_size + s.to_skip == entry.size ==> pinned is FileReader
                && s.to_skip == 0
            &&& s.chunk_processed_size == entry.size ==> pinned is FileReader
        },
{
    reveal(ReadState::synced);
    match s.current_chunk {
        Chunk::FileData { entry_index } => {
            assert(entries[entry_index as int].exact());
        },
        _ => {},
    }
}

/// Passing on file data keeps to the archive.
proof fn lemma_data_step<D: EntryData>(
    es0: Seq<ReaderEntry<D>>,
    es1: Seq<ReaderEntry<D>>,
    pinned0: ReaderPinned<D>,
    pinned1: ReaderPinned<D>,
    s0: ReadState,
    o0: ReadBuf,
    s1: ReadState,
    o1: ReadBuf,
    s2: ReadState,
    done: bool,
)
    requires
        entries_wf(es0),
        es0.len() <= usize::MAX,
        all_exact(es0),
        s0.staging_buffer@.len() == 0,
        s0.synced(es0, pinned0, s0.unstaged_position(es0)),
        s0.current_chunk is FileData,
        s0.to_skip < s0.current_chunk.spec_size(files(es0)),
        s0.pending_error(es0, pinned0) is None,
        o1.extends(o0),
        s1.current_chunk == s0.current_chunk,
        s1.staging_buffer == s0.staging_buffer,
        s1.to_skip == 0,
        s0.current_chunk matches Chunk::FileData { entry_index } ==> {
            let entry = es0[entry_index as int];
            let content = entry.data.content();
            let at = s0.chunk_processed_size + s0.to_skip;
            let size = o1@.len() - o0@.len();
            &&& es1 == es0.update(entry_index as int, es1[entry_index as int])
            &&& es1[entry_index as int].same_but_crc32(entry)
            &&& s1.chunk_processed_size == at + size
            &&& if at < content.len() {
                &&& !done
                &&& size > 0
                &&& at + size <= content.len()
                &&& o1@ == o0@ + content.subrange(at, at + size)
                &&& s1.stands_in(&entry.data, pinned1)
                &&& pinned1 is FileReader
                &&& es1[entry_index as int] == entry
            } else {
                &&& done
                &&& o1@ == o0@
                &&& pinned1 is Nothing
                &&& es1[entry_index as int].crc32 == (if s0.computed_crc32(
                    &entry.data,
                    pinned0,
                ) is Some {
                    s0.computed_crc32(&entry.data, pinned0)
                } else {
                    entry.crc32
                })
            }
        },
        !done ==> s2 == s1,
        done ==> {
            &&& s2.current_chunk == s0.current_chunk.spec_next(es0.len())
            &&& s2.chunk_processed_size == 0
            &&& s2.staging_buffer == s1.staging_buffer
            &&& s2.to_skip == s1.to_skip
        },
    ensures
        s2.keeps_to_archive(files(es0), s0.unstaged_position(es0), o0, es1, pinned1, o1),
{
    let fs = files(es0);
    let position = s0.unstaged_position(es0);
    lemma_exact_complete(es0);
    lemma_data_stands(es0, pinned0, s0);
    s0.current_chunk.lemma_next(fs);
    s0.current_chunk.lemma_bytes(fs);
    match s0.current_chunk {
        Chunk::FileData { entry_index } => {
            let i = entry_index as int;
            let entry = es0[i];
            let content = entry.data.content();
            let at = s0.chunk_processed_size + s0.to_skip;
            let size = o1@.len() - o0@.len();
            assert(same_but_crc32s(es0, es0));
            assert(es1[i].file() == entry.file());
            lemma_update_same(es0, es0, i, es1[i]);
            assert(files(es1) == fs);
            assert(es1.len() == es0.len());
            assert(appended(fs, position, o0@, o1@)) by {
                reveal(appended);
                if size > 0 {
                    assert(content.subrange(at, at + size) =~= archive(fs).subrange(
                        position,
                        position + size,
                    ));
                }
            }
            reveal(ReadState::synced);
        },
        _ => {},
    }
}

/// Waiting for file data changes nothing of what is read.
proof fn lemma_data_wait<D: EntryData>(
    entries: Seq<ReaderEntry<D>>,
    pinned0: ReaderPinned<D>,
    pinned1: ReaderPinned<D>,
    s0: ReadState,
    o0: ReadBuf,
    s1: ReadState,
    o1: ReadBuf,
)
    requires
        all_exact(entries),
        s0.staging_buffer@.len() == 0,
        s0.synced(entries, pinned0, s0.unstaged_position(entries)),
        s0.to_skip < s0.current_chunk.spec_size(files(entries)),
        s1.current_chunk == s0.current_chunk,
        s1.staging_buffer == s0.staging_buffer,
        s1.to_skip == 0 || s1 == s0,
        s1.chunk_processed_size + s1.to_skip == s0.chunk_processed_size + s0.to_skip,
        o1@ == o0@,
        pinned1 !is Nothing,
        pinned0 is FileReader ==> pinned1 is FileReader,
        s0.current_chunk matches Chunk::FileData { entry_index } && {
            let data = &entries[entry_index as int].data;
            &&& s1.stands_in(data, pinned1)
            &&& s1.computed_crc32(data, pinned1) == s0.computed_crc32(data, pinned0)
        },
    ensures
        s1.keeps_to_archive(
            files(entries),
            s0.unstaged_position(entries),
            o0,
            entries,
            pinned1,
            o1,
        ),
        s1.pending_error(entries, pinned1) == s0.pending_error(entries, pinned0),
{
    lemma_data_stands(entries, pinned0, s0);
    reveal(ReadState::synced);
    reveal(appended);
}

/// Skipping a chunk that lies before the position changes nothing of what is read.
proof fn lemma_skip_step<D: EntryData>(
    entries: Seq<ReaderEntry<D>>,
    pinned: ReaderPinned<D>,
    position: int,
    s0: ReadState,
    s1: ReadState,
)
    requires
        entries.len() <= usize::MAX,
        s0.synced(entries, pinned, position),
        s0.staging_buffer@.len() == 0,
        s0.current_chunk !is Finished,
        s0.to_skip >= s0.current_chunk.spec_size(files(entries)),
        s1.current_chunk == s0.current_chunk.spec_next(entries.len()),
        s1.chunk_processed_size == 0,
        s1.staging_buffer == s0.staging_buffer,
        s1.to_skip == s0.to_skip - s0.current_chunk.spec_size(files(entries)),
    ensures
        s1.synced(entries, pinned, position),
        s0.pending_error(entries, pinned) is None,
{
    reveal(ReadState::synced);
    s0.current_chunk.lemma_next(files(entries));
}

/// Where reading goes on.
proof fn lemma_synced_position<D: EntryData>(
    entries: Seq<ReaderEntry<D>>,
    pinned: ReaderPinned<D>,
    position: int,
    s: ReadState,
)
    requires
        s.synced(entries, pinned, position),
        all_exact(entries),
    ensures
        s.staging_buffer@.len() == 0 ==> position == s.unstaged_position(entries),
        s.staging_buffer@.len() == 0 && s.current_chunk is Finished ==> position >= archive_size(
            files(entries),
        ),
        s.current_chunk !is FileData || s.staging_buffer@.len() > 0 ==> s.pending_error(
            entries,
            pinned,
        ) is None,
        s.staging_buffer@.len() > 0 ==> s.to_skip < s.staging_buffer@.len(),
        s.chunk_processed_size == 0 ==> s.pending_error(entries, pinned) is None,
{
    reveal(ReadState::synced);
    if let Chunk::FileData { entry_index } = s.current_chunk {
        assert(entries[entry_index as int].exact());
    }
}

/// Where a chunk is does not depend on the checksums.
proof fn lemma_chunk_same<D: EntryData>(
    entries: Seq<ReaderEntry<D>>,
    before: Seq<ReaderEntry<D>>,
    chunk: Chunk,
)
    requires
        same_but_crc32s(entries, before),
        chunk.valid(entries.len()),
    ensures
        chunk.start(files(entries)) == chunk.start(files(before)),
        chunk.spec_size(files(entries)) == chunk.spec_size(files(before)),
{
    lemma_offsets_same(entries, before, entries.len());
    match chunk {
        Chunk::LocalHeader { entry_index } | Chunk::FileData { entry_index }
        | Chunk::DataDescriptor { entry_index } | Chunk::CDFileHeader { entry_index } => {
            lemma_offsets_same(entries, before, entry_index as nat);
            assert(entries[entry_index as int].same_but_crc32(before[entry_index as int]));
        },
        _ => {},
    }
}

/// If nothing is staged, the position is that in the current chunk.
proof fn lemma_stands_unstaged<D: EntryData>(
    entries: Seq<ReaderEntry<D>>,
    position: int,
    s: ReadState,
)
    requires
        s.staging_buffer@.len() == 0,
        s.stands_at(entries, position),
    ensures
        capped(position) == capped(s.unstaged_position(entries)),
{
    reveal(ReadState::stands_at);
}

/// It is all the same from which of two positions that are counted alike bytes are counted on.
proof fn lemma_stands_on<D: EntryData>(
    entries: Seq<ReaderEntry<D>>,
    position: int,
    other: int,
    written: int,
    s: ReadState,
)
    requires
        capped(position) == capped(other),
        0 <= written,
        s.stands_at(entries, other + written),
        s.wf(entries.len()),
        archive_size(files(entries)) <= u64::MAX,
    ensures
        s.stands_at(entries, position + written),
{
    reveal(ReadState::stands_at);
    s.current_chunk.lemma_within(files(entries));
}

/// Part of what is staged was not passed on yet.
proof fn lemma_staged_bound<D: EntryData>(
    entries: Seq<ReaderEntry<D>>,
    position: int,
    s: ReadState,
)
    requires
        s.staging_buffer@.len() > 0,
        s.stands_at(entries, position),
    ensures
        s.to_skip < s.staging_buffer@.len(),
{
    reveal(ReadState::stands_at);
}

/// Doing nothing keeps to the archive.
proof fn lemma_nothing_done<D: EntryData>(
    entries: Seq<ReaderEntry<D>>,
    pinned: ReaderPinned<D>,
    position: int,
    s: ReadState,
    o: ReadBuf,
)
    requires
        all_exact(entries),
        s.synced(entries, pinned, position),
    ensures
        s.keeps_to_archive(files(entries), position, o, entries, pinned, o),
{
    reveal(appended);
}

/// Bytes that leave the staging buffer are counted.
proof fn lemma_staged_counted<D: EntryData>(
    entries: Seq<ReaderEntry<D>>,
    position: int,
    s0: ReadState,
    o0: ReadBuf,
    s1: ReadState,
    o1: ReadBuf,
)
    requires
        s0.staging_buffer@.len() > 0,
        s0.stands_at(entries, position),
        o0.wf(),
        s1.current_chunk == s0.current_chunk,
        s1.chunk_processed_size == s0.chunk_processed_size,
        ({
            let staged = s0.staging_buffer@;
            let end = s0.to_skip + o0.room();
            if end >= staged.len() {
                &&& o1@.len() == o0@.len() + staged.len() - s0.to_skip
                &&& s1.staging_buffer@ == Seq::<u8>::empty()
                &&& s1.to_skip == 0
            } else {
                &&& o1@.len() == o0@.len() + o0.room()
                &&& s1.staging_buffer@ == staged
                &&& s1.to_skip == end
            }
        }),
    ensures
        s1.stands_at(entries, position + o1@.len() - o0@.len()),
{
    reveal(ReadState::stands_at);
}

/// What is staged can go to the output.
proof fn lemma_staged_in_order<D: EntryData>(
    entries: Seq<ReaderEntry<D>>,
    pinned: ReaderPinned<D>,
    s0: ReadState,
    s1: ReadState,
)
    requires
        s0.staging_buffer@.len() > 0,
        s0.in_order(entries, pinned),
        s1.current_chunk == s0.current_chunk,
        s1.chunk_processed_size == s0.chunk_processed_size,
        s1.staging_buffer@.len() == 0 ==> s1.to_skip == 0,
    ensures
        s1.in_order(entries, pinned),
{
    reveal(ReadState::in_order);
}

/// The part of the archive that precedes the central directory ends where that begins.
proof fn lemma_local_chunk(fs: Seq<FileView>, chunk: Chunk)
    requires
        chunk.valid(fs.len()),
        chunk is LocalHeader || chunk is FileData || chunk is DataDescriptor,
    ensures
        chunk.start(fs) + chunk.spec_size(fs) <= cd_start(fs),
{
    match chunk {
        Chunk::LocalHeader { entry_index } | Chunk::FileData { entry_index }
        | Chunk::DataDescriptor { entry_index } => {
            lemma_entry_offset_monotonic(fs, entry_index as nat, fs.len());
        },
        _ => {},
    }
}

/// What is staged can go to the output, and nothing of the central directory is skipped.
proof fn lemma_staged_lists<D: EntryData>(
    entries: Seq<ReaderEntry<D>>,
    s0: ReadState,
    s1: ReadState,
)
    requires
        s0.wf(entries.len()),
        s0.staging_buffer@.len() > 0,
        s0.lists(entries),
        s1.current_chunk == s0.current_chunk,
        s1.staging_buffer@.len() == 0 ==> s1.to_skip == 0,
    ensures
        s1.lists(entries),
{
    reveal(ReadState::lists);
    if s0.current_chunk is LocalHeader || s0.current_chunk is FileData
        || s0.current_chunk is DataDescriptor {
        lemma_local_chunk(files(entries), s0.current_chunk);
    }
}

/// Skipping a chunk before the central directory skips nothing of that.
proof fn lemma_skip_lists<D: EntryData>(
    entries: Seq<ReaderEntry<D>>,
    s0: ReadState,
    s1: ReadState,
)
    requires
        entries.len() <= usize::MAX,
        s0.wf(entries.len()),
        s0.staging_buffer@.len() == 0,
        s0.lists(entries),
        s0.current_chunk !is Finished,
        s0.to_skip >= s0.current_chunk.spec_size(files(entries)),
        s1.current_chunk == s0.current_chunk.spec_next(entries.len()),
        s1.staging_buffer == s0.staging_buffer,
        s1.to_skip == s0.to_skip - s0.current_chunk.spec_size(files(entries)),
    ensures
        s1.lists(entries),
{
    reveal(ReadState::lists);
    s0.current_chunk.lemma_next(files(entries));
    assert(cd_length(files(entries), 0) == 0);
}

/// Behind a chunk that was produced nothing of the central directory was skipped.
proof fn lemma_done_lists<D: EntryData>(
    es0: Seq<ReaderEntry<D>>,
    es1: Seq<ReaderEntry<D>>,
    s0: ReadState,
    s2: ReadState,
)
    requires
        es0.len() <= usize::MAX,
        same_but_crc32s(es1, es0),
        s0.current_chunk.valid(es0.len()),
        s0.staging_buffer@.len() == 0,
        s0.lists(es0),
        s0.current_chunk !is Finished,
        s0.current_chunk matches Chunk::CDFileHeader { entry_index }
            ==> es1[entry_index as int].crc32 is Some,
        s2.current_chunk == s0.current_chunk.spec_next(es0.len()),
        s2.staging_buffer@.len() == 0 ==> s2.to_skip == 0,
    ensures
        s2.lists(es1),
{
    reveal(ReadState::lists);
    let chunk = s2.current_chunk;
    s0.current_chunk.lemma_next(files(es0));
    if chunk is LocalHeader || chunk is FileData || chunk is DataDescriptor {
        lemma_local_chunk(files(es1), chunk);
    }
    assert forall|i: int| 0 <= i < es0.len() && es0[i].crc32 is Some implies (
    #[trigger] es1[i]).crc32 is Some by {
        assert(es1[i].same_but_crc32(es0[i]));
    }
}

/// Within a chunk nothing of the central directory is skipped.
proof fn lemma_within_lists<D: EntryData>(
    es0: Seq<ReaderEntry<D>>,
    es1: Seq<ReaderEntry<D>>,
    s0: ReadState,
    s1: ReadState,
)
    requires
        same_but_crc32s(es1, es0),
        s0.current_chunk.valid(es0.len()),
        s0.lists(es0),
        s1.current_chunk == s0.current_chunk,
        s1.staging_buffer == s0.staging_buffer,
        s1.to_skip == 0 || s1.to_skip == s0.to_skip,
    ensures
        s1.lists(es1),
{
    reveal(ReadState::lists);
    let chunk = s0.current_chunk;
    if chunk is LocalHeader || chunk is FileData || chunk is DataDescriptor {
        lemma_local_chunk(files(es1), chunk);
        lemma_chunk_same(es1, es0, chunk);
        lemma_offsets_same(es1, es0, es1.len());
    }
    assert forall|i: int| 0 <= i < es0.len() && es0[i].crc32 is Some implies (
    #[trigger] es1[i]).crc32 is Some by {
        assert(es1[i].same_but_crc32(es0[i]));
    }
}

/// Skipping a chunk leaves the position where it is.
proof fn lemma_skip_counted<D: EntryData>(
    entries: Seq<ReaderEntry<D>>,
    position: int,
    s0: ReadState,
    s1: ReadState,
)
    requires
        entries.len() <= usize::MAX,
        s0.wf(entries.len()),
        s0.staging_buffer@.len() == 0,
        s0.stands_at(entries, position),
        s0.current_chunk !is Finished,
        s0.to_skip >= s0.current_chunk.spec_size(files(entries)),
        s1.current_chunk == s0.current_chunk.spec_next(entries.len()),
        s1.chunk_processed_size == 0,
        s1.staging_buffer == s0.staging_buffer,
        s1.to_skip == s0.to_skip - s0.current_chunk.spec_size(files(entries)),
    ensures
        s1.stands_at(entries, position),
{
    reveal(ReadState::stands_at);
    s0.current_chunk.lemma_next(files(entries));
}

/// Of what is read in order, only empty data is skipped.
proof fn lemma_skip_in_order<D: EntryData>(
    entries: Seq<ReaderEntry<D>>,
    pinned: ReaderPinned<D>,
    s0: ReadState,
    s1: ReadState,
)
    requires
        entries.len() <= usize::MAX,
        s0.wf(entries.len()),
        s0.staging_buffer@.len() == 0,
        s0.in_order(entries, pinned),
        s0.current_chunk !is Finished,
        s0.to_skip >= s0.current_chunk.spec_size(files(entries)),
        s1.current_chunk == s0.current_chunk.spec_next(entries.len()),
        s1.chunk_processed_size == 0,
        s1.staging_buffer == s0.staging_buffer,
        s1.to_skip == s0.to_skip - s0.current_chunk.spec_size(files(entries)),
    ensures
        s1.in_order(entries, pinned),
{
    reveal(ReadState::in_order);
    assert(s0.current_chunk is FileData);
}

/// While a checksum is waited for, nothing is counted.
proof fn lemma_wait_counted<D: EntryData>(
    entries: Seq<ReaderEntry<D>>,
    pinned0: ReaderPinned<D>,
    pinned1: ReaderPinned<D>,
    s: ReadState,
)
    requires
        s.current_chunk !is FileData,
        s.staging_buffer@.len() == 0,
        s.to_skip < s.current_chunk.spec_size(files(entries)),
    ensures
        s.stands_at(entries, s.unstaged_position(entries)),
        s.in_order(entries, pinned0) ==> s.in_order(entries, pinned1),
{
    reveal(ReadState::stands_at);
    reveal(ReadState::in_order);
}

/// A chunk that passed is counted.
proof fn lemma_header_counted<D: EntryData>(
    es0: Seq<ReaderEntry<D>>,
    es1: Seq<ReaderEntry<D>>,
    bytes: Seq<u8>,
    s0: ReadState,
    o0: ReadBuf,
    s1: ReadState,
    o1: ReadBuf,
    s2: ReadState,
)
    requires
        es0.len() <= usize::MAX,
        same_but_crc32s(es1, es0),
        s0.current_chunk.valid(es0.len()),
        s0.current_chunk !is Finished,
        s0.chunk_processed_size == 0,
        s0.staging_buffer@.len() == 0,
        s0.to_skip < s0.current_chunk.spec_size(files(es0)),
        bytes.len() == s0.current_chunk.spec_size(files(es0)),
        passes(bytes, s0, o0, s1, o1),
        s2.current_chunk == s0.current_chunk.spec_next(es0.len()),
        s2.chunk_processed_size == 0,
        s2.staging_buffer == s1.staging_buffer,
        s2.to_skip == s1.to_skip,
    ensures
        s2.stands_at(es1, s0.unstaged_position(es0) + o1@.len() - o0@.len()),
{
    reveal(ReadState::stands_at);
    let added = o1@.skip(o0@.len() as int);
    let rest = bytes.skip(s0.to_skip as int);
    assert(added.len() == o1@.len() - o0@.len());
    s0.current_chunk.lemma_next(files(es0));
    lemma_chunk_same(es1, es0, s2.current_chunk);
    if s1.staging_buffer@.len() > 0 {
        let left = s1.staging_buffer@.skip(s1.to_skip as int);
        assert((added + left).len() == rest.len());
    } else {
        assert(added == rest);
    }
}

/// Behind a chunk that passed reading is still in order.
proof fn lemma_header_in_order<D: EntryData>(
    es0: Seq<ReaderEntry<D>>,
    es1: Seq<ReaderEntry<D>>,
    pinned0: ReaderPinned<D>,
    pinned1: ReaderPinned<D>,
    bytes: Seq<u8>,
    s0: ReadState,
    o0: ReadBuf,
    s1: ReadState,
    o1: ReadBuf,
    s2: ReadState,
)
    requires
        es0.len() <= usize::MAX,
        same_but_crc32s(es1, es0),
        s0.in_order(es0, pinned0),
        s0.current_chunk.valid(es0.len()),
        s0.current_chunk !is Finished,
        s0.current_chunk !is FileData,
        s0.staging_buffer@.len() == 0,
        s0.to_skip < bytes.len(),
        passes(bytes, s0, o0, s1, o1),
        s0.current_chunk matches Chunk::LocalHeader { .. } ==> pinned1 is Nothing,
        s0.current_chunk matches Chunk::DataDescriptor { entry_index }
            ==> es1[entry_index as int].crc32 is Some,
        s2.current_chunk == s0.current_chunk.spec_next(es0.len()),
        s2.chunk_processed_size == 0,
        s2.staging_buffer == s1.staging_buffer,
        s2.to_skip == s1.to_skip,
    ensures
        s2.in_order(es1, pinned1),
{
    reveal(ReadState::in_order);
    let count = es0.len();
    assert forall|i: int| 0 <= i < s2.current_chunk.entries_before(count) implies (
    #[trigger] es1[i]).crc32 is Some by {
        assert(es1[i].same_but_crc32(es0[i]));
        if i < s0.current_chunk.entries_before(count) {
            assert(es0[i].crc32 is Some);
        }
    }
    assert forall|i: int| 0 <= i < s2.current_chunk.data_before(count) implies (
    #[trigger] es1[i]).right_size() by {
        assert(es1[i].same_but_crc32(es0[i]));
        assert(es0[i].right_size());
    }
}

/// Behind a chunk that passed, which is not file data, reading goes on.
proof fn lemma_header_done<D: EntryData>(
    es0: Seq<ReaderEntry<D>>,
    es1: Seq<ReaderEntry<D>>,
    pinned0: ReaderPinned<D>,
    pinned1: ReaderPinned<D>,
    s0: ReadState,
    o0: ReadBuf,
    s1: ReadState,
    o1: ReadBuf,
    s2: ReadState,
)
    requires
        es0.len() <= usize::MAX,
        entries_wf(es0),
        same_but_crc32s(es1, es0),
        s0.wf(es0.len()),
        s0.staging_buffer@.len() == 0,
        s0.current_chunk !is Finished,
        s0.current_chunk !is FileData,
        s0.to_skip < s0.current_chunk.spec_size(files(es0)),
        passes(s0.current_chunk.bytes(files(es1)), s0, o0, s1, o1),
        pinned1 is Nothing,
        s0.current_chunk matches Chunk::DataDescriptor { entry_index }
            ==> es1[entry_index as int].crc32 is Some,
        s0.current_chunk matches Chunk::CDFileHeader { entry_index }
            ==> es1[entry_index as int].crc32 is Some,
        s2.current_chunk == s0.current_chunk.spec_next(es0.len()),
        s2.chunk_processed_size == 0,
        s2.staging_buffer == s1.staging_buffer,
        s2.to_skip == s1.to_skip,
    ensures
        s2.wf(es1.len()),
        s2.goes_on(s0, es0, pinned0, es1, pinned1, o1@.len() - o0@.len()),
        all_exact(es0) && s0.synced(es0, pinned0, s0.unstaged_position(es0)) && files(es1)
            == files(es0) && all_exact(es1) ==> s2.keeps_to_archive(
            files(es0),
            s0.unstaged_position(es0),
            o0,
            es1,
            pinned1,
            o1,
        ),
{
    let bytes = s0.current_chunk.bytes(files(es1));
    s0.current_chunk.lemma_next(files(es0));
    s0.current_chunk.lemma_header_size(files(es1));
    lemma_chunk_same(es1, es0, s0.current_chunk);
    lemma_header_counted(es0, es1, bytes, s0, o0, s1, o1, s2);
    if s0.in_order(es0, pinned0) {
        lemma_header_in_order(es0, es1, pinned0, pinned1, bytes, s0, o0, s1, o1, s2);
    }
    if s0.lists(es0) {
        lemma_done_lists(es0, es1, s0, s2);
    }
    if all_exact(es0) && s0.synced(es0, pinned0, s0.unstaged_position(es0)) && files(es1) == files(
        es0,
    ) && all_exact(es1) {
        lemma_header_step(es0, es1, pinned0, pinned1, s0, o0, s1, o1, s2);
    }
}

/// File data that was passed on is counted.
proof fn lemma_data_counted<D: EntryData>(
    es0: Seq<ReaderEntry<D>>,
    es1: Seq<ReaderEntry<D>>,
    s0: ReadState,
    s1: ReadState,
    s2: ReadState,
    done: bool,
    written: int,
)
    requires
        es0.len() <= usize::MAX,
        same_but_crc32s(es1, es0),
        s0.current_chunk.valid(es0.len()),
        s0.current_chunk is FileData,
        s0.staging_buffer@.len() == 0,
        s0.to_skip < s0.current_chunk.spec_size(files(es0)),
        s1.current_chunk == s0.current_chunk,
        s1.staging_buffer == s0.staging_buffer,
        s1.to_skip <= s0.to_skip,
        0 <= written,
        done ==> {
            &&& s0.chunk_processed_size + s0.to_skip == s0.current_chunk.spec_size(files(es0))
            &&& written == 0
            &&& s1.to_skip == 0
            &&& s2.current_chunk == s0.current_chunk.spec_next(es0.len())
            &&& s2.chunk_processed_size == 0
            &&& s2.staging_buffer == s1.staging_buffer
            &&& s2.to_skip == s1.to_skip
        },
        !done ==> {
            &&& s2 == s1
            &&& capped(s1.chunk_processed_size + s1.to_skip) == capped(
                s0.chunk_processed_size + s0.to_skip + written,
            )
        },
    ensures
        s2.stands_at(es1, s0.unstaged_position(es0) + written),
{
    reveal(ReadState::stands_at);
    s0.current_chunk.lemma_next(files(es0));
    lemma_chunk_same(es1, es0, s0.current_chunk);
    lemma_chunk_same(es1, es0, s2.current_chunk);
}

/// Behind file data that was passed on reading is still in order.
proof fn lemma_data_in_order<D: EntryData>(
    es0: Seq<ReaderEntry<D>>,
    es1: Seq<ReaderEntry<D>>,
    pinned0: ReaderPinned<D>,
    pinned1: ReaderPinned<D>,
    s0: ReadState,
    s1: ReadState,
    s2: ReadState,
    i: int,
    done: bool,
)
    requires
        es0.len() <= usize::MAX,
        0 <= i < es0.len(),
        same_but_crc32s(es1, es0),
        s0.in_order(es0, pinned0),
        s0.current_chunk == (Chunk::FileData { entry_index: i as usize }),
        s0.staging_buffer@.len() == 0,
        s1.current_chunk == s0.current_chunk,
        s1.staging_buffer == s0.staging_buffer,
        s1.to_skip == 0 || s1 == s0,
        ({
            let data = &es0[i].data;
            data.exact() && s0.stands_in(data, pinned0) ==> if done {
                s0.chunk_processed_size + s0.to_skip >= data.content().len()
            } else {
                s1.stands_in(data, pinned1)
            }
        }),
        done ==> {
            &&& s0.chunk_processed_size + s0.to_skip == es0[i].size
            &&& s1.to_skip == 0
            &&& s2.current_chunk == s0.current_chunk.spec_next(es0.len())
            &&& s2.chunk_processed_size == 0
            &&& s2.staging_buffer == s1.staging_buffer
            &&& s2.to_skip == s1.to_skip
        },
        !done ==> s2 == s1,
    ensures
        s2.in_order(es1, pinned1),
{
    reveal(ReadState::in_order);
    let count = es0.len();
    assert forall|j: int| 0 <= j < s2.current_chunk.entries_before(count) implies (
    #[trigger] es1[j]).crc32 is Some by {
        assert(es1[j].same_but_crc32(es0[j]));
        assert(es0[j].crc32 is Some);
    }
    assert forall|j: int| 0 <= j < s2.current_chunk.data_before(count) implies (
    #[trigger] es1[j]).right_size() by {
        assert(es1[j].same_but_crc32(es0[j]));
        if j < i {
            assert(es0[j].right_size());
        }
    }
    assert(es1[i].same_but_crc32(es0[i]));
}

/// What is told as the current position makes no difference to where reading goes on.
proof fn lemma_repositioned<D: EntryData>(
    entries: Seq<ReaderEntry<D>>,
    pinned: ReaderPinned<D>,
    s0: ReadState,
    s1: ReadState,
    first: int,
    second: int,
)
    requires
        s1 == (ReadState { position: s1.position, ..s0 }),
    ensures
        s1.stands_at(entries, first) == s0.stands_at(entries, first),
        s1.in_order(entries, pinned) == s0.in_order(entries, pinned),
        s1.lists(entries) == s0.lists(entries),
        s1.synced(entries, pinned, second) == s0.synced(entries, pinned, second),
{
    reveal(ReadState::stands_at);
    reveal(ReadState::in_order);
    reveal(ReadState::lists);
    reveal(ReadState::synced);
}

/// Whether data is at hand does not depend on the checksums.
pub proof fn lemma_prompt_same<D: EntryData>(
    entries: Seq<ReaderEntry<D>>,
    before: Seq<ReaderEntry<D>>,
)
    requires
        same_but_crc32s(entries, before),
    ensures
        all_prompt(before) ==> all_prompt(entries),
{
    assert forall|i: int| all_prompt(before) && 0 <= i < entries.len() implies (
    #[trigger] entries[i]).data.prompt() by {
        assert(entries[i].same_but_crc32(before[i]));
        assert(before[i].data.prompt());
    }
}

impl ReadState {
    /// Goes on to the next chunk if this one is `done`.
    fn advance<D: EntryData>(&mut self, entries: &[ReaderEntry<D>], done: bool)
        requires
            old(self).current_chunk.valid(entries@.len()),
            old(self).current_chunk !is Finished,
        ensures
            final(self).position == old(self).position,
            final(self).staging_buffer == old(self).staging_buffer,
            final(self).to_skip == old(self).to_skip,
            !done ==> *final(self) == *old(self),
            done ==> {
                &&& final(self).current_chunk == old(self).current_chunk.spec_next(entries@.len())
                &&& final(self).chunk_processed_size == 0
            },
    {
        if done {
            self.current_chunk = self.current_chunk.next(entries);
            self.chunk_processed_size = 0;
        }
    }

    /// Whether a step kept to the archive: it appended what the archive holds from `position` on,
    /// and reading can go on behind that.
    pub open spec fn keeps_to_archive<D: EntryData>(
        &self,
        fs: Seq<FileView>,
        position: int,
        output_before: ReadBuf,
        entries: Seq<ReaderEntry<D>>,
        pinned: ReaderPinned<D>,
        output: ReadBuf,
    ) -> bool {
        &&& files(entries) == fs
        &&& all_exact(entries)
        &&& appended(fs, position, output_before@, output@)
        &&& self.synced(entries, pinned, position + output@.len() - output_before@.len())
    }

    /// Whether what a step did was counted, and kept in order what was in order `before`.
    pub open spec fn goes_on<D: EntryData>(
        &self,
        before: ReadState,
        entries_before: Seq<ReaderEntry<D>>,
        pinned_before: ReaderPinned<D>,
        entries: Seq<ReaderEntry<D>>,
        pinned: ReaderPinned<D>,
        written: int,
    ) -> bool {
        &&& self.stands_at(entries, before.unstaged_position(entries_before) + written)
        &&& before.in_order(entries_before, pinned_before) ==> self.in_order(entries, pinned)
        &&& before.lists(entries_before) ==> self.lists(entries)
    }

    /// The data that the current chunk is, if it is file data, is at hand.
    pub open spec fn data_prompt<D: EntryData>(&self, entries: Seq<ReaderEntry<D>>) -> bool {
        self.current_chunk matches Chunk::FileData { entry_index }
            ==> entries[entry_index as int].data.prompt()
    }

    /// Produces the current chunk, which is not file data.
    #[verifier::spinoff_prover]
    #[verifier::rlimit(40)]
    fn produce_chunk<D: EntryData>(
        &mut self,
        sizes: &Sizes,
        entries: &mut Vec<ReaderEntry<D>>,
        pinned: &mut ReaderPinned<D>,
        ctx: &mut Context<'_>,
        output: &mut ReadBuf,
    ) -> (result: Poll<Result<bool, ReadError<D::Error>>>)
        requires
            old(output).wf(),
            layout_matches(*sizes, old(entries)@),
            old(self).wf(old(entries)@.len()),
            old(self).opened_fits(old(entries)@, *old(pinned)),
            old(self).staging_buffer@.len() == 0,
            old(self).current_chunk !is Finished,
            old(self).current_chunk !is FileData,
        ensures
            layout_matches(*sizes, final(entries)@),
            same_but_crc32s(final(entries)@, old(entries)@),
            match result {
                Poll::Ready(Ok(done)) => {
                    &&& done
                    &&& passes(
                        old(self).current_chunk.bytes(files(final(entries)@)),
                        *old(self),
                        *old(output),
                        *final(self),
                        *final(output),
                    )
                    &&& *final(pinned) is Nothing
                    &&& old(self).current_chunk matches Chunk::DataDescriptor { entry_index }
                        ==> final(entries)@[entry_index as int].crc32 is Some
                    &&& old(self).current_chunk matches Chunk::CDFileHeader { entry_index }
                        ==> final(entries)@[entry_index as int].crc32 is Some
                },
                _ => {
                    &&& *final(self) == *old(self)
                    &&& *final(output) == *old(output)
                    &&& final(entries)@ == old(entries)@
                    &&& final(pinned).in_order()
                    &&& old(self).asks_for_data(old(entries)@)
                    &&& result matches Poll::Ready(Err(error)) ==> old(self).fails_by(
                        old(entries)@,
                        error,
                    )
                    &&& result is Pending ==> {
                        &&& *final(pinned) !is Nothing
                        &&& final(pinned).continues(*old(pinned))
                    }
                },
            },
            all_exact(old(entries)@) && old(self).synced(
                old(entries)@,
                *old(pinned),
                old(self).unstaged_position(old(entries)@),
            ) ==> match result {
                Poll::Ready(Ok(_)) => {
                    &&& files(final(entries)@) == files(old(entries)@)
                    &&& all_exact(final(entries)@)
                },
                Poll::Ready(Err(failed)) => !all_prompt(old(entries)@) && failed is Source,
                Poll::Pending => {
                    &&& !all_prompt(old(entries)@)
                    &&& match old(self).current_chunk {
                        Chunk::DataDescriptor { entry_index } | Chunk::CDFileHeader {
                            entry_index,
                        } => final(pinned).computes(&old(entries)@[entry_index as int].data),
                        _ => false,
                    }
                    &&& final(self).not_behind(
                        *old(self),
                        old(entries)@,
                        *old(pinned),
                        *final(pinned),
                    )
                },
            },
    {
        let ghost es0 = entries@;
        let ghost exact = all_exact(es0) && self.synced(
            es0,
            *pinned,
            self.unstaged_position(es0),
        );
        proof {
            assert(same_but_crc32s(es0, es0));
            if exact {
                lemma_header_pinned(es0, *pinned, *self);
            }
        }
        match self.current_chunk {
            Chunk::LocalHeader { entry_index } => {
                assert(es0[entry_index as int].wf());
                Poll::Ready(Ok(self.read_local_header(&entries[entry_index], output)))
            },
            Chunk::DataDescriptor { entry_index } => {
                let i: usize = entry_index;
                assert(es0[i as int].wf());
                assert(exact ==> es0[i as int].exact());
                let result = self.read_data_descriptor(&mut entries[i], pinned, ctx, output);
                proof {
                    let entry = entries@[i as int];
                    assert(entries@ =~= es0.update(i as int, entry));
                    lemma_update_same(es0, es0, i as int, entry);
                    lemma_layout_same(*sizes, entries@, es0);
                    assert(entry == es0[i as int] ==> entries@ =~= es0);
                }
                result
            },
            Chunk::CDFileHeader { entry_index } => {
                let i: usize = entry_index;
                assert(es0[i as int].wf());
                assert(exact ==> es0[i as int].exact());
                let result = self.read_cd_file_header(&mut entries[i], pinned, ctx, output);
                proof {
                    let entry = entries@[i as int];
                    assert(entries@ =~= es0.update(i as int, entry));
                    lemma_update_same(es0, es0, i as int, entry);
                    lemma_layout_same(*sizes, entries@, es0);
                    assert(entry == es0[i as int] ==> entries@ =~= es0);
                }
                result
            },
            _ => Poll::Ready(Ok(self.read_eocd(sizes, entries.as_slice(), output))),
        }
    }

    /// Produces the current chunk, which is not file data, and goes on to the next one.
    #[verifier::spinoff_prover]
    #[verifier::rlimit(40)]
    fn read_header_chunk<D: EntryData>(
        &mut self,
        sizes: &Sizes,
        entries: &mut Vec<ReaderEntry<D>>,
        pinned: &mut ReaderPinned<D>,
        ctx: &mut Context<'_>,
        output: &mut ReadBuf,
    ) -> (result: Poll<Result<(), ReadError<D::Error>>>)
        requires
            old(output).wf(),
            layout_matches(*sizes, old(entries)@),
            old(self).wf(old(entries)@.len()),
            old(self).opened_fits(old(entries)@, *old(pinned)),
            old(self).staging_buffer@.len() == 0,
            old(self).current_chunk !is Finished,
            old(self).current_chunk !is FileData,
            old(self).to_skip < old(self).current_chunk.spec_size(files(old(entries)@)),
        ensures
            final(output).extends(*old(output)),
            layout_matches(*sizes, final(entries)@),
            same_but_crc32s(final(entries)@, old(entries)@),
            final(self).wf(final(entries)@.len()),
            final(self).opened_fits(final(entries)@, *final(pinned)),
            final(self).position == old(self).position,
            match result {
                Poll::Ready(Ok(_)) => {
                    &&& final(self).current_chunk == old(self).current_chunk.spec_next(
                        old(entries)@.len(),
                    )
                    &&& final(self).chunk_processed_size == 0
                },
                _ => {
                    &&& final(output)@ == old(output)@
                    &&& final(self).current_chunk == old(self).current_chunk
                    &&& final(self).asks_for_data(final(entries)@)
                },
            },
            result matches Poll::Ready(Err(error)) ==> final(self).fails_by(final(entries)@, error),
            result is Pending ==> final(self).keeps_open(
                *old(self),
                *old(pinned),
                *final(pinned),
            ),
            !(result matches Poll::Ready(Err(_))) ==> final(self).goes_on(
                *old(self),
                old(entries)@,
                *old(pinned),
                final(entries)@,
                *final(pinned),
                final(output)@.len() - old(output)@.len(),
            ),
            all_exact(old(entries)@) && old(self).synced(
                old(entries)@,
                *old(pinned),
                old(self).unstaged_position(old(entries)@),
            ) ==> match result {
                Poll::Ready(Err(failed)) => !all_prompt(old(entries)@) && failed is Source,
                _ => {
                    &&& result is Pending ==> {
                        &&& !all_prompt(old(entries)@)
                        &&& final(self).not_behind(
                            *old(self),
                            old(entries)@,
                            *old(pinned),
                            *final(pinned),
                        )
                    }
                    &&& final(self).keeps_to_archive(
                        files(old(entries)@),
                        old(self).unstaged_position(old(entries)@),
                        *old(output),
                        final(entries)@,
                        *final(pinned),
                        *final(output),
                    )
                },
            },
    {
        let ghost (s0, o0) = (*self, *output);
        let ghost es0 = entries@;
        let done: bool = match self.produce_chunk(sizes, entries, pinned, ctx, output) {
            Poll::Ready(Ok(done)) => done,
            Poll::Ready(Err(error)) => {
                return Poll::Ready(Err(error));
            },
            Poll::Pending => {
                proof {
                    lemma_wait_counted(es0, *old(pinned), *pinned, s0);
                    if all_exact(es0) && s0.synced(
                        es0,
                        *old(pinned),
                        s0.unstaged_position(es0),
                    ) {
                        lemma_header_wait(es0, *old(pinned), *pinned, s0, o0);
                    }
                }
                return Poll::Pending;
            },
        };
        let ghost s1 = *self;
        self.advance(entries.as_slice(), done);
        proof {
            lemma_header_done(es0, entries@, *old(pinned), *pinned, s0, o0, s1, *output, *self);
        }
        Poll::Ready(Ok(()))
    }

    /// Passes on as much of the data that the current chunk is as fits, and goes on to the next
    /// chunk at the end of the data.
    #[verifier::spinoff_prover]
    #[verifier::rlimit(40)]
    fn read_data_chunk<D: EntryData>(
        &mut self,
        sizes: &Sizes,
        entries: &mut Vec<ReaderEntry<D>>,
        pinned: &mut ReaderPinned<D>,
        ctx: &mut Context<'_>,
        output: &mut ReadBuf,
    ) -> (result: Poll<Result<(), ReadError<D::Error>>>)
        requires
            old(output).wf(),
            old(output).room() > 0,
            layout_matches(*sizes, old(entries)@),
            old(self).wf(old(entries)@.len()),
            old(self).opened_fits(old(entries)@, *old(pinned)),
            old(self).staging_buffer@.len() == 0,
            old(self).current_chunk is FileData,
            old(self).to_skip < old(self).current_chunk.spec_size(files(old(entries)@)),
        ensures
            final(output).extends(*old(output)),
            layout_matches(*sizes, final(entries)@),
            same_but_crc32s(final(entries)@, old(entries)@),
            final(self).wf(final(entries)@.len()),
            final(self).opened_fits(final(entries)@, *final(pinned)),
            final(self).position == old(self).position,
            match result {
                Poll::Ready(Ok(_)) => {
                    ||| final(self).current_chunk == old(self).current_chunk.spec_next(
                        old(entries)@.len(),
                    ) && final(self).chunk_processed_size == 0
                    ||| final(self).current_chunk == old(self).current_chunk && final(output).room()
                        < old(output).room() && final(self).staging_buffer@.len() == 0
                },
                _ => final(self).current_chunk == old(self).current_chunk,
            },
            result matches Poll::Ready(Err(error)) ==> final(self).fails_by(final(entries)@, error),
            result is Pending ==> final(self).keeps_open(
                *old(self),
                *old(pinned),
                *final(pinned),
            ),
            match result {
                Poll::Ready(Ok(_)) => final(self).goes_on(
                    *old(self),
                    old(entries)@,
                    *old(pinned),
                    final(entries)@,
                    *final(pinned),
                    final(output)@.len() - old(output)@.len(),
                ),
                Poll::Ready(Err(_)) => true,
                Poll::Pending => final(self).goes_on(
                    *old(self),
                    old(entries)@,
                    *old(pinned),
                    final(entries)@,
                    *final(pinned),
                    0,
                ),
            },
            old(self).pending_error(old(entries)@, *old(pinned)) matches Some(error)
                ==> match result {
                Poll::Ready(Ok(_)) => false,
                Poll::Ready(Err(ReadError::Zippity(found))) => {
                    &&& found == error
                    &&& final(output)@ == old(output)@
                },
                Poll::Ready(Err(failed)) => !old(self).data_prompt(old(entries)@)
                    && failed is Source,
                Poll::Pending => {
                    &&& !old(self).data_prompt(old(entries)@)
                    &&& final(output)@ == old(output)@
                    &&& final(self).pending_error(final(entries)@, *final(pinned)) == Some(error)
                },
            },
            all_exact(old(entries)@) && old(self).synced(
                old(entries)@,
                *old(pinned),
                old(self).unstaged_position(old(entries)@),
            ) ==> {
                let error = old(self).pending_error(old(entries)@, *old(pinned));
                match result {
                    Poll::Ready(Err(ReadError::Zippity(found))) => {
                        &&& error == Some(found)
                        &&& final(output)@ == old(output)@
                    },
                    Poll::Ready(Err(failed)) => !all_prompt(old(entries)@) && failed is Source,
                    _ => {
                        &&& result matches Poll::Ready(Ok(_)) ==> error is None
                        &&& result is Pending ==> {
                            &&& !all_prompt(old(entries)@)
                            &&& final(output)@ == old(output)@
                            &&& final(self).pending_error(final(entries)@, *final(pinned)) == error
                            &&& final(self).not_behind(
                                *old(self),
                                old(entries)@,
                                *old(pinned),
                                *final(pinned),
                            )
                        }
                        &&& final(self).keeps_to_archive(
                            files(old(entries)@),
                            old(self).unstaged_position(old(entries)@),
                            *old(output),
                            final(entries)@,
                            *final(pinned),
                            *final(output),
                        )
                    },
                }
            },
    {
        let ghost (s0, o0) = (*self, *output);
        let ghost es0 = entries@;
        let ghost fs = files(es0);
        let ghost exact = all_exact(es0) && self.synced(
            es0,
            *pinned,
            self.unstaged_position(es0),
        );
        proof {
            s0.current_chunk.lemma_next(fs);
            assert(same_but_crc32s(es0, es0));
            if exact {
                lemma_data_stands(es0, *pinned, s0);
            }
        }
        if let Chunk::FileData { entry_index } = self.current_chunk {
            let i: usize = entry_index;
            assert(es0[i as int].wf());
            let result = self.read_file_data(&mut entries[i], pinned, ctx, output);
            proof {
                let entry = entries@[i as int];
                assert(entries@ =~= es0.update(i as int, entry));
                lemma_update_same(es0, es0, i as int, entry);
                lemma_layout_same(*sizes, entries@, es0);
            }
            match result {
                Poll::Ready(Ok(done)) => {
                    let ghost s1 = *self;
                    self.advance(entries.as_slice(), done);
                    proof {
                        lemma_data_counted(
                            es0,
                            entries@,
                            s0,
                            s1,
                            *self,
                            done,
                            output@.len() - o0@.len(),
                        );
                        if s0.lists(es0) {
                            if done {
                                lemma_done_lists(es0, entries@, s0, *self);
                            } else {
                                lemma_within_lists(es0, entries@, s0, *self);
                            }
                        }
                        if s0.in_order(es0, *old(pinned)) {
                            lemma_data_in_order(
                                es0,
                                entries@,
                                *old(pinned),
                                *pinned,
                                s0,
                                s1,
                                *self,
                                i as int,
                                done,
                            );
                        }
                        if exact {
                            lemma_data_step(
                                es0,
                                entries@,
                                *old(pinned),
                                *pinned,
                                s0,
                                o0,
                                s1,
                                *output,
                                *self,
                                done,
                            );
                        }
                    }
                    Poll::Ready(Ok(()))
                },
                Poll::Ready(Err(error)) => {
                    assert(exact && error is Source ==> !es0[i as int].data.prompt());
                    Poll::Ready(Err(error))
                },
                Poll::Pending => {
                    proof {
                        assert(entries@ =~= es0);
                        lemma_data_counted(es0, entries@, s0, *self, *self, false, 0);
                        if s0.lists(es0) {
                            lemma_within_lists(es0, entries@, s0, *self);
                        }
                        if s0.in_order(es0, *old(pinned)) {
                            lemma_data_in_order(
                                es0,
                                entries@,
                                *old(pinned),
                                *pinned,
                                s0,
                                *self,
                                *self,
                                i as int,
                                false,
                            );
                        }
                        if exact {
                            assert(!es0[i as int].data.prompt());
                            lemma_data_wait(es0, *old(pinned), *pinned, s0, o0, *self, *output);
                        }
                    }
                    Poll::Pending
                },
            }
        } else {
            Poll::Ready(Ok(()))
        }
    }

    /// Produces the current chunk, or as much of it as fits if it is file data.
    fn read_chunk<D: EntryData>(
        &mut self,
        sizes: &Sizes,
        entries: &mut Vec<ReaderEntry<D>>,
        pinned: &mut ReaderPinned<D>,
        ctx: &mut Context<'_>,
        output: &mut ReadBuf,
    ) -> (result: Poll<Result<(), ReadError<D::Error>>>)
        requires
            old(output).wf(),
            old(output).room() > 0,
            layout_matches(*sizes, old(entries)@),
            old(self).wf(old(entries)@.len()),
            old(self).opened_fits(old(entries)@, *old(pinned)),
            old(self).staging_buffer@.len() == 0,
            old(self).current_chunk !is Finished,
            old(self).to_skip < old(self).current_chunk.spec_size(files(old(entries)@)),
        ensures
            final(output).extends(*old(output)),
            layout_matches(*sizes, final(entries)@),
            same_but_crc32s(final(entries)@, old(entries)@),
            final(self).wf(final(entries)@.len()),
            final(self).opened_fits(final(entries)@, *final(pinned)),
            final(self).position == old(self).position,
            match result {
                Poll::Ready(Ok(_)) => {
                    ||| final(self).current_chunk == old(self).current_chunk.spec_next(
                        old(entries)@.len(),
                    ) && final(self).chunk_processed_size == 0
                    ||| final(self).current_chunk == old(self).current_chunk && final(output).room()
                        < old(output).room() && final(self).staging_buffer@.len() == 0
                },
                _ => {
                    &&& final(self).current_chunk == old(self).current_chunk
                    &&& final(self).asks_for_data(final(entries)@)
                    &&& final(output)@ == old(output)@ || final(self).current_chunk is FileData
                },
            },
            match result {
                Poll::Ready(Ok(_)) => final(self).goes_on(
                    *old(self),
                    old(entries)@,
                    *old(pinned),
                    final(entries)@,
                    *final(pinned),
                    final(output)@.len() - old(output)@.len(),
                ),
                Poll::Ready(Err(_)) => true,
                Poll::Pending => final(self).goes_on(
                    *old(self),
                    old(entries)@,
                    *old(pinned),
                    final(entries)@,
                    *final(pinned),
                    0,
                ),
            },
            old(self).pending_error(old(entries)@, *old(pinned)) matches Some(error)
                ==> match result {
                Poll::Ready(Ok(_)) => false,
                Poll::Ready(Err(ReadError::Zippity(found))) => {
                    &&& found == error
                    &&& final(output)@ == old(output)@
                },
                Poll::Ready(Err(failed)) => !old(self).data_prompt(old(entries)@)
                    && failed is Source,
                Poll::Pending => {
                    &&& !old(self).data_prompt(old(entries)@)
                    &&& final(output)@ == old(output)@
                    &&& final(self).pending_error(final(entries)@, *final(pinned)) == Some(error)
                },
            },
            result matches Poll::Ready(Err(error)) ==> final(self).fails_by(final(entries)@, error),
            result is Pending ==> final(self).keeps_open(
                *old(self),
                *old(pinned),
                *final(pinned),
            ),
            all_exact(old(entries)@) && old(self).synced(
                old(entries)@,
                *old(pinned),
                old(self).unstaged_position(old(entries)@),
            ) ==> {
                let error = old(self).pending_error(old(entries)@, *old(pinned));
                match result {
                    Poll::Ready(Err(ReadError::Zippity(found))) => {
                        &&& error == Some(found)
                        &&& final(output)@ == old(output)@
                    },
                    Poll::Ready(Err(failed)) => !all_prompt(old(entries)@) && failed is Source,
                    _ => {
                        &&& result matches Poll::Ready(Ok(_)) ==> error is None
                        &&& result is Pending ==> {
                            &&& !all_prompt(old(entries)@)
                            &&& final(output)@ == old(output)@
                            &&& final(self).pending_error(final(entries)@, *final(pinned)) == error
                            &&& final(self).not_behind(
                                *old(self),
                                old(entries)@,
                                *old(pinned),
                                *final(pinned),
                            )
                        }
                        &&& final(self).keeps_to_archive(
                            files(old(entries)@),
                            old(self).unstaged_position(old(entries)@),
                            *old(output),
                            final(entries)@,
                            *final(pinned),
                            *final(output),
                        )
                    },
                }
            },
    {
        if let Chunk::FileData { .. } = self.current_chunk {
            self.read_data_chunk(sizes, entries, pinned, ctx, output)
        } else {
            self.read_header_chunk(sizes, entries, pinned, ctx, output)
        }
    }

    /// Passes on what is staged, as far as it fits.
    fn pass_staged<D: EntryData>(
        &mut self,
        entries: &Vec<ReaderEntry<D>>,
        pinned: &ReaderPinned<D>,
        output: &mut ReadBuf,
        Ghost(position): Ghost<int>,
    )
        requires
            old(output).wf(),
            old(output).room() > 0,
            old(self).staging_buffer@.len() > 0,
            old(self).wf(entries@.len()),
            old(self).opened_fits(entries@, *pinned),
            position >= 0,
        ensures
            final(output).extends(*old(output)),
            final(self).wf(entries@.len()),
            final(self).opened_fits(entries@, *pinned),
            final(self).position == old(self).position,
            final(self).current_chunk == old(self).current_chunk,
            final(output).room() + final(self).staging_buffer@.len() < old(output).room() + old(
                self,
            ).staging_buffer@.len(),
            old(self).stands_at(entries@, position) ==> {
                &&& final(output)@.len() > old(output)@.len()
                &&& final(self).stands_at(
                    entries@,
                    position + final(output)@.len() - old(output)@.len(),
                )
            },
            old(self).in_order(entries@, *pinned) ==> final(self).in_order(entries@, *pinned),
            old(self).lists(entries@) ==> final(self).lists(entries@),
            all_exact(entries@) && old(self).synced(entries@, *pinned, position) && archive(
                files(entries@),
            ).len() == archive_size(files(entries@)) ==> {
                &&& final(output)@.len() > old(output)@.len()
                &&& old(self).pending_error(entries@, *pinned) is None
                &&& final(self).keeps_to_archive(
                    files(entries@),
                    position,
                    *old(output),
                    entries@,
                    *pinned,
                    *final(output),
                )
            },
    {
        let ghost (s0, o0) = (*self, *output);
        let ghost es = entries@;
        let ghost exact = all_exact(es) && self.synced(es, *pinned, position) && archive(
            files(es),
        ).len() == archive_size(files(es));
        let ghost counted = self.stands_at(es, position);
        proof {
            if exact {
                lemma_synced_position(es, *pinned, position, s0);
            }
            if counted {
                lemma_staged_bound(es, position, s0);
            }
        }
        self.read_from_staging(output);
        proof {
            if counted {
                lemma_staged_counted(es, position, s0, o0, *self, *output);
            }
            if s0.in_order(es, *pinned) {
                lemma_staged_in_order(es, *pinned, s0, *self);
            }
            if s0.lists(es) {
                lemma_staged_lists(es, s0, *self);
            }
            if exact {
                lemma_staged_passed(es, *pinned, position, s0, o0, *self, *output);
            }
        }
    }

    /// Skips the current chunk, which is `size` bytes long.
    fn skip_chunk<D: EntryData>(
        &mut self,
        entries: &Vec<ReaderEntry<D>>,
        pinned: &ReaderPinned<D>,
        size: u64,
        Ghost(position): Ghost<int>,
    )
        requires
            entries@.len() <= usize::MAX,
            old(self).staging_buffer@.len() == 0,
            old(self).wf(entries@.len()),
            old(self).opened_fits(entries@, *pinned),
            old(self).current_chunk !is Finished,
            size == old(self).current_chunk.spec_size(files(entries@)),
            old(self).to_skip >= size,
        ensures
            final(self).wf(entries@.len()),
            final(self).opened_fits(entries@, *pinned),
            final(self).position == old(self).position,
            final(self).current_chunk == old(self).current_chunk.spec_next(entries@.len()),
            final(self).staging_buffer == old(self).staging_buffer,
            old(self).pending_error(entries@, *pinned) is None,
            old(self).stands_at(entries@, position) ==> final(self).stands_at(entries@, position),
            old(self).in_order(entries@, *pinned) ==> final(self).in_order(entries@, *pinned),
            old(self).lists(entries@) ==> final(self).lists(entries@),
            all_exact(entries@) && old(self).synced(entries@, *pinned, position) ==> {
                &&& final(self).synced(entries@, *pinned, position)
                &&& final(self).pending_error(entries@, *pinned) is None
            },
    {
        let ghost s0 = *self;
        let ghost es = entries@;
        proof {
            s0.current_chunk.lemma_next(files(es));
        }
        self.to_skip = self.to_skip - size;
        self.advance(entries.as_slice(), true);
        proof {
            if s0.stands_at(es, position) {
                lemma_skip_counted(es, position, s0, *self);
            }
            if s0.in_order(es, *pinned) {
                lemma_skip_in_order(es, *pinned, s0, *self);
            }
            if s0.lists(es) {
                lemma_skip_lists(es, s0, *self);
            }
            if all_exact(es) && s0.synced(es, *pinned, position) {
                lemma_skip_step(es, *pinned, position, s0, *self);
                lemma_synced_position(es, *pinned, position, *self);
            }
        }
    }

    /// One step of reading: passes on what is staged, or skips or produces the current chunk.
    /// Tells whether to go on.
    ///
    /// `started` tells whether something was written before. Then file data and checksums are not
    /// waited for. `position` is where reading stands.
    #[verifier::spinoff_prover]
    #[verifier::rlimit(60)]
    fn read_step<D: EntryData>(
        &mut self,
        sizes: &Sizes,
        entries: &mut Vec<ReaderEntry<D>>,
        pinned: &mut ReaderPinned<D>,
        ctx: &mut Context<'_>,
        output: &mut ReadBuf,
        started: bool,
        Ghost(position): Ghost<int>,
    ) -> (result: Poll<Result<bool, ReadError<D::Error>>>)
        requires
            old(output).wf(),
            old(output).room() > 0,
            layout_matches(*sizes, old(entries)@),
            old(self).wf(old(entries)@.len()),
            old(self).opened_fits(old(entries)@, *old(pinned)),
            position >= 0,
        ensures
            final(output).extends(*old(output)),
            layout_matches(*sizes, final(entries)@),
            same_but_crc32s(final(entries)@, old(entries)@),
            final(self).wf(final(entries)@.len()),
            final(self).opened_fits(final(entries)@, *final(pinned)),
            final(self).position == old(self).position,
            match result {
                Poll::Ready(Ok(true)) => {
                    let (rank0, rank1) = (
                        old(self).current_chunk.rank(old(entries)@.len()),
                        final(self).current_chunk.rank(old(entries)@.len()),
                    );
                    let left0 = old(output).room() + old(self).staging_buffer@.len();
                    let left1 = final(output).room() + final(self).staging_buffer@.len();
                    &&& 0 <= rank1 < rank0 || rank1 == rank0 && left1 < left0
                    &&& rank1 == rank0 && final(output)@.len() == old(output)@.len()
                        ==> *final(pinned) == *old(pinned)
                },
                Poll::Ready(Ok(false)) => {
                    &&& final(output)@ == old(output)@
                    &&& final(self).staging_buffer@.len() == 0
                    &&& final(self).current_chunk is Finished || started && (
                    final(self).current_chunk is FileData || *final(pinned) !is Nothing)
                },
                Poll::Ready(Err(error)) => {
                    &&& final(self).asks_for_data(final(entries)@)
                    &&& final(self).fails_by(final(entries)@, error)
                },
                Poll::Pending => {
                    &&& !started
                    &&& final(self).current_chunk == old(self).current_chunk
                    &&& final(output)@ == old(output)@ || final(self).current_chunk is FileData
                    &&& final(self).asks_for_data(final(entries)@)
                    &&& final(self).keeps_open(*old(self), *old(pinned), *final(pinned))
                },
            },
            old(self).stands_at(old(entries)@, position) ==> match result {
                Poll::Ready(Ok(_)) => final(self).stands_at(
                    final(entries)@,
                    position + final(output)@.len() - old(output)@.len(),
                ),
                Poll::Ready(Err(_)) => true,
                Poll::Pending => final(self).stands_at(final(entries)@, position),
            },
            old(self).in_order(old(entries)@, *old(pinned)) && !(result matches Poll::Ready(
                Err(_),
            )) ==> final(self).in_order(final(entries)@, *final(pinned)),
            old(self).lists(old(entries)@) && !(result matches Poll::Ready(Err(_)))
                ==> final(self).lists(final(entries)@),
            !started && (old(self).pending_error(old(entries)@, *old(pinned)) matches Some(error))
                ==> {
                let error = old(self).pending_error(old(entries)@, *old(pinned));
                match result {
                    Poll::Ready(Ok(_)) => false,
                    Poll::Ready(Err(ReadError::Zippity(found))) => {
                        &&& error == Some(found)
                        &&& final(output)@ == old(output)@
                    },
                    Poll::Ready(Err(failed)) => !old(self).data_prompt(old(entries)@)
                        && failed is Source,
                    Poll::Pending => {
                        &&& !old(self).data_prompt(old(entries)@)
                        &&& final(output)@ == old(output)@
                        &&& final(self).pending_error(final(entries)@, *final(pinned)) == error
                    },
                }
            },
            all_exact(old(entries)@) && old(self).synced(old(entries)@, *old(pinned), position)
                && archive(files(old(entries)@)).len() == archive_size(files(old(entries)@)) ==> {
                let error = old(self).pending_error(old(entries)@, *old(pinned));
                match result {
                    Poll::Ready(Err(ReadError::Zippity(found))) => {
                        &&& !started
                        &&& error == Some(found)
                        &&& final(output)@ == old(output)@
                    },
                    Poll::Ready(Err(failed)) => !all_prompt(old(entries)@) && failed is Source,
                    _ => {
                        &&& result is Pending ==> {
                            &&& !all_prompt(old(entries)@)
                            &&& final(output)@ == old(output)@
                            &&& final(self).pending_error(final(entries)@, *final(pinned)) == error
                            &&& final(self).not_behind(
                                *old(self),
                                old(entries)@,
                                *old(pinned),
                                *final(pinned),
                            )
                        }
                        &&& result == Poll::Ready(Ok::<bool, ReadError<D::Error>>(true)) ==> {
                            &&& error is None
                            &&& final(output)@.len() == old(output)@.len()
                                ==> final(self).pending_error(final(entries)@, *final(pinned))
                                is None
                        }
                        &&& result == Poll::Ready(Ok::<bool, ReadError<D::Error>>(false))
                            && all_prompt(old(entries)@) ==> final(self).current_chunk is Finished
                            || final(self).current_chunk is FileData
                        &&& final(self).keeps_to_archive(
                            files(old(entries)@),
                            position,
                            *old(output),
                            final(entries)@,
                            *final(pinned),
                            *final(output),
                        )
                    },
                }
            },
    {
        let ghost (s0, o0) = (*self, *output);
        let ghost es0 = entries@;
        let ghost exact = all_exact(es0) && self.synced(es0, *pinned, position) && archive(
            files(es0),
        ).len() == archive_size(files(es0));
        let ghost counted = self.stands_at(es0, position);
        proof {
            assert(same_but_crc32s(es0, es0));
            if exact {
                lemma_synced_position(es0, *pinned, position, s0);
            }
        }
        if self.staging_buffer.len() > 0 {
            self.pass_staged(entries, pinned, output, Ghost(position));
            return Poll::Ready(Ok(true));
        }
        if let Chunk::Finished = self.current_chunk {
            proof {
                if exact {
                    lemma_nothing_done(es0, *pinned, position, s0, o0);
                }
            }
            return Poll::Ready(Ok(false));
        }
        proof {
            s0.current_chunk.lemma_next(files(es0));
        }
        let current_chunk_size: u64 = self.current_chunk.size(entries.as_slice());
        if self.to_skip >= current_chunk_size {
            self.skip_chunk(entries, pinned, current_chunk_size, Ghost(position));
            proof {
                if exact {
                    lemma_nothing_done(es0, *pinned, position, *self, o0);
                }
            }
            return Poll::Ready(Ok(true));
        }
        if let Chunk::FileData { .. } = self.current_chunk {
            if started {
                // Something was written already, and file data might have to be waited for.
                proof {
                    if exact {
                        lemma_nothing_done(es0, *pinned, position, s0, o0);
                    }
                }
                return Poll::Ready(Ok(false));
            }
        }
        let result = self.read_chunk(sizes, entries, pinned, ctx, output);
        let ghost written = output@.len() - o0@.len();
        proof {
            if counted {
                lemma_stands_unstaged(es0, position, s0);
                if result matches Poll::Ready(Ok(_)) {
                    lemma_stands_on(
                        entries@,
                        position,
                        s0.unstaged_position(es0),
                        written,
                        *self,
                    );
                } else if result is Pending {
                    lemma_stands_on(entries@, position, s0.unstaged_position(es0), 0, *self);
                }
            }
            if exact && (result matches Poll::Ready(Ok(_))) {
                lemma_synced_position(entries@, *pinned, position + written, *self);
            }
        }
        match result {
            Poll::Ready(Ok(_)) => Poll::Ready(Ok(true)),
            Poll::Ready(Err(error)) => Poll::Ready(Err(error)),
            // What was written already must not be lost while a checksum is waited for.
            Poll::Pending => if started {
                Poll::Ready(Ok(false))
            } else {
                Poll::Pending
            },
        }
    }

    /// Reads the archive into `output` from the current position on.
    ///
    /// At least one byte is read, unless nothing fits or the end is reached. A read goes on until
    /// nothing more fits or the end is reached. But it does not go on into file data behind other
    /// bytes, because that might have to be waited for, and stops behind other bytes rather than
    /// wait for a checksum.
    #[verifier::spinoff_prover]
    #[verifier::rlimit(60)]
    pub fn read<D: EntryData>(
        &mut self,
        sizes: &Sizes,
        entries: &mut Vec<ReaderEntry<D>>,
        pinned: &mut ReaderPinned<D>,
        ctx: &mut Context<'_>,
        output: &mut ReadBuf,
    ) -> (result: Poll<Result<(), ReadError<D::Error>>>)
        requires
            old(output).wf(),
            layout_matches(*sizes, old(entries)@),
            old(self).wf(old(entries)@.len()),
            old(self).opened_fits(old(entries)@, *old(pinned)),
        ensures
            final(output).extends(*old(output)),
            layout_matches(*sizes, final(entries)@),
            same_but_crc32s(final(entries)@, old(entries)@),
            final(self).wf(final(entries)@.len()),
            final(self).opened_fits(final(entries)@, *final(pinned)),
            match result {
                Poll::Ready(Ok(_)) => {
                    &&& final(self).position == saturating_sum(
                        old(self).position as int,
                        final(output)@.len() - old(output)@.len(),
                    )
                    &&& {
                        ||| final(output).room() == 0
                        ||| final(self).at_end()
                        ||| final(output)@.len() > old(output)@.len() && (
                        final(self).current_chunk is FileData || *final(pinned) !is Nothing)
                    }
                },
                _ => {
                    &&& final(self).position == old(self).position
                    &&& final(self).asks_for_data(final(entries)@)
                },
            },
            result matches Poll::Ready(Err(error)) ==> final(self).fails_by(final(entries)@, error),
            result is Pending ==> {
                &&& final(output)@ == old(output)@ || final(self).current_chunk is FileData
                &&& final(self).keeps_open(*old(self), *old(pinned), *final(pinned))
            },
            old(self).stands_at(old(entries)@, old(self).position as int) && !(result matches
                Poll::Ready(Err(_))) ==> final(self).stands_at(
                final(entries)@,
                final(self).position as int,
            ),
            old(self).in_order(old(entries)@, *old(pinned)) && !(result matches Poll::Ready(
                Err(_),
            )) ==> final(self).in_order(final(entries)@, *final(pinned)),
            old(self).lists(old(entries)@) && !(result matches Poll::Ready(Err(_)))
                ==> final(self).lists(final(entries)@),
            old(output).room() > 0 && (old(self).pending_error(old(entries)@, *old(pinned)) matches
                Some(error)) ==> {
                let error = old(self).pending_error(old(entries)@, *old(pinned));
                match result {
                    Poll::Ready(Ok(_)) => false,
                    Poll::Ready(Err(ReadError::Zippity(found))) => {
                        &&& error == Some(found)
                        &&& final(output)@ == old(output)@
                    },
                    Poll::Ready(Err(failed)) => !old(self).data_prompt(old(entries)@)
                        && failed is Source,
                    Poll::Pending => {
                        &&& !old(self).data_prompt(old(entries)@)
                        &&& final(output)@ == old(output)@
                        &&& final(self).pending_error(final(entries)@, *final(pinned)) == error
                    },
                }
            },
            all_exact(old(entries)@) && old(self).synced(
                old(entries)@,
                *old(pinned),
                old(self).position as int,
            ) ==> {
                let fs = files(old(entries)@);
                let error = old(self).pending_error(old(entries)@, *old(pinned));
                match result {
                    Poll::Ready(Err(ReadError::Zippity(found))) => {
                        &&& error == Some(found)
                        &&& final(output)@ == old(output)@
                    },
                    Poll::Ready(Err(failed)) => !all_prompt(old(entries)@) && failed is Source,
                    _ => {
                        &&& result matches Poll::Ready(Ok(_)) ==> {
                            &&& error is None || old(output).room() == 0
                            &&& final(output)@.len() == old(output)@.len() ==> old(output).room()
                                == 0 || old(self).position >= archive(fs).len()
                            &&& all_prompt(old(entries)@) ==> {
                                ||| final(output).room() == 0
                                ||| final(self).position >= archive(fs).len()
                                ||| final(self).current_chunk is FileData
                            }
                        }
                        &&& result is Pending ==> {
                            &&& !all_prompt(old(entries)@)
                            &&& final(output)@ == old(output)@
                            &&& final(self).pending_error(final(entries)@, *final(pinned)) == error
                            &&& final(self).not_behind(
                                *old(self),
                                old(entries)@,
                                *old(pinned),
                                *final(pinned),
                            )
                        }
                        &&& final(self).keeps_to_archive(
                            fs,
                            old(self).position as int,
                            *old(output),
                            final(entries)@,
                            *final(pinned),
                            *final(output),
                        )
                    },
                }
            },
    {
        let initial_remaining: usize = output.remaining();
        let ghost fs = files(entries@);
        let ghost position = self.position as int;
        let ghost exact = all_exact(entries@) && self.synced(entries@, *pinned, position);
        let ghost error = self.pending_error(entries@, *pinned);
        let ghost counted = self.stands_at(entries@, position);
        let ghost ordered = self.in_order(entries@, *pinned);
        let ghost listed = self.lists(entries@);
        let ghost rank = self.current_chunk.rank(entries@.len());
        proof {
            assert forall|i: int| 0 <= i < entries@.len() implies (
            #[trigger] entries@[i]).same_but_crc32(entries@[i]) by {}
            if exact {
                lemma_exact_complete(entries@);
                lemma_archive_len(fs);
                lemma_nothing_done(entries@, *pinned, position, *self, *output);
            }
        }
        while output.remaining() > 0
            invariant_except_break
                self.current_chunk.rank(entries@.len()) <= rank,
                self.current_chunk.rank(entries@.len()) == rank && output@.len() == old(
                    output,
                )@.len() ==> *pinned == *old(pinned),
            invariant
                rank == old(self).current_chunk.rank(entries@.len()),
                output.extends(*old(output)),
                initial_remaining == old(output).room(),
                layout_matches(*sizes, entries@),
                same_but_crc32s(entries@, old(entries)@),
                self.wf(entries@.len()),
                self.opened_fits(entries@, *pinned),
                self.position == old(self).position,
                fs == files(old(entries)@),
                position == old(self).position,
                exact == (all_exact(old(entries)@) && old(self).synced(
                    old(entries)@,
                    *old(pinned),
                    position,
                )),
                error == old(self).pending_error(old(entries)@, *old(pinned)),
                counted == old(self).stands_at(old(entries)@, position),
                ordered == old(self).in_order(old(entries)@, *old(pinned)),
                counted ==> self.stands_at(
                    entries@,
                    position + output@.len() - old(output)@.len(),
                ),
                ordered ==> self.in_order(entries@, *pinned),
                listed == old(self).lists(old(entries)@),
                listed ==> self.lists(entries@),
                error is Some ==> {
                    &&& *self == *old(self)
                    &&& *pinned == *old(pinned)
                    &&& entries@ == old(entries)@
                    &&& output@ == old(output)@
                },
                exact ==> {
                    &&& archive(fs).len() == archive_size(fs)
                    &&& self.keeps_to_archive(
                        fs,
                        position,
                        *old(output),
                        entries@,
                        *pinned,
                        *output,
                    )
                    &&& output@.len() == old(output)@.len() ==> self.pending_error(
                        entries@,
                        *pinned,
                    ) == error
                },
            ensures
                output.room() > 0 ==> {
                    &&& error is None
                    &&& self.staging_buffer@.len() == 0
                    &&& self.current_chunk is Finished || output@.len() > old(output)@.len() && (
                    self.current_chunk is FileData || *pinned !is Nothing)
                    &&& exact && all_prompt(old(entries)@) ==> self.current_chunk is Finished
                        || self.current_chunk is FileData
                },
            decreases self.current_chunk.rank(entries@.len()),
                output.room() + self.staging_buffer@.len(),
        {
            let ghost o0 = *output;
            let ghost es0 = entries@;
            let ghost p0 = position + output@.len() - old(output)@.len();
            let started: bool = output.remaining() != initial_remaining;
            let result = self.read_step(sizes, entries, pinned, ctx, output, started, Ghost(p0));
            proof {
                lemma_same_transitive(entries@, es0, old(entries)@);
                lemma_prompt_same(es0, old(entries)@);
                if exact && !(result matches Poll::Ready(Err(_))) {
                    lemma_appended_more(fs, position, old(output)@, o0@, output@);
                }
            }
            match result {
                Poll::Ready(Ok(go_on)) => {
                    if !go_on {
                        break;
                    }
                },
                Poll::Ready(Err(error)) => {
                    return Poll::Ready(Err(error));
                },
                Poll::Pending => {
                    return Poll::Pending;
                },
            }
        }
        let written: usize = initial_remaining - output.remaining();
        let ghost s0 = *self;
        self.position = self.position.saturating_add(written as u64);
        proof {
            if counted {
                lemma_stands_on(entries@, self.position as int, position + written, 0, s0);
            }
            if exact {
                lemma_synced_position(entries@, *pinned, position + written, s0);
            }
            lemma_repositioned(
                entries@,
                *pinned,
                s0,
                *self,
                self.position as int,
                position + written,
            );
        }
        Poll::Ready(Ok(()))
    }
}

/// The entry in which `position` lies, or behind which, if it is the last one.
fn entry_at<D: EntryData>(entries: &[ReaderEntry<D>], position: u64) -> (index: usize)
    requires
        entries@.len() > 0,
        entries@[0].offset <= position,
        forall|i: int, j: int|
            0 <= i <= j < entries@.len() ==> entries@[i].offset <= entries@[j].offset,
    ensures
        index < entries@.len(),
        entries@[index as int].offset <= position,
        index + 1 < entries@.len() ==> entries@[index + 1].offset > position,
{
    let mut low: usize = 0;
    let mut high: usize = entries.len();
    while high - low > 1
        invariant
            low < high <= entries@.len(),
            entries@[low as int].offset <= position,
            high < entries@.len() ==> entries@[high as int].offset > position,
            forall|i: int, j: int|
                0 <= i <= j < entries@.len() ==> entries@[i].offset <= entries@[j].offset,
        decreases high - low,
    {
        let middle: usize = low + (high - low) / 2;
        if entries[middle].offset <= position {
            low = middle;
        } else {
            high = middle;
        }
    }
    low
}

impl ReadState {
    /// Goes to `position`, which may lie past the end. Reading then gives nothing.
    ///
    /// Nothing is read: reading begins with the chunk that is found, and skips what lies before
    /// `position`.
    pub fn seek_bytes<D: EntryData>(
        &mut self,
        sizes: &Sizes,
        entries: &[ReaderEntry<D>],
        pinned: &mut ReaderPinned<D>,
        position: u64,
    )
        requires
            layout_matches(*sizes, entries@),
        ensures
            final(self).position == position,
            final(self).staging_buffer@.len() == 0,
            final(self).chunk_processed_size == 0,
            *final(pinned) is Nothing,
            final(self).wf(entries@.len()),
            final(self).synced(entries@, *final(pinned), position as int),
            final(self).stands_at(entries@, position as int),
            position == 0 ==> final(self).in_order(entries@, *final(pinned)),
            position <= sizes.cd_offset ==> final(self).lists(entries@),
            if position >= sizes.eocd_offset {
                final(self).current_chunk == Chunk::Eocd
            } else if position >= sizes.cd_offset {
                final(self).current_chunk == (Chunk::CDFileHeader { entry_index: 0 })
            } else {
                &&& final(self).current_chunk matches Chunk::LocalHeader { entry_index }
                &&& entries@[entry_index as int].offset <= position
                &&& entry_index + 1 < entries@.len() ==> entries@[entry_index + 1].offset
                    > position
            },
    {
        let ghost fs = files(entries@);
        proof {
            if entries@.len() == 0 {
                assert(cd_start(fs) == 0);
                assert(cd_length(fs, 0) == 0);
            } else {
                assert(cd_length(fs, 0) == 0);
                assert(entry_offset(fs, 0) == 0);
                assert(entries@[0].offset == entry_offset(fs, 0));
            }
            assert forall|i: int, j: int| 0 <= i <= j < entries@.len() implies entries@[i].offset
                <= entries@[j].offset by {
                lemma_entry_offset_monotonic(fs, i as nat, j as nat);
            }
        }
        let (chunk, chunk_position): (Chunk, u64) = if position >= sizes.eocd_offset {
            (Chunk::Eocd, sizes.eocd_offset)
        } else if position >= sizes.cd_offset {
            (Chunk::CDFileHeader { entry_index: 0 }, sizes.cd_offset)
        } else {
            let entry_index: usize = entry_at(entries, position);
            (Chunk::LocalHeader { entry_index }, entries[entry_index].offset)
        };
        self.current_chunk = chunk;
        self.chunk_processed_size = 0;
        self.position = position;
        self.staging_buffer.clear();
        self.to_skip = position - chunk_position;
        *pinned = ReaderPinned::Nothing;
        proof {
            reveal(ReadState::synced);
            reveal(ReadState::stands_at);
            reveal(ReadState::in_order);
            reveal(ReadState::lists);
            if let Chunk::LocalHeader { entry_index } = self.current_chunk {
                if entry_index > 0 {
                    lemma_entry_offset_monotonic(fs, 0, entry_index as nat);
                }
            }
            if entries@.len() > 0 {
                lemma_entry_offset_monotonic(fs, 0, entries@.len());
            }
        }
    }
}

} // verus!
