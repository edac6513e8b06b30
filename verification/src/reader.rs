//! A reader that produces an archive.

use crate::chunk::files;
use crate::entry_data::EntryData;
use crate::error::{ReadError, ZippityError};
use crate::io::{Poll, ReadBuf, SeekFrom};
use crate::layout::{
    archive, archive_size, cd_length, entry_offset, lemma_archive_len, FileView,
};
use crate::read_state::{saturating_sum, ReadState, Sizes};
use crate::reader_entry::{ReaderEntry, ReaderPinned};
use crate::reading::{
    all_exact, all_prompt, appended, layout_matches, lemma_exact_complete, same_but_crc32s,
};
use std::task::Context;
use vstd::prelude::*;

verus! {

/// Produces an archive while it is read.
pub struct Reader<D: EntryData> {
    /// Sizes of central directory and whole archive.
    sizes: Sizes,
    /// The entries, with their offsets from the start of the archive.
    /// CRCs may get mutated during reading.
    entries: Vec<ReaderEntry<D>>,
    /// How far reading has come.
    read_state: ReadState,
    /// What is open.
    pinned: ReaderPinned<D>,
}

/// Names and checksums of those of the first `n` entries whose checksum is known.
pub open spec fn known_crc32s<D: EntryData>(
    entries: Seq<ReaderEntry<D>>,
    n: nat,
) -> Seq<(Seq<char>, u32)>
    decreases n,
{
    if n == 0 {
        Seq::empty()
    } else {
        let before = known_crc32s(entries, (n - 1) as nat);
        match entries[n - 1].crc32 {
            Some(crc32) => before.push((entries[n - 1].name@, crc32)),
            None => before,
        }
    }
}

impl<D: EntryData> Reader<D> {
    /// Sizes of central directory and whole archive.
    pub closed spec fn spec_sizes(&self) -> Sizes {
        self.sizes
    }

    /// The entries of the archive.
    pub closed spec fn spec_entries(&self) -> Seq<ReaderEntry<D>> {
        self.entries@
    }

    /// How far reading has come.
    pub closed spec fn state(&self) -> ReadState {
        self.read_state
    }

    /// What is open.
    pub closed spec fn spec_pinned(&self) -> ReaderPinned<D> {
        self.pinned
    }

    /// The sizes are those of the entries, the current chunk is one of the archive's, and nothing
    /// is open that is not needed for it.
    pub open spec fn wf(&self) -> bool {
        &&& layout_matches(self.spec_sizes(), self.spec_entries())
        &&& self.state().wf(self.spec_entries().len())
        &&& self.state().opened_fits(self.spec_entries(), self.spec_pinned())
    }

    /// What the archive says of each entry, and holds for it.
    pub open spec fn files(&self) -> Seq<FileView> {
        files(self.spec_entries())
    }

    /// All bytes of the archive.
    pub open spec fn bytes(&self) -> Seq<u8> {
        archive(self.files())
    }

    /// The current position.
    pub open spec fn spec_tell(&self) -> u64 {
        self.state().position
    }

    /// The data of all entries is what it will be read as and of the size that was reported, and
    /// reading goes on at the current position.
    pub open spec fn on_track(&self) -> bool {
        &&& all_exact(self.spec_entries())
        &&& self.state().synced(
            self.spec_entries(),
            self.spec_pinned(),
            self.spec_tell() as int,
        )
    }

    /// By the bytes that were counted, reading goes on at the current position.
    pub open spec fn counted(&self) -> bool {
        self.state().stands_at(self.spec_entries(), self.spec_tell() as int)
    }

    /// Everything up to where reading goes on was read.
    pub open spec fn in_order(&self) -> bool {
        self.state().in_order(self.spec_entries(), self.spec_pinned())
    }

    /// Nothing of the central directory was skipped: the checksums in all headers there that were
    /// read are known.
    pub open spec fn lists(&self) -> bool {
        self.state().lists(self.spec_entries())
    }

    /// Everything was read.
    pub open spec fn at_end(&self) -> bool {
        self.state().at_end()
    }

    /// The data of all entries is at hand.
    pub open spec fn prompt(&self) -> bool {
        all_prompt(self.spec_entries())
    }

    /// Whether the data of an entry is needed to go on.
    pub open spec fn asks_for_data(&self) -> bool {
        self.state().asks_for_data(self.spec_entries())
    }

    /// Whether `error` is about the data that is needed to go on.
    pub open spec fn fails_by(&self, error: ReadError<D::Error>) -> bool {
        self.state().fails_by(self.spec_entries(), error)
    }

    /// Whether this is what the reader `before` became while data was waited for: something is open,
    /// and what was open for the same chunk was kept.
    pub open spec fn keeps_open(&self, before: Reader<D>) -> bool {
        self.state().keeps_open(before.state(), before.spec_pinned(), self.spec_pinned())
    }

    /// Whether what was open for the same chunk did not fall back behind where it stood `before`.
    pub open spec fn not_behind(&self, before: Reader<D>) -> bool {
        self.state().not_behind(
            before.state(),
            before.spec_entries(),
            before.spec_pinned(),
            self.spec_pinned(),
        )
    }

    /// Whether this is `before`, gone to another position.
    pub open spec fn went(&self, before: Reader<D>, position: SeekFrom) -> bool {
        &&& self.spec_tell() == position.target(
            before.spec_tell() as int,
            before.spec_sizes().total_size as int,
        )
        &&& self.spec_sizes() == before.spec_sizes()
        &&& self.spec_entries() == before.spec_entries()
    }

    /// What the next read will find wrong, if anything.
    pub open spec fn pending_error(&self) -> Option<ZippityError> {
        self.state().pending_error(self.spec_entries(), self.spec_pinned())
    }

    /// Creates a reader that stands at the start.
    pub fn new(sizes: Sizes, entries: Vec<ReaderEntry<D>>) -> (reader: Reader<D>)
        requires
            layout_matches(sizes, entries@),
        ensures
            reader.wf(),
            reader.spec_sizes() == sizes,
            reader.spec_entries() == entries@,
            reader.spec_tell() == 0,
            reader.spec_pinned() is Nothing,
            reader.counted(),
            reader.in_order(),
            reader.lists(),
            reader.pending_error() is None,
            all_exact(entries@) ==> reader.on_track(),
    {
        let read_state = ReadState::new(entries.as_slice());
        proof {
            reveal(ReadState::synced);
            reveal(ReadState::stands_at);
            reveal(ReadState::in_order);
            reveal(ReadState::lists);
            let fs = files(entries@);
            assert(entry_offset(fs, 0) == 0);
            assert(cd_length(fs, 0) == 0);
        }
        Reader { sizes, entries, read_state, pinned: ReaderPinned::Nothing }
    }

    /// The entries of the archive, in the order in which they are stored.
    pub fn get_entries(&self) -> (entries: &[ReaderEntry<D>])
        ensures
            entries@ == self.spec_entries(),
    {
        self.entries.as_slice()
    }

    /// Return the total size of the archive in bytes.
    pub fn size(&self) -> (size: u64)
        ensures
            size == self.spec_sizes().total_size,
            self.wf() ==> size == archive_size(self.files()),
    {
        self.sizes.total_size
    }

    /// Return current position in the archive in bytes.
    /// If not seeking, this is the number of bytes already read.
    pub fn tell(&self) -> (position: u64)
        ensures
            position == self.spec_tell(),
    {
        self.read_state.position
    }

    /// Returns the names and CRC32s of the entries whose CRC32 is already calculated, or was given.
    /// This can be used to cache the CRCs externally to speed up later
    /// requests that seek within the file (not having to re-read the whole
    /// entry data when only CRC is needed).
    pub fn crc32s(&self) -> (crc32s: Vec<(&str, u32)>)
        ensures
            crc32s@.len() == known_crc32s(self.spec_entries(), self.spec_entries().len()).len(),
            forall|i: int|
                0 <= i < crc32s@.len() ==> {
                    let known = known_crc32s(self.spec_entries(), self.spec_entries().len())[i];
                    &&& (#[trigger] crc32s@[i]).0@ == known.0
                    &&& crc32s@[i].1 == known.1
                },
    {
        let mut crc32s: Vec<(&str, u32)> = Vec::new();
        let mut i: usize = 0;
        while i < self.entries.len()
            invariant
                i <= self.entries@.len(),
                crc32s@.len() == known_crc32s(self.entries@, i as nat).len(),
                forall|j: int|
                    0 <= j < crc32s@.len() ==> {
                        let known = known_crc32s(self.entries@, i as nat)[j];
                        &&& (#[trigger] crc32s@[j]).0@ == known.0
                        &&& crc32s@[j].1 == known.1
                    },
            decreases self.entries@.len() - i,
        {
            let entry = &self.entries[i];
            if let Some(crc32) = entry.crc32 {
                crc32s.push((entry.name.as_str(), crc32));
            }
            i = i + 1;
        }
        crc32s
    }

    /// Reads from the current position on into `buf`.
    ///
    /// What is read is the archive, as far as the data of all entries is what it should be. At least
    /// one byte is read unless `buf` is full, the end is reached, data has to be waited for or
    /// cannot be read, or data had not the checksum that was given. Data is asked for only where it
    /// is needed: within it, and for a checksum that is not known. What is open is kept while data
    /// is waited for.
    pub fn poll_read(&mut self, ctx: &mut Context<'_>, buf: &mut ReadBuf) -> (result: Poll<
        Result<(), ReadError<D::Error>>,
    >)
        requires
            old(self).wf(),
            old(buf).wf(),
        ensures
            final(self).wf(),
            final(self).spec_sizes() == old(self).spec_sizes(),
            same_but_crc32s(final(self).spec_entries(), old(self).spec_entries()),
            final(buf).extends(*old(buf)),
            match result {
                Poll::Ready(Ok(_)) => {
                    &&& final(self).spec_tell() == saturating_sum(
                        old(self).spec_tell() as int,
                        final(buf)@.len() - old(buf)@.len(),
                    )
                    &&& {
                        ||| final(buf).room() == 0
                        ||| final(self).at_end()
                        ||| final(buf)@.len() > old(buf)@.len() && (
                        final(self).state().current_chunk is FileData
                            || final(self).spec_pinned() !is Nothing)
                    }
                },
                _ => {
                    &&& final(self).spec_tell() == old(self).spec_tell()
                    &&& final(self).asks_for_data()
                },
            },
            old(self).counted() && !(result matches Poll::Ready(Err(_))) ==> final(self).counted(),
            old(self).in_order() && !(result matches Poll::Ready(Err(_)))
                ==> final(self).in_order(),
            old(self).lists() && !(result matches Poll::Ready(Err(_))) ==> final(self).lists(),
            old(buf).room() > 0 && old(self).pending_error() is Some ==> match result {
                Poll::Ready(Ok(_)) => false,
                Poll::Ready(Err(ReadError::Zippity(found))) => {
                    &&& old(self).pending_error() == Some(found)
                    &&& final(buf)@ == old(buf)@
                },
                Poll::Ready(Err(failed)) => {
                    &&& !old(self).state().data_prompt(old(self).spec_entries())
                    &&& failed is Source
                },
                Poll::Pending => {
                    &&& !old(self).state().data_prompt(old(self).spec_entries())
                    &&& final(buf)@ == old(buf)@
                    &&& final(self).pending_error() == old(self).pending_error()
                },
            },
            result matches Poll::Ready(Err(error)) ==> final(self).fails_by(error),
            result is Pending ==> {
                &&& final(buf)@ == old(buf)@ || final(self).state().current_chunk is FileData
                &&& final(self).keeps_open(*old(self))
            },
            old(self).on_track() ==> {
                let error = old(self).pending_error();
                match result {
                    Poll::Ready(Err(ReadError::Zippity(found))) => {
                        &&& error == Some(found)
                        &&& final(buf)@ == old(buf)@
                    },
                    Poll::Ready(Err(failed)) => !old(self).prompt() && failed is Source,
                    _ => {
                        &&& result matches Poll::Ready(Ok(_)) ==> {
                            &&& error is None || old(buf).room() == 0
                            &&& final(buf)@.len() == old(buf)@.len() ==> old(buf).room() == 0
                                || old(self).spec_tell() >= old(self).bytes().len()
                            &&& old(self).prompt() ==> {
                                ||| final(buf).room() == 0
                                ||| final(self).spec_tell() >= old(self).bytes().len()
                                ||| final(self).state().current_chunk is FileData
                            }
                        }
                        &&& result is Pending ==> {
                            &&& !old(self).prompt()
                            &&& final(buf)@ == old(buf)@
                            &&& final(self).pending_error() == error
                            &&& final(self).not_behind(*old(self))
                        }
                        &&& appended(
                            old(self).files(),
                            old(self).spec_tell() as int,
                            old(buf)@,
                            final(buf)@,
                        )
                        &&& final(self).spec_tell() == old(self).spec_tell() + final(buf)@.len()
                            - old(buf)@.len()
                        &&& final(self).on_track()
                        &&& final(self).files() == old(self).files()
                    },
                }
            },
    {
        let result = self.read_state.read(
            &self.sizes,
            &mut self.entries,
            &mut self.pinned,
            ctx,
            buf,
        );
        proof {
            reveal(appended);
            if old(self).on_track() {
                lemma_exact_complete(old(self).spec_entries());
                lemma_archive_len(old(self).files());
            }
        }
        result
    }

    /// Begins to move to another position, which may lie past the end.
    ///
    /// Nothing is done until the next read.
    pub fn start_seek(&mut self, position: SeekFrom) -> (result: Result<(), ZippityError>)
        requires
            old(self).wf(),
            position.target(
                old(self).spec_tell() as int,
                old(self).spec_sizes().total_size as int,
            ) <= u64::MAX,
        ensures
            final(self).wf(),
            final(self).spec_sizes() == old(self).spec_sizes(),
            final(self).spec_entries() == old(self).spec_entries(),
            ({
                let target = position.target(
                    old(self).spec_tell() as int,
                    old(self).spec_sizes().total_size as int,
                );
                if target < 0 {
                    &&& result == Err::<(), ZippityError>(ZippityError::SeekingBeforeStart)
                    &&& *final(self) == *old(self)
                } else {
                    &&& result is Ok
                    &&& final(self).went(*old(self), position)
                    &&& final(self).spec_tell() == target
                    &&& final(self).counted()
                    &&& target == 0 ==> final(self).in_order()
                    &&& target <= old(self).spec_sizes().cd_offset ==> final(self).lists()
                    &&& final(self).pending_error() is None
                    &&& all_exact(old(self).spec_entries()) ==> final(self).on_track()
                }
            }),
    {
        let target: Option<u64> = match position {
            SeekFrom::Start(offset) => Some(offset),
            SeekFrom::Current(offset) => self.tell().checked_add_signed(offset),
            SeekFrom::End(offset) => self.size().checked_add_signed(offset),
        };
        match target {
            Some(target) => {
                self.seek_from_start_mut(target);
                Ok(())
            },
            None => Err(ZippityError::SeekingBeforeStart),
        }
    }

    /// Goes to `position`, counted from the start.
    pub fn seek_from_start_mut(&mut self, position: u64)
        requires
            old(self).wf(),
        ensures
            final(self).wf(),
            final(self).spec_sizes() == old(self).spec_sizes(),
            final(self).spec_entries() == old(self).spec_entries(),
            final(self).spec_tell() == position,
            final(self).went(*old(self), SeekFrom::Start(position)),
            final(self).counted(),
            position == 0 ==> final(self).in_order(),
            position <= old(self).spec_sizes().cd_offset ==> final(self).lists(),
            final(self).pending_error() is None,
            all_exact(old(self).spec_entries()) ==> final(self).on_track(),
    {
        self.read_state.seek_bytes(
            &self.sizes,
            self.entries.as_slice(),
            &mut self.pinned,
            position,
        );
    }

    /// Finishes a seek. Always succeeds at once.
    pub fn poll_complete(&mut self, _cx: &mut Context<'_>) -> (result: Poll<
        Result<u64, ReadError<D::Error>>,
    >)
        ensures
            *final(self) == *old(self),
            result == Poll::Ready(Ok::<u64, ReadError<D::Error>>(old(self).spec_tell())),
    {
        Poll::Ready(Ok(self.tell()))
    }

    /// Takes out the reader with all that it has calculated, and leaves one of an empty archive.
    pub fn take_pinned(&mut self) -> (taken: Reader<D>)
        ensures
            taken == *old(self),
            final(self).wf(),
            final(self).spec_entries().len() == 0,
            final(self).spec_tell() == 0,
    {
        let entries: Vec<ReaderEntry<D>> = Vec::new();
        let sizes = Sizes { cd_offset: 0, cd_size: 0, eocd_offset: 0, total_size: 98 };
        proof {
            let fs = files(entries@);
            assert(entry_offset(fs, 0) == 0);
            assert(cd_length(fs, 0) == 0);
        }
        let mut taken = Reader::new(sizes, entries);
        std::mem::swap(self, &mut taken);
        taken
    }
}

} // verus!
