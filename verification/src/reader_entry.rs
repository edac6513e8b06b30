//! The entries that an archive is read from.

use crate::crc32::{crc32_of, crc32_update, law_crc32_continues};
use crate::crc_reader::CrcReader;
use crate::entry_data::{EntryData, EntryReader, ReaderFuture};
use crate::error::{ReadError, ZippityError};
use crate::io::{Poll, ReadBuf};
use crate::layout::FileView;
use crate::structs::DosDatetime;
use std::task::Context;
use vstd::prelude::*;

verus! {

/// How much is read at once where the data itself is not wanted, only its checksum.
pub const READ_SIZE: usize = 8192;

/// What is open while an archive is read: at most the data of one entry.
pub enum ReaderPinned<D: EntryData> {
    /// Nothing is open.
    Nothing,
    /// The data of an entry is being opened.
    ReaderFuture(D::Future),
    /// The data of an entry is being read.
    FileReader(CrcReader<D::Reader>),
}

impl<D: EntryData> ReaderPinned<D> {
    /// Whether nothing was skipped of what is open.
    pub open spec fn in_order(&self) -> bool {
        *self matches ReaderPinned::FileReader(reader) ==> !reader.sought()
    }

    /// Whether what is open, if anything, is on its way to reading all of `data` in order.
    pub open spec fn computes(&self, data: &D) -> bool {
        match *self {
            ReaderPinned::Nothing => true,
            ReaderPinned::ReaderFuture(future) => opens(future, data),
            ReaderPinned::FileReader(reader) => {
                &&& !reader.sought()
                &&& reads_from(reader, data, reader.inner().position(data))
            },
        }
    }

    /// Whether this is what `before` became while data was waited for: what was being opened is
    /// still being opened, or is open by now, and what was open still is.
    pub open spec fn continues(&self, before: ReaderPinned<D>) -> bool {
        match before {
            ReaderPinned::Nothing => true,
            ReaderPinned::ReaderFuture(future) => match *self {
                ReaderPinned::Nothing => false,
                ReaderPinned::ReaderFuture(left) => forall|reader: D::Reader| #[trigger]
                    left.yields(reader) ==> future.yields(reader),
                ReaderPinned::FileReader(_) => true,
            },
            ReaderPinned::FileReader(_) => *self is FileReader,
        }
    }

    /// Whether what is open did not fall back behind where it stood in `data` `before`.
    pub open spec fn not_behind(&self, before: ReaderPinned<D>, data: &D) -> bool {
        before matches ReaderPinned::FileReader(earlier) ==> {
            &&& *self matches ReaderPinned::FileReader(later)
            &&& earlier.inner().position(data) <= later.inner().position(data)
        }
    }
}

/// Whether `reader`, as far as it does not fail, will give the content of `data` from `position` on,
/// and has so far computed the checksum of what comes before, unless it skipped it.
pub open spec fn reads_from<D: EntryData>(
    reader: CrcReader<D::Reader>,
    data: &D,
    position: nat,
) -> bool {
    &&& reader.inner().exact(data)
    &&& reader.inner().content(data) == data.content()
    &&& reader.inner().position(data) == position
    &&& data.prompt() ==> reader.inner().prompt(data)
    &&& !reader.seeking()
    &&& position <= data.content().len()
    &&& !reader.sought() ==> reader.spec_crc32() == crc32_of(
        data.content().take(position as int),
    )
}

/// Whether `reader` is on its way to `position` in the content of `data`.
pub open spec fn seeks_to<D: EntryData>(
    reader: CrcReader<D::Reader>,
    data: &D,
    position: nat,
) -> bool {
    &&& reader.inner().exact(data)
    &&& reader.inner().content(data) == data.content()
    &&& reader.inner().position(data) == position
    &&& data.prompt() ==> reader.inner().prompt(data)
    &&& reader.seeking()
    &&& reader.sought()
    &&& position <= data.content().len()
}

/// Whether all that `future` may give are readers of the content of `data` from the start on.
pub open spec fn opens<D: EntryData>(future: D::Future, data: &D) -> bool {
    &&& data.prompt() ==> future.prompt()
    &&& forall|reader: D::Reader| #[trigger]
        future.yields(reader) ==> {
            &&& reader.exact(data)
            &&& reader.content(data) == data.content()
            &&& reader.position(data) == 0
            &&& data.prompt() ==> reader.prompt(data)
        }
}

/// One entry of an archive that is being read.
pub struct ReaderEntry<D: EntryData> {
    pub name: String,
    pub data: D,
    /// Where the entry begins, counted from the start of the archive.
    pub offset: u64,
    /// The checksum of the data, where it was given or is already calculated.
    pub crc32: Option<u32>,
    pub datetime: DosDatetime,
    pub external_attributes: u32,
    /// The size of the data that the headers give.
    pub size: u64,
}

impl<D: EntryData> ReaderEntry<D> {
    /// The name as it is stored.
    pub open spec fn name_bytes(&self) -> Seq<u8> {
        vstd::utf8::encode_utf8(self.name@)
    }

    /// The checksum that is stored: the one given, else the one of the data.
    pub open spec fn stored_crc32(&self) -> u32 {
        match self.crc32 {
            Some(crc32) => crc32,
            None => crc32_of(self.data.content()),
        }
    }

    /// What the archive says of this entry, and holds for it.
    pub open spec fn file(&self) -> FileView {
        FileView {
            name: self.name_bytes(),
            size: self.size,
            content: self.data.content(),
            crc32: self.stored_crc32(),
            datetime: self.datetime,
            external_attributes: self.external_attributes,
        }
    }

    /// The data is what it will be read as, and of the size that the headers give.
    pub open spec fn exact(&self) -> bool {
        &&& self.data.exact()
        &&& self.data.content().len() == self.size
    }

    /// The name fits into a header, and there are readers unless the data is empty.
    pub open spec fn wf(&self) -> bool {
        &&& self.name_bytes().len() <= u16::MAX
        &&& self.size > 0 ==> self.data.openable()
    }

    /// This is `before`, but for the checksum. A checksum that was known still is.
    pub open spec fn same_but_crc32(&self, before: ReaderEntry<D>) -> bool {
        &&& *self == (ReaderEntry { crc32: self.crc32, ..before })
        &&& before.crc32 is Some ==> self.crc32 is Some
    }

    /// The data, as far as it was to be read at all, has the size that the headers give.
    pub open spec fn right_size(&self) -> bool {
        self.size > 0 && self.data.exact() && self.data.content().len() <= u64::MAX
            ==> self.data.content().len() == self.size
    }

    /// Creates an entry.
    pub fn new(
        name: String,
        data: D,
        offset: u64,
        crc32: Option<u32>,
        datetime: DosDatetime,
        external_attributes: u32,
        size: u64,
    ) -> (entry: ReaderEntry<D>)
        ensures
            entry == (ReaderEntry {
                name,
                data,
                offset,
                crc32,
                datetime,
                external_attributes,
                size,
            }),
    {
        ReaderEntry { name, data, offset, crc32, datetime, external_attributes, size }
    }

    /// The name of the entry.
    pub fn get_name(&self) -> (name: &str)
        ensures
            name@ == self.name@,
    {
        self.name.as_str()
    }

    /// Opens the data, unless it is open already.
    ///
    /// Calling this repeatedly progresses towards an open reader.
    pub fn get_reader(&self, pinned: &mut ReaderPinned<D>, ctx: &mut Context<'_>) -> (result: Poll<
        Result<(), D::Error>,
    >)
        requires
            self.data.openable(),
        ensures
            (result matches Poll::Ready(Ok(_))) ==> *final(pinned) is FileReader,
            *old(pinned) is FileReader ==> *final(pinned) == *old(pinned) && (result matches
                Poll::Ready(Ok(_))),
            old(pinned).in_order() ==> final(pinned).in_order(),
            result is Pending ==> *final(pinned) is ReaderFuture,
            *old(pinned) matches ReaderPinned::ReaderFuture(future) ==> match *final(pinned) {
                ReaderPinned::Nothing => false,
                ReaderPinned::ReaderFuture(left) => result is Pending
                    ==> forall|reader: D::Reader| #[trigger]
                    left.yields(reader) ==> future.yields(reader),
                ReaderPinned::FileReader(reader) => future.yields(reader.inner()),
            },
            self.data.exact() && *old(pinned) !is FileReader && old(pinned).computes(&self.data)
                ==> match result {
                Poll::Ready(Ok(_)) => {
                    &&& *final(pinned) matches ReaderPinned::FileReader(reader)
                    &&& reads_from(reader, &self.data, 0)
                    &&& !reader.sought()
                },
                Poll::Ready(Err(_)) => !self.data.prompt(),
                Poll::Pending => {
                    &&& !self.data.prompt()
                    &&& *final(pinned) is ReaderFuture
                    &&& final(pinned).computes(&self.data)
                },
            },
    {
        if let ReaderPinned::Nothing = pinned {
            *pinned = ReaderPinned::ReaderFuture(self.data.get_reader());
        }
        let mut opened: Option<D::Reader> = None;
        if let ReaderPinned::ReaderFuture(future) = pinned {
            match future.poll(ctx) {
                Poll::Ready(Ok(reader)) => {
                    opened = Some(reader);
                },
                Poll::Ready(Err(error)) => {
                    return Poll::Ready(Err(error));
                },
                Poll::Pending => {
                    return Poll::Pending;
                },
            }
        }
        if let Some(reader) = opened {
            *pinned = ReaderPinned::FileReader(CrcReader::new(reader));
            assert(self.data.content().take(0) =~= Seq::<u8>::empty());
        }
        Poll::Ready(Ok(()))
    }

    /// Get the CRC for this entry, possibly computing it from the data. Data that reports no size is
    /// not opened, and its CRC is that of nothing.
    /// Stores state in `self.crc32` and `pinned`.
    /// Calling this method repeatedly will either return the already computed CRC without changes,
    /// or progress towards computing the CRC.
    pub fn get_crc(&mut self, pinned: &mut ReaderPinned<D>, ctx: &mut Context<'_>) -> (result: Poll<
        Result<u32, ReadError<D::Error>>,
    >)
        requires
            old(self).wf(),
            old(pinned).in_order(),
        ensures
            final(self).same_but_crc32(*old(self)),
            final(pinned).in_order(),
            match result {
                Poll::Ready(Ok(crc32)) => final(self).crc32 == Some(crc32),
                _ => final(self).crc32 == old(self).crc32,
            },
            result matches Poll::Ready(Err(error)) ==> error.concerns(
                old(self).name,
                old(self).size,
            ),
            old(self).crc32 is None && old(self).size > 0 && (result matches Poll::Ready(Ok(_)))
                ==> *final(pinned) is Nothing,
            result is Pending ==> {
                &&& *final(pinned) !is Nothing
                &&& final(pinned).continues(*old(pinned))
            },
            old(self).crc32 matches Some(crc32) ==> {
                &&& result == Poll::Ready(Ok::<u32, ReadError<D::Error>>(crc32))
                &&& *final(pinned) == *old(pinned)
            },
            old(self).crc32 is None && old(self).size == 0 ==> {
                &&& result == Poll::Ready(
                    Ok::<u32, ReadError<D::Error>>(crc32_of(Seq::<u8>::empty())),
                )
                &&& *final(pinned) == *old(pinned)
            },
            old(self).data.exact() && old(self).data.content().len() <= u64::MAX && old(
                pinned,
            ).computes(&old(self).data) ==> match result {
                Poll::Ready(Ok(crc32)) => old(self).crc32 is None && (old(self).size > 0 || old(
                    self,
                ).data.content().len() == 0) ==> crc32 == crc32_of(old(self).data.content()),
                Poll::Ready(Err(error)) => {
                    &&& !old(self).data.prompt()
                    &&& error is Source
                },
                Poll::Pending => {
                    &&& !old(self).data.prompt()
                    &&& final(pinned).computes(&old(self).data)
                    &&& final(pinned).not_behind(*old(pinned), &old(self).data)
                },
            },
    {
        if let Some(crc32) = self.crc32 {
            return Poll::Ready(Ok(crc32));
        }
        if self.size == 0 {
            let nothing: Vec<u8> = Vec::new();
            let crc32: u32 = crc32_update(0, nothing.as_slice());
            proof {
                assert(nothing@ =~= Seq::<u8>::empty());
                if self.data.content().len() == 0 {
                    assert(self.data.content() =~= nothing@);
                }
            }
            self.crc32 = Some(crc32);
            return Poll::Ready(Ok(crc32));
        }
        match self.get_reader(pinned, ctx) {
            Poll::Ready(Ok(_)) => {},
            Poll::Ready(Err(error)) => {
                return Poll::Ready(Err(ReadError::Source(error)));
            },
            Poll::Pending => {
                return Poll::Pending;
            },
        }
        let mut current: ReaderPinned<D> = ReaderPinned::Nothing;
        std::mem::swap(pinned, &mut current);
        let mut crc32: u32 = 0;
        if let ReaderPinned::FileReader(opened) = current {
            let mut reader = opened;
            let mut buf = ReadBuf::new(READ_SIZE);
            let mut total: u64 = 0;
            let mut at_end: bool = false;
            let ghost exact = self.data.exact() && self.data.content().len() <= u64::MAX && old(
                pinned,
            ).computes(&self.data);
            let ghost mut position: nat = reader.inner().position(&self.data);
            let ghost start: nat = position;
            while !at_end
                invariant
                    self.size > 0,
                    self.crc32 is None,
                    buf.wf(),
                    buf.spec_capacity() == READ_SIZE,
                    !reader.sought(),
                    exact ==> {
                        &&& self.data.exact()
                        &&& self.data.content().len() <= u64::MAX
                        &&& total <= position
                        &&& start <= position
                        &&& reads_from(reader, &self.data, position)
                        &&& at_end ==> position == self.data.content().len()
                    },
                    exact == (old(self).data.exact() && old(self).data.content().len() <= u64::MAX
                        && old(pinned).computes(&old(self).data)),
                    *self == *old(self),
                    *pinned is Nothing,
                    *old(pinned) matches ReaderPinned::FileReader(opened)
                        ==> opened.inner().position(&old(self).data) == start,
                decreases u64::MAX - total + (if at_end { 0int } else { 1int }),
            {
                buf.clear();
                match reader.poll_read(&self.data, ctx, &mut buf) {
                    Poll::Ready(Ok(_)) => {},
                    Poll::Ready(Err(error)) => {
                        *pinned = ReaderPinned::FileReader(reader);
                        return Poll::Ready(Err(ReadError::Source(error)));
                    },
                    Poll::Pending => {
                        *pinned = ReaderPinned::FileReader(reader);
                        return Poll::Pending;
                    },
                }
                let size: usize = buf.filled().len();
                proof {
                    if exact {
                        let content = self.data.content();
                        let added = buf@.skip(0);
                        assert(added =~= buf@);
                        law_crc32_continues(0, content.take(position as int), added);
                        assert(content.take(position + size) =~= content.take(position as int)
                            + added);
                    }
                    position = position + size as nat;
                }
                if size == 0 {
                    at_end = true;
                } else {
                    match total.checked_add(size as u64) {
                        Some(sum) => {
                            total = sum;
                        },
                        None => {
                            return Poll::Ready(
                                Err(
                                    ReadError::Zippity(
                                        ZippityError::LengthMismatch {
                                            entry_name: self.name.clone(),
                                            expected_size: self.size,
                                            actual_size: u64::MAX,
                                        },
                                    ),
                                ),
                            );
                        },
                    }
                }
            }
            crc32 = reader.get_crc32();
            proof {
                if exact {
                    assert(self.data.content().take(position as int) =~= self.data.content());
                }
            }
        }
        self.crc32 = Some(crc32);
        Poll::Ready(Ok(crc32))
    }
}

} // verus!
