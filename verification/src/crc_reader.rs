//! A reader that computes the CRC32 of what passes through it.

use crate::crc32::{crc32_from, crc32_of, crc32_update};
use crate::entry_data::EntryReader;
use crate::io::{Poll, ReadBuf, SeekFrom};
use std::task::Context;
use vstd::prelude::*;
use vstd::slice::slice_subrange;

verus! {

/// Wraps an existing `EntryReader` and calculates CRC32 while reading from it.
pub struct CrcReader<T> {
    inner_reader: T,
    crc32: u32,
    did_seek: bool,
    seek_in_progress: bool,
}

impl<T> CrcReader<T> {
    /// The wrapped reader.
    pub closed spec fn inner(&self) -> T {
        self.inner_reader
    }

    /// The checksum of everything read so far.
    pub closed spec fn spec_crc32(&self) -> u32 {
        self.crc32
    }

    /// Whether the position was ever changed other than by reading.
    pub closed spec fn sought(&self) -> bool {
        self.did_seek
    }

    /// Whether a seek was begun that is not known to have finished.
    pub closed spec fn seeking(&self) -> bool {
        self.seek_in_progress
    }

    /// Wraps `inner_reader`, from which nothing was read yet.
    pub fn new(inner_reader: T) -> (reader: CrcReader<T>)
        ensures
            reader.inner() == inner_reader,
            reader.spec_crc32() == crc32_of(Seq::<u8>::empty()),
            !reader.sought(),
            !reader.seeking(),
    {
        let nothing: Vec<u8> = Vec::new();
        CrcReader {
            inner_reader,
            crc32: crc32_update(0, nothing.as_slice()),
            did_seek: false,
            seek_in_progress: false,
        }
    }

    /// The CRC32 of everything read so far.
    pub fn get_crc32(&self) -> (crc32: u32)
        ensures
            crc32 == self.spec_crc32(),
    {
        self.crc32
    }

    /// Whether everything was read in order, from the start on.
    pub fn is_crc_valid(&self) -> (valid: bool)
        ensures
            valid == !self.sought(),
    {
        !self.did_seek
    }

    /// Begins a seek, unless one is already in progress, and polls for its end.
    pub fn seek<D, E>(&mut self, data: &D, ctx: &mut Context<'_>, position: SeekFrom) -> (result:
        Poll<Result<u64, E>>) where T: EntryReader<D, E>
        ensures
            old(self).seeking() ==> final(self).sought() == old(self).sought(),
            !old(self).seeking() ==> final(self).sought(),
            final(self).spec_crc32() == old(self).spec_crc32(),
            match result {
                Poll::Ready(Ok(_)) => !final(self).seeking(),
                _ => final(self).seeking(),
            },
            old(self).inner().exact(data) ==> {
                let target = if old(self).seeking() {
                    old(self).inner().position(data) as int
                } else {
                    position.target(
                        old(self).inner().position(data) as int,
                        old(self).inner().content(data).len() as int,
                    )
                };
                old(self).seeking() || 0 <= target <= old(self).inner().content(data).len()
                    ==> match result {
                    Poll::Ready(Err(_)) => !old(self).inner().prompt(data),
                    _ => {
                        &&& final(self).inner().exact(data)
                        &&& final(self).inner().content(data) == old(self).inner().content(data)
                        &&& final(self).inner().prompt(data) == old(self).inner().prompt(data)
                        &&& final(self).inner().position(data) == target
                        &&& result is Pending ==> !old(self).inner().prompt(data)
                        &&& result matches Poll::Ready(Ok(reached)) ==> reached == target
                    },
                }
            },
    {
        if self.seek_in_progress {
            self.poll_seek_complete(data, ctx)
        } else {
            match self.start_seek(data, position) {
                Ok(_) => self.poll_seek_complete(data, ctx),
                Err(error) => Poll::Ready(Err(error)),
            }
        }
    }

    /// Reads from the wrapped reader, and updates the checksum.
    pub fn poll_read<D, E>(&mut self, data: &D, cx: &mut Context<'_>, buf: &mut ReadBuf) -> (result:
        Poll<Result<(), E>>) where T: EntryReader<D, E>
        requires
            old(buf).wf(),
        ensures
            final(buf).extends(*old(buf)),
            final(self).sought() == old(self).sought(),
            final(self).seeking() == old(self).seeking(),
            ({
                let added = final(buf)@.skip(old(buf)@.len() as int);
                if (result matches Poll::Ready(Ok(_))) {
                    final(self).spec_crc32() == crc32_from(old(self).spec_crc32(), added)
                } else {
                    final(self).spec_crc32() == old(self).spec_crc32()
                }
            }),
            old(self).inner().exact(data) ==> match result {
                Poll::Ready(Ok(_)) => {
                    let content = old(self).inner().content(data);
                    let from = old(self).inner().position(data);
                    let size = final(buf)@.len() - old(buf)@.len();
                    &&& final(self).inner().exact(data)
                    &&& final(self).inner().content(data) == content
                    &&& final(self).inner().prompt(data) == old(self).inner().prompt(data)
                    &&& final(self).inner().position(data) == from + size
                    &&& size > 0 ==> from + size <= content.len()
                    &&& size > 0 ==> final(buf)@ == old(buf)@ + content.subrange(
                        from as int,
                        from + size,
                    )
                    &&& size == 0 ==> old(buf).room() == 0 || from >= content.len()
                },
                Poll::Ready(Err(_)) => !old(self).inner().prompt(data),
                Poll::Pending => {
                    &&& !old(self).inner().prompt(data)
                    &&& final(self).inner().exact(data)
                    &&& final(self).inner().content(data) == old(self).inner().content(data)
                    &&& final(self).inner().prompt(data) == old(self).inner().prompt(data)
                    &&& final(self).inner().position(data) == old(self).inner().position(data)
                    &&& final(buf)@ == old(buf)@
                },
            },
    {
        let filled_len_before: usize = buf.filled().len();
        let result = self.inner_reader.poll_read(data, cx, buf);
        match result {
            Poll::Ready(Ok(_)) => {
                let filled = buf.filled();
                let added = slice_subrange(filled, filled_len_before, filled.len());
                proof {
                    assert(added@ =~= buf@.skip(old(buf)@.len() as int));
                }
                self.crc32 = crc32_update(self.crc32, added);
            },
            _ => {},
        }
        result
    }
}

impl<D, E, T: EntryReader<D, E>> EntryReader<D, E> for CrcReader<T> {
    open spec fn exact(&self, data: &D) -> bool {
        self.inner().exact(data)
    }

    open spec fn prompt(&self, data: &D) -> bool {
        self.inner().prompt(data)
    }

    open spec fn content(&self, data: &D) -> Seq<u8> {
        self.inner().content(data)
    }

    open spec fn position(&self, data: &D) -> nat {
        self.inner().position(data)
    }

    fn poll_read(&mut self, data: &D, cx: &mut Context<'_>, buf: &mut ReadBuf) -> (result: Poll<
        Result<(), E>,
    >) {
        CrcReader::<T>::poll_read(self, data, cx, buf)
    }

    fn start_seek(&mut self, data: &D, pos: SeekFrom) -> (result: Result<(), E>)
        ensures
            final(self).sought(),
            final(self).seeking(),
            final(self).spec_crc32() == old(self).spec_crc32(),
    {
        self.did_seek = true;
        self.seek_in_progress = true;
        self.inner_reader.start_seek(data, pos)
    }

    fn poll_seek_complete(&mut self, data: &D, cx: &mut Context<'_>) -> (result: Poll<
        Result<u64, E>,
    >)
        ensures
            final(self).sought() == old(self).sought(),
            final(self).spec_crc32() == old(self).spec_crc32(),
            final(self).seeking() == (old(self).seeking() && !(result matches Poll::Ready(Ok(_)))),
    {
        let result = self.inner_reader.poll_seek_complete(data, cx);
        match result {
            Poll::Ready(Ok(_)) => {
                self.seek_in_progress = false;
            },
            _ => {},
        }
        result
    }
}

} // verus!
