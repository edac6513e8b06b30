//! An archive as a stream of blocks.

use crate::entry_data::EntryData;
use crate::error::ReadError;
use crate::io::{Poll, ReadBuf};
use crate::read_state::saturating_sum;
use crate::reader::Reader;
use crate::reader_entry::READ_SIZE;
use crate::reading::{appended, same_but_crc32s};
use std::task::Context;
use vstd::prelude::*;

verus! {

/// Gives an archive in blocks.
pub struct BytesStream<D: EntryData> {
    reader: Reader<D>,
}

impl<D: EntryData> BytesStream<D> {
    /// The reader that the blocks come from.
    pub closed spec fn spec_reader(&self) -> Reader<D> {
        self.reader
    }

    /// The stream of what `reader` has still to give.
    pub closed spec fn spec_new(reader: Reader<D>) -> BytesStream<D> {
        BytesStream { reader }
    }

    /// Creates a stream of what `reader` has still to give.
    pub fn new(reader: Reader<D>) -> (stream: BytesStream<D>)
        ensures
            stream == BytesStream::spec_new(reader),
            stream.spec_reader() == reader,
    {
        BytesStream { reader }
    }

    /// Gives the reader back.
    pub fn into_reader(self) -> (reader: Reader<D>)
        ensures
            reader == self.spec_reader(),
    {
        self.reader
    }

    /// The reader that the blocks come from.
    pub fn reader_ref(&self) -> (reader: &Reader<D>)
        ensures
            *reader == self.spec_reader(),
    {
        &self.reader
    }

    /// The reader that the blocks come from.
    pub fn reader_mut(&mut self) -> (reader: &mut Reader<D>)
        ensures
            *reader == old(self).spec_reader(),
            final(self).spec_reader() == *final(reader),
    {
        &mut self.reader
    }

    /// The next block, or nothing at the end of the archive.
    pub fn poll_next(&mut self, cx: &mut Context<'_>) -> (result: Poll<
        Option<Result<Vec<u8>, ReadError<D::Error>>>,
    >)
        requires
            old(self).spec_reader().wf(),
        ensures
            final(self).spec_reader().wf(),
            final(self).spec_reader().spec_sizes() == old(self).spec_reader().spec_sizes(),
            same_but_crc32s(
                final(self).spec_reader().spec_entries(),
                old(self).spec_reader().spec_entries(),
            ),
            match result {
                Poll::Ready(Some(Ok(block))) => {
                    &&& 0 < block@.len() <= READ_SIZE
                    &&& final(self).spec_reader().spec_tell() == saturating_sum(
                        old(self).spec_reader().spec_tell() as int,
                        block@.len() as int,
                    )
                },
                Poll::Ready(None) => {
                    &&& final(self).spec_reader().at_end()
                    &&& final(self).spec_reader().spec_tell() == old(self).spec_reader().spec_tell()
                },
                _ => {
                    &&& final(self).spec_reader().spec_tell() == old(self).spec_reader().spec_tell()
                    &&& final(self).spec_reader().asks_for_data()
                },
            },
            result matches Poll::Ready(Some(Err(error))) ==> final(self).spec_reader().fails_by(
                error,
            ),
            result is Pending ==> final(self).spec_reader().keeps_open(old(self).spec_reader()),
            old(self).spec_reader().pending_error() is Some ==> {
                let before = old(self).spec_reader();
                match result {
                    Poll::Ready(Some(Err(ReadError::Zippity(found)))) => before.pending_error()
                        == Some(found),
                    Poll::Ready(Some(Err(failed))) => {
                        &&& !before.state().data_prompt(before.spec_entries())
                        &&& failed is Source
                    },
                    Poll::Pending => {
                        &&& !before.state().data_prompt(before.spec_entries())
                        &&& final(self).spec_reader().pending_error() == before.pending_error()
                    },
                    _ => false,
                }
            },
            old(self).spec_reader().counted() && !(result matches Poll::Ready(Some(Err(_))))
                ==> final(self).spec_reader().counted(),
            old(self).spec_reader().in_order() && !(result matches Poll::Ready(Some(Err(_))))
                ==> final(self).spec_reader().in_order(),
            old(self).spec_reader().lists() && !(result matches Poll::Ready(Some(Err(_))))
                ==> final(self).spec_reader().lists(),
            old(self).spec_reader().on_track() ==> {
                let before = old(self).spec_reader();
                let after = final(self).spec_reader();
                let from = before.spec_tell() as int;
                match result {
                    Poll::Ready(Some(Err(ReadError::Zippity(found)))) => before.pending_error()
                        == Some(found),
                    Poll::Ready(Some(Err(failed))) => !before.prompt() && failed is Source,
                    Poll::Ready(Some(Ok(block))) => {
                        &&& before.pending_error() is None
                        &&& from + block@.len() <= before.bytes().len()
                        &&& block@ == before.bytes().subrange(from, from + block@.len())
                        &&& after.spec_tell() == from + block@.len()
                        &&& after.on_track()
                        &&& after.files() == before.files()
                    },
                    Poll::Ready(None) => {
                        &&& before.pending_error() is None
                        &&& from >= before.bytes().len()
                        &&& after.spec_tell() == from
                        &&& after.on_track()
                        &&& after.files() == before.files()
                    },
                    Poll::Pending => {
                        &&& !before.prompt()
                        &&& after.pending_error() == before.pending_error()
                        &&& after.not_behind(before)
                        &&& after.spec_tell() == from
                        &&& after.on_track()
                        &&& after.files() == before.files()
                    },
                }
            },
    {
        let mut buffer = ReadBuf::new(READ_SIZE);
        match self.reader.poll_read(cx, &mut buffer) {
            Poll::Ready(Ok(_)) => {},
            Poll::Ready(Err(error)) => {
                return Poll::Ready(Some(Err(error)));
            },
            Poll::Pending => {
                return Poll::Pending;
            },
        }
        proof {
            reveal(appended);
            let added = buffer@;
            assert(Seq::<u8>::empty() + added =~= added);
        }
        if buffer.filled().len() == 0 {
            return Poll::Ready(None);
        }
        let block = buffer.into_filled();
        proof {
            if old(self).spec_reader().on_track() {
                let reader = old(self).spec_reader();
                let from = reader.spec_tell() as int;
                assert(block@ =~= Seq::<u8>::empty() + reader.bytes().subrange(
                    from,
                    from + block@.len(),
                ));
            }
        }
        Poll::Ready(Some(Ok(block)))
    }
}

impl<D: EntryData> vstd::std_specs::convert::FromSpecImpl<Reader<D>> for BytesStream<D> {
    open spec fn obeys_from_spec() -> bool {
        true
    }

    open spec fn from_spec(reader: Reader<D>) -> BytesStream<D> {
        BytesStream::spec_new(reader)
    }
}

impl<D: EntryData> From<Reader<D>> for BytesStream<D> {
    fn from(reader: Reader<D>) -> (stream: BytesStream<D>)
        ensures
            stream.spec_reader() == reader,
    {
        BytesStream::new(reader)
    }
}

impl<D: EntryData> Reader<D> {
    /// Creates a stream of what this reader has still to give.
    pub fn into_bytes_stream(self) -> (stream: BytesStream<D>)
        ensures
            stream.spec_reader() == self,
    {
        BytesStream::new(self)
    }
}

} // verus!
