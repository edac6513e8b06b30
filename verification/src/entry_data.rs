//! What an entry of an archive takes its data from.

use crate::io::{Poll, ReadBuf, SeekFrom};
use std::sync::Arc;
use std::task::Context;
use vstd::prelude::*;
use vstd::slice::slice_subrange;

verus! {

/// `std::task::Context` is handed through to whoever has to be woken; nothing is known of it.
#[verifier::external_type_specification]
#[verifier::external_body]
pub struct ExContext<'a>(std::task::Context<'a>);

/// The data of an entry.
pub trait EntryData: Sized {
    /// How reading the data can fail.
    type Error;

    /// What the data is read through.
    type Reader: EntryReader<Self, Self::Error>;

    /// What has to be waited for until there is a reader.
    type Future: ReaderFuture<Self::Reader, Self::Error>;

    /// Whether readers, as far as they do not fail, give exactly `content()`.
    open spec fn exact(&self) -> bool {
        false
    }

    /// Whether the data is at hand: it never has to be waited for, and cannot fail to be read.
    open spec fn prompt(&self) -> bool {
        false
    }

    /// What the readers of exact data give.
    open spec fn content(&self) -> Seq<u8> {
        Seq::empty()
    }

    /// Whether the size that is reported is that of `content()`.
    open spec fn measured(&self) -> bool {
        false
    }

    /// Whether there are readers. Data of size zero need not have any.
    open spec fn openable(&self) -> bool {
        true
    }

    /// Returns a future that will provide the reader for file data.
    ///
    /// This is never asked for if the size is zero.
    fn get_reader(&self) -> (future: Self::Future)
        requires
            self.openable(),
        ensures
            self.prompt() ==> future.prompt(),
            self.exact() ==> forall|reader: Self::Reader| #[trigger]
                future.yields(reader) ==> {
                    &&& reader.exact(self)
                    &&& reader.content(self) == self.content()
                    &&& reader.position(self) == 0
                    &&& self.prompt() ==> reader.prompt(self)
                },
    ;

    /// Returns the size of the data of the entry, that will be read through `get_reader`.
    fn size(&self) -> (size: u64)
        ensures
            self.measured() ==> size == self.content().len(),
            size > 0 ==> self.openable(),
    ;
}

/// Waits for a reader.
pub trait ReaderFuture<R, E>: Sized {
    /// Whether this may be the reader that is given.
    open spec fn yields(&self, reader: R) -> bool {
        true
    }

    /// Whether the reader is there already.
    open spec fn prompt(&self) -> bool {
        false
    }

    /// Gives the reader if it is there.
    fn poll(&mut self, cx: &mut Context<'_>) -> (result: Poll<Result<R, E>>)
        ensures
            match result {
                Poll::Ready(Ok(reader)) => old(self).yields(reader),
                Poll::Ready(Err(_)) => !old(self).prompt(),
                Poll::Pending => {
                    &&& !old(self).prompt()
                    &&& forall|reader: R| #[trigger]
                        final(self).yields(reader) ==> old(self).yields(reader)
                },
            },
    ;
}

/// A trait for reading and seeking entry data.
/// Takes a reference to the entry data, allowing readers to borrow data from the entry instead of
/// requiring ownership.
pub trait EntryReader<D: ?Sized, E>: Sized {
    /// Whether this reader, as far as it does not fail, gives exactly `content(data)`.
    open spec fn exact(&self, data: &D) -> bool {
        false
    }

    /// Whether this reader never has to be waited for, and never fails.
    open spec fn prompt(&self, data: &D) -> bool {
        false
    }

    /// What an exact reader gives.
    open spec fn content(&self, data: &D) -> Seq<u8> {
        Seq::empty()
    }

    /// Where in its content an exact reader stands, or will stand at the end of a seek.
    open spec fn position(&self, data: &D) -> nat {
        0
    }

    /// Fills some of the data into `buf`, and nothing at the end of the data.
    fn poll_read(&mut self, data: &D, cx: &mut Context<'_>, buf: &mut ReadBuf) -> (result: Poll<
        Result<(), E>,
    >)
        requires
            old(buf).wf(),
        ensures
            final(buf).extends(*old(buf)),
            old(self).exact(data) ==> match result {
                Poll::Ready(Ok(_)) => {
                    let content = old(self).content(data);
                    let from = old(self).position(data);
                    let size = final(buf)@.len() - old(buf)@.len();
                    &&& final(self).exact(data)
                    &&& final(self).content(data) == old(self).content(data)
                    &&& final(self).prompt(data) == old(self).prompt(data)
                    &&& final(self).position(data) == from + size
                    &&& size > 0 ==> from + size <= content.len()
                    &&& size > 0 ==> final(buf)@ == old(buf)@ + content.subrange(
                        from as int,
                        from + size,
                    )
                    &&& size == 0 ==> old(buf).room() == 0 || from >= content.len()
                },
                Poll::Ready(Err(_)) => !old(self).prompt(data),
                Poll::Pending => {
                    &&& !old(self).prompt(data)
                    &&& final(self).exact(data)
                    &&& final(self).content(data) == old(self).content(data)
                    &&& final(self).prompt(data) == old(self).prompt(data)
                    &&& final(self).position(data) == old(self).position(data)
                    &&& final(buf)@ == old(buf)@
                },
            },
    ;

    /// Begins to move to another position. An exact reader moves to where `pos` says, as far as that
    /// lies within its content.
    fn start_seek(&mut self, data: &D, pos: SeekFrom) -> (result: Result<(), E>)
        ensures
            old(self).exact(data) ==> {
                &&& result is Ok ==> {
                    &&& final(self).exact(data)
                    &&& final(self).content(data) == old(self).content(data)
                    &&& final(self).prompt(data) == old(self).prompt(data)
                }
                &&& ({
                    let target = pos.target(
                        old(self).position(data) as int,
                        old(self).content(data).len() as int,
                    );
                    0 <= target <= old(self).content(data).len() ==> {
                        &&& old(self).prompt(data) ==> result is Ok
                        &&& result is Ok ==> final(self).position(data) == target
                    }
                })
            },
    ;

    /// Finishes a seek that was begun, and says where the reader stands.
    fn poll_seek_complete(&mut self, data: &D, cx: &mut Context<'_>) -> (result: Poll<
        Result<u64, E>,
    >)
        ensures
            old(self).exact(data) ==> match result {
                Poll::Ready(Ok(position)) => {
                    &&& final(self).exact(data)
                    &&& final(self).content(data) == old(self).content(data)
                    &&& final(self).prompt(data) == old(self).prompt(data)
                    &&& final(self).position(data) == old(self).position(data)
                    &&& position == old(self).position(data)
                },
                Poll::Ready(Err(_)) => !old(self).prompt(data),
                Poll::Pending => {
                    &&& !old(self).prompt(data)
                    &&& final(self).exact(data)
                    &&& final(self).content(data) == old(self).content(data)
                    &&& final(self).prompt(data) == old(self).prompt(data)
                    &&& final(self).position(data) == old(self).position(data)
                },
            },
    ;
}

/// Data that is in memory.
pub trait ByteSource: Sized {
    /// Whether `bytes()` is what the data consists of, whenever it is asked.
    open spec fn fixed(&self) -> bool {
        false
    }

    /// The bytes of the data.
    open spec fn bytes(&self) -> Seq<u8> {
        Seq::empty()
    }

    /// The bytes of the data.
    fn as_byte_slice(&self) -> (bytes: &[u8])
        ensures
            self.fixed() ==> bytes@ == self.bytes(),
    ;
}

impl<'a> ByteSource for &'a [u8] {
    open spec fn fixed(&self) -> bool {
        true
    }

    open spec fn bytes(&self) -> Seq<u8> {
        (*self)@
    }

    fn as_byte_slice(&self) -> (bytes: &[u8]) {
        *self
    }
}

impl ByteSource for Vec<u8> {
    open spec fn fixed(&self) -> bool {
        true
    }

    open spec fn bytes(&self) -> Seq<u8> {
        self@
    }

    fn as_byte_slice(&self) -> (bytes: &[u8]) {
        self.as_slice()
    }
}

impl ByteSource for String {
    open spec fn fixed(&self) -> bool {
        true
    }

    open spec fn bytes(&self) -> Seq<u8> {
        vstd::utf8::encode_utf8(self@)
    }

    fn as_byte_slice(&self) -> (bytes: &[u8]) {
        self.as_str().as_bytes()
    }
}

impl<'a> ByteSource for &'a str {
    open spec fn fixed(&self) -> bool {
        true
    }

    open spec fn bytes(&self) -> Seq<u8> {
        vstd::utf8::encode_utf8((*self)@)
    }

    fn as_byte_slice(&self) -> (bytes: &[u8]) {
        (*self).as_bytes()
    }
}

impl<const N: usize> ByteSource for [u8; N] {
    open spec fn fixed(&self) -> bool {
        true
    }

    open spec fn bytes(&self) -> Seq<u8> {
        self@
    }

    fn as_byte_slice(&self) -> (bytes: &[u8]) {
        self.as_slice()
    }
}

impl ByteSource for Box<[u8]> {
    open spec fn fixed(&self) -> bool {
        true
    }

    open spec fn bytes(&self) -> Seq<u8> {
        (**self)@
    }

    fn as_byte_slice(&self) -> (bytes: &[u8]) {
        &**self
    }
}

impl ByteSource for Arc<[u8]> {
    open spec fn fixed(&self) -> bool {
        true
    }

    open spec fn bytes(&self) -> Seq<u8> {
        (**self)@
    }

    fn as_byte_slice(&self) -> (bytes: &[u8]) {
        &**self
    }
}

/// `bytes::Bytes`, of which only the contents are spoken of.
#[verifier::external_type_specification]
#[verifier::external_body]
pub struct ExBytes(bytes::Bytes);

/// The contents of a `bytes::Bytes`.
pub uninterp spec fn bytes_contents(bytes: bytes::Bytes) -> Seq<u8>;

/// The contents of a `bytes::Bytes` as a slice, by `AsRef::as_ref`.
#[verifier::external_body]
fn bytes_as_slice(bytes: &bytes::Bytes) -> (slice: &[u8])
    ensures
        slice@ == bytes_contents(*bytes),
{
    bytes.as_ref()
}

/// Another handle to the contents of a `bytes::Bytes`, by `Clone::clone`: the contents are the same.
#[verifier::external_body]
pub(crate) fn bytes_clone(bytes: &bytes::Bytes) -> (copy: bytes::Bytes)
    ensures
        bytes_contents(copy) == bytes_contents(*bytes),
{
    bytes.clone()
}

impl ByteSource for bytes::Bytes {
    open spec fn fixed(&self) -> bool {
        true
    }

    open spec fn bytes(&self) -> Seq<u8> {
        bytes_contents(*self)
    }

    fn as_byte_slice(&self) -> (bytes: &[u8]) {
        bytes_as_slice(self)
    }
}

/// The data of an entry without any.
impl ByteSource for () {
    open spec fn fixed(&self) -> bool {
        true
    }

    open spec fn bytes(&self) -> Seq<u8> {
        Seq::empty()
    }

    fn as_byte_slice(&self) -> (bytes: &[u8]) {
        assert([0u8; 0]@ =~= Seq::<u8>::empty());
        &[]
    }
}

/// A seek to a position before the start, or past what can be addressed.
#[derive(Clone, Copy, Debug, PartialEq, Eq, Structural)]
pub struct InvalidSeek;

/// A reader for data in memory.
/// Borrows data on each read.
#[derive(Clone, Copy, Debug, PartialEq, Eq, Structural)]
pub struct AsRefReader {
    position: usize,
}

impl AsRefReader {
    /// Where the next read begins.
    pub closed spec fn spec_position(self) -> usize {
        self.position
    }

    /// Creates a reader that stands at the start.
    pub fn new() -> (reader: AsRefReader)
        ensures
            reader.spec_position() == 0,
    {
        AsRefReader { position: 0 }
    }
}

impl Default for AsRefReader {
    /// A reader that stands at the start.
    fn default() -> (reader: AsRefReader)
        ensures
            reader.spec_position() == 0,
    {
        AsRefReader::new()
    }
}

impl<T: ByteSource> EntryReader<T, InvalidSeek> for AsRefReader {
    open spec fn exact(&self, data: &T) -> bool {
        data.fixed()
    }

    open spec fn prompt(&self, data: &T) -> bool {
        true
    }

    open spec fn content(&self, data: &T) -> Seq<u8> {
        data.bytes()
    }

    open spec fn position(&self, data: &T) -> nat {
        self.spec_position() as nat
    }

    fn poll_read(&mut self, data: &T, _cx: &mut Context<'_>, buf: &mut ReadBuf) -> (result: Poll<
        Result<(), InvalidSeek>,
    >)
        ensures
            result == Poll::Ready(Ok::<(), InvalidSeek>(())),
            data.fixed() ==> ({
                let from = old(self).spec_position();
                let left = if from <= data.bytes().len() {
                    data.bytes().len() - from
                } else {
                    0
                };
                let size = if left <= old(buf).room() {
                    left
                } else {
                    old(buf).room()
                };
                &&& final(self).spec_position() == from + size
                &&& final(buf)@ == old(buf)@ + (if size == 0 {
                    Seq::<u8>::empty()
                } else {
                    data.bytes().subrange(from as int, from + size)
                })
            }),
    {
        let slice = data.as_byte_slice();
        if self.position >= slice.len() {
            assert(buf@ + Seq::<u8>::empty() =~= buf@);
            return Poll::Ready(Ok(()));
        }
        let left: usize = slice.len() - self.position;
        let room: usize = buf.remaining();
        let to_read: usize = if left <= room {
            left
        } else {
            room
        };
        let end: usize = self.position + to_read;
        buf.put_slice(slice_subrange(slice, self.position, end));
        proof {
            if data.fixed() {
                assert(data.bytes().subrange(self.position as int, self.position as int)
                    =~= Seq::<u8>::empty());
            }
        }
        self.position = end;
        Poll::Ready(Ok(()))
    }

    fn start_seek(&mut self, data: &T, pos: SeekFrom) -> (result: Result<(), InvalidSeek>)
        ensures
            data.fixed() ==> ({
                let target = pos.target(
                    old(self).spec_position() as int,
                    data.bytes().len() as int,
                );
                if 0 <= target <= usize::MAX {
                    result is Ok && final(self).spec_position() == target
                } else {
                    result is Err && *final(self) == *old(self)
                }
            }),
    {
        let size: u64 = data.as_byte_slice().len() as u64;
        let target: Option<u64> = match pos {
            SeekFrom::Start(offset) => Some(offset),
            SeekFrom::End(offset) => size.checked_add_signed(offset),
            SeekFrom::Current(offset) => (self.position as u64).checked_add_signed(offset),
        };
        match target {
            Some(position) => if position <= usize::MAX as u64 {
                self.position = position as usize;
                Ok(())
            } else {
                Err(InvalidSeek)
            },
            None => Err(InvalidSeek),
        }
    }

    fn poll_seek_complete(&mut self, _data: &T, _cx: &mut Context<'_>) -> (result: Poll<
        Result<u64, InvalidSeek>,
    >)
        ensures
            *final(self) == *old(self),
            result == Poll::Ready(Ok::<u64, InvalidSeek>(old(self).spec_position() as u64)),
    {
        Poll::Ready(Ok(self.position as u64))
    }
}

/// A reader that is there from the beginning.
#[derive(Clone, Copy, Debug, PartialEq, Eq, Structural)]
pub struct ReadyReader {
    reader: AsRefReader,
}

impl ReadyReader {
    /// The reader that is there.
    pub closed spec fn spec_reader(self) -> AsRefReader {
        self.reader
    }
}

impl ReaderFuture<AsRefReader, InvalidSeek> for ReadyReader {
    open spec fn yields(&self, reader: AsRefReader) -> bool {
        reader == self.spec_reader()
    }

    open spec fn prompt(&self) -> bool {
        true
    }

    fn poll(&mut self, _cx: &mut Context<'_>) -> (result: Poll<Result<AsRefReader, InvalidSeek>>) {
        Poll::Ready(Ok(self.reader))
    }
}

/// All data in memory can be the data of an entry.
impl<T: ByteSource> EntryData for T {
    type Error = InvalidSeek;

    type Reader = AsRefReader;

    type Future = ReadyReader;

    open spec fn exact(&self) -> bool {
        self.fixed()
    }

    open spec fn measured(&self) -> bool {
        self.fixed()
    }

    open spec fn prompt(&self) -> bool {
        true
    }

    open spec fn content(&self) -> Seq<u8> {
        self.bytes()
    }

    fn get_reader(&self) -> (future: ReadyReader) {
        ReadyReader { reader: AsRefReader::new() }
    }

    fn size(&self) -> (size: u64) {
        self.as_byte_slice().len() as u64
    }
}

} // verus!
