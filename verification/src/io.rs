//! Plain values that reading works on.

use vstd::prelude::*;

verus! {

/// The state of something that may have to be waited for.
#[derive(Clone, Copy, Debug, PartialEq, Eq)]
pub enum Poll<T> {
    /// The value is there.
    Ready(T),
    /// There is no value yet; whoever asked is woken when it pays to ask again.
    Pending,
}

/// Where to seek to.
#[derive(Clone, Copy, Debug, PartialEq, Eq, Structural)]
pub enum SeekFrom {
    /// So many bytes after the start.
    Start(u64),
    /// So many bytes after the end, or before it where negative.
    End(i64),
    /// So many bytes after the current position, or before it where negative.
    Current(i64),
}

impl SeekFrom {
    /// The position that is sought, which may lie before the start.
    pub open spec fn target(self, position: int, end: int) -> int {
        match self {
            SeekFrom::Start(offset) => offset as int,
            SeekFrom::End(offset) => end + offset,
            SeekFrom::Current(offset) => position + offset,
        }
    }
}

/// A buffer that is filled from the front, up to a fixed capacity.
#[derive(Debug)]
pub struct ReadBuf {
    filled: Vec<u8>,
    capacity: usize,
}

impl View for ReadBuf {
    type V = Seq<u8>;

    /// The bytes filled in so far.
    closed spec fn view(&self) -> Seq<u8> {
        self.filled@
    }
}

impl ReadBuf {
    /// How many bytes fit into the buffer in all.
    pub closed spec fn spec_capacity(&self) -> nat {
        self.capacity as nat
    }

    /// No more is filled in than fits.
    pub open spec fn wf(&self) -> bool {
        self@.len() <= self.spec_capacity() <= usize::MAX
    }

    /// How many more bytes fit.
    pub open spec fn room(&self) -> int {
        self.spec_capacity() - self@.len()
    }

    /// This is `before` with nothing, or something, filled in behind what it held.
    pub open spec fn extends(&self, before: ReadBuf) -> bool {
        &&& self.wf()
        &&& self.spec_capacity() == before.spec_capacity()
        &&& before@.is_prefix_of(self@)
    }

    /// Creates an empty buffer that takes `capacity` bytes.
    pub fn new(capacity: usize) -> (buf: ReadBuf)
        ensures
            buf.wf(),
            buf@ == Seq::<u8>::empty(),
            buf.spec_capacity() == capacity,
    {
        ReadBuf { filled: Vec::new(), capacity }
    }

    /// The bytes filled in so far.
    pub fn filled(&self) -> (bytes: &[u8])
        ensures
            bytes@ == self@,
    {
        self.filled.as_slice()
    }

    /// How many more bytes fit.
    pub fn remaining(&self) -> (size: usize)
        requires
            self.wf(),
        ensures
            size == self.room(),
    {
        self.capacity - self.filled.len()
    }

    /// Fills in `bytes` behind what is there.
    pub fn put_slice(&mut self, bytes: &[u8])
        requires
            old(self).wf(),
            bytes@.len() <= old(self).room(),
        ensures
            final(self).extends(*old(self)),
            final(self)@ == old(self)@ + bytes@,
    {
        self.filled.extend_from_slice(bytes);
    }

    /// Forgets what was filled in.
    pub fn clear(&mut self)
        requires
            old(self).wf(),
        ensures
            final(self).wf(),
            final(self)@ == Seq::<u8>::empty(),
            final(self).spec_capacity() == old(self).spec_capacity(),
    {
        self.filled.clear();
    }

    /// Hands out what was filled in.
    pub fn into_filled(self) -> (bytes: Vec<u8>)
        ensures
            bytes@ == self@,
    {
        self.filled
    }
}

} // verus!
