//! A buffer that is written at once and read in steps.

use crate::io::ReadBuf;
use vstd::prelude::*;
use vstd::slice::slice_subrange;

verus! {

/// Buffer that can be written in one operation and then read
/// in smaller steps.
/// Internally keeps a cursor of the already read data.
#[derive(Debug)]
pub struct VecBuffer {
    buf: Vec<u8>,
    cursor: usize,
}

/// The smaller of two sizes.
pub open spec fn smaller(a: int, b: int) -> int {
    if a <= b {
        a
    } else {
        b
    }
}

impl VecBuffer {
    /// Everything that was written, read or not.
    pub closed spec fn content(&self) -> Seq<u8> {
        self.buf@
    }

    /// How much was read.
    pub closed spec fn spec_cursor(&self) -> nat {
        self.cursor as nat
    }

    /// No more was read than there is.
    pub open spec fn wf(&self) -> bool {
        self.spec_cursor() <= self.content().len() <= usize::MAX
    }

    /// What was not read yet.
    pub open spec fn unread(&self) -> Seq<u8> {
        self.content().skip(self.spec_cursor() as int)
    }

    /// Create an empty buffer
    pub fn new() -> (buffer: VecBuffer)
        ensures
            buffer.wf(),
            buffer.unread() == Seq::<u8>::empty(),
            buffer.content() == Seq::<u8>::empty(),
    {
        VecBuffer { buf: Vec::new(), cursor: 0 }
    }

    /// Resize buffer to the requested size, reset the cursor.
    /// Returns a slice of the requested size, that can be used to
    /// write the new content of the buffer.
    /// The returned slice might contain previous data from the buffer
    pub fn reset(&mut self, size: usize) -> (slice: &mut [u8])
        ensures
            slice@.len() == size,
            forall|i: int|
                0 <= i < size ==> #[trigger] slice@[i] == (if i < old(self).content().len() {
                    old(self).content()[i]
                } else {
                    0
                }),
            final(self).content() == final(slice)@,
            final(self).spec_cursor() == 0,
            final(slice)@.len() == size ==> final(self).wf(),
    {
        self.buf.resize(size, 0);
        self.cursor = 0;
        self.buf.as_mut_slice()
    }

    /// Read at most `max_size` bytes from the buffer,
    /// returning the data as slice.
    pub fn read(&mut self, max_size: usize) -> (data: &[u8])
        requires
            old(self).wf(),
        ensures
            final(self).wf(),
            final(self).content() == old(self).content(),
            ({
                let size = smaller(max_size as int, old(self).unread().len() as int);
                &&& data@ == old(self).unread().take(size)
                &&& final(self).unread() == old(self).unread().skip(size)
            }),
            old(self).unread() == data@ + final(self).unread(),
    {
        let start: usize = self.cursor;
        let remaining: usize = self.buf.len() - start;
        let end: usize = if max_size < remaining {
            start + max_size
        } else {
            self.buf.len()
        };
        self.cursor = end;
        slice_subrange(self.buf.as_slice(), start, end)
    }

    /// Reads as much as fits into `target`, and says how much that was.
    pub fn read_into_readbuf(&mut self, target: &mut ReadBuf) -> (size: usize)
        requires
            old(self).wf(),
            old(target).wf(),
        ensures
            final(self).wf(),
            final(self).content() == old(self).content(),
            size == smaller(old(target).room(), old(self).unread().len() as int),
            final(target).extends(*old(target)),
            final(target)@ == old(target)@ + old(self).unread().take(size as int),
            final(self).unread() == old(self).unread().skip(size as int),
    {
        let data = self.read(target.remaining());
        target.put_slice(data);
        data.len()
    }

    /// Returns how many bytes remain in the buffer to be read
    pub fn remaining(&self) -> (size: usize)
        requires
            self.wf(),
        ensures
            size == self.unread().len(),
    {
        self.buf.len() - self.cursor
    }

    /// Returns whether any bytes remain in the buffer to be read
    pub fn has_remaining(&self) -> (remains: bool)
        requires
            self.wf(),
        ensures
            remains == (self.unread().len() > 0),
    {
        self.cursor < self.buf.len()
    }
}

} // verus!
