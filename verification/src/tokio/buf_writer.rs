//! A buffer in front of a writer.
use vstd::prelude::*;

use crate::result::{ErrorKind, IoError, ZipError, ZipResult};
use crate::stream::Cursor;

verus! {

/// The size of a buffer, if none is asked for.
pub const DEFAULT_BUF_SIZE: usize = 8192;

/// A slice to read from that is not empty.
#[derive(Debug, Copy, Clone)]
pub struct NonEmptyReadSlice<'a, T> {
    data: &'a [T],
}

impl<'a, T> NonEmptyReadSlice<'a, T> {
    /// The elements.
    pub closed spec fn view(&self) -> Seq<T> {
        self.data@
    }

    /// The slice, if it is not empty.
    pub fn new(data: &'a [T]) -> (r: Option<Self>)
        ensures
            match r {
                Some(s) => data@.len() > 0 && s@ == data@,
                None => data@.len() == 0,
            },
    {
        if data.len() == 0 {
            None
        } else {
            Some(NonEmptyReadSlice { data })
        }
    }

    /// The number of elements.
    pub fn len(&self) -> (r: usize)
        ensures
            r == self@.len(),
    {
        self.data.len()
    }

    /// The elements.
    pub fn as_slice(&self) -> (r: &'a [T])
        ensures
            r@ == self@,
    {
        self.data
    }
}

/// A slice to write to that is not empty.
#[derive(Debug)]
pub struct NonEmptyWriteSlice<'a, T> {
    pub data: &'a mut [T],
}

impl<'a, T> NonEmptyWriteSlice<'a, T> {
    /// The elements.
    pub open spec fn view(&self) -> Seq<T> {
        (*self.data)@
    }

    /// The slice, if it is not empty.
    pub fn new(data: &'a mut [T]) -> (r: Option<Self>)
        ensures
            match r {
                Some(s) => {
                    &&& old(data)@.len() > 0
                    &&& s@ == old(data)@
                    &&& final(data)@ == final(s.data)@
                },
                None => old(data)@.len() == 0 && final(data)@ == old(data)@,
            },
    {
        if data.len() == 0 {
            None
        } else {
            Some(NonEmptyWriteSlice { data })
        }
    }

    /// The number of elements.
    pub fn len(&self) -> (r: usize)
        ensures
            r == self@.len(),
    {
        self.data.len()
    }
}

impl<'a, T: Copy> NonEmptyWriteSlice<'a, T> {
    /// Copies as many elements as there are on both sides. Returns their number.
    pub fn copy_from_slice(&mut self, src: NonEmptyReadSlice<'_, T>) -> (r: usize)
        ensures
            r == if old(self)@.len() < src@.len() {
                old(self)@.len()
            } else {
                src@.len()
            },
            final(self)@ == src@.take(r as int) + old(self)@.skip(r as int),
            final(final(self).data)@ == final(old(self).data)@,
    {
        let amt: usize = if self.data.len() < src.data.len() {
            self.data.len()
        } else {
            src.data.len()
        };
        let ghost before = self@;
        let mut i: usize = 0;
        while i < amt
            invariant
                i <= amt <= before.len(),
                amt <= src@.len(),
                self@ == src@.take(i as int) + before.skip(i as int),
                final(self.data)@ == final(old(self).data)@,
            decreases amt - i,
        {
            self.data[i] = src.data[i];
            assert(self@ =~= src@.take(i + 1) + before.skip(i + 1));
            i += 1;
        }
        amt
    }
}

/// What a [`BufWriter`] has to do before it can go on.
#[derive(Debug, Clone, Copy, PartialEq, Eq, Structural)]
pub enum WriteAction {
    /// Write the readable data, and hand the number of bytes that were written
    /// to `wrote_readable`.
    WriteOut,
    /// Flush the underlying writer.
    FlushInner,
    /// Nothing: that many bytes were taken in.
    Done(usize),
}

/// The failure of a writer that takes nothing.
pub open spec fn write_zero() -> ZipError {
    ZipError::Io(IoError::Simple(ErrorKind::WriteZero, "write zero"))
}

/// A buffer in front of a writer.
///
/// Data is taken in until the buffer is full. Then all of it is written out,
/// and the buffer is used from its start again.
#[derive(Debug)]
pub struct BufWriter<W> {
    inner: W,
    buf: Vec<u8>,
    read_end: usize,
    write_end: usize,
}

impl<W> BufWriter<W> {
    /// The bytes that are yet to be written out.
    pub closed spec fn view(&self) -> Seq<u8> {
        self.buf@.subrange(self.read_end as int, self.write_end as int)
    }

    /// The size of the buffer.
    pub closed spec fn spec_capacity(&self) -> nat {
        self.buf@.len()
    }

    /// How many bytes can be taken in before the buffer is written out.
    pub closed spec fn room(&self) -> nat {
        (self.buf@.len() - self.write_end) as nat
    }

    /// Whether there is no room, and something to be written out first.
    pub open spec fn must_flush(&self) -> bool {
        self.room() == 0 && self@.len() > 0
    }

    /// The room that there is for more, once all that was written out is let go,
    /// if there is none.
    pub open spec fn next_room(&self) -> nat {
        if self.room() > 0 {
            self.room()
        } else {
            self.spec_capacity()
        }
    }

    /// The underlying writer.
    pub closed spec fn writer(&self) -> W {
        self.inner
    }

    /// Whether the parts fit together.
    pub closed spec fn wf(&self) -> bool {
        &&& 0 < self.buf@.len() <= usize::MAX
        &&& self.read_end <= self.write_end <= self.buf@.len()
    }

    /// What is buffered and what there is room for fit into the buffer.
    pub proof fn fits(&self)
        requires
            self.wf(),
        ensures
            self@.len() + self.room() <= self.spec_capacity(),
            0 < self.spec_capacity() <= usize::MAX,
    {
    }

    /// A buffer of the default size.
    pub fn new(inner: W) -> (r: Self)
        ensures
            r.wf(),
            r.writer() == inner,
            r@.len() == 0,
            r.spec_capacity() == DEFAULT_BUF_SIZE,
            r.room() == DEFAULT_BUF_SIZE,
    {
        Self::with_capacity(DEFAULT_BUF_SIZE, inner)
    }

    /// A buffer of the given size.
    pub fn with_capacity(capacity: usize, inner: W) -> (r: Self)
        requires
            capacity > 0,
        ensures
            r.wf(),
            r.writer() == inner,
            r@.len() == 0,
            r.spec_capacity() == capacity,
            r.room() == capacity,
    {
        let buf: Vec<u8> = vec![0u8; capacity];
        BufWriter { inner, buf, read_end: 0, write_end: 0 }
    }

    /// The size of the buffer.
    pub fn capacity(&self) -> (r: usize)
        ensures
            r == self.spec_capacity(),
    {
        self.buf.len()
    }

    /// The underlying writer.
    pub fn get_ref(&self) -> (r: &W)
        ensures
            *r == self.writer(),
    {
        &self.inner
    }

    /// The underlying writer.
    pub fn get_mut(&mut self) -> (r: &mut W)
        requires
            old(self).wf(),
        ensures
            *r == old(self).writer(),
            final(self).writer() == *final(r),
            final(self)@ == old(self)@,
            final(self).room() == old(self).room(),
            final(self).spec_capacity() == old(self).spec_capacity(),
            final(self).wf(),
    {
        &mut self.inner
    }

    /// The underlying writer.
    pub fn get_pin_mut(&mut self) -> (r: &mut W)
        requires
            old(self).wf(),
        ensures
            *r == old(self).writer(),
            final(self).writer() == *final(r),
            final(self)@ == old(self)@,
            final(self).room() == old(self).room(),
            final(self).spec_capacity() == old(self).spec_capacity(),
            final(self).wf(),
    {
        &mut self.inner
    }

    /// Gives the underlying writer back. What was not written out is lost.
    pub fn into_inner(self) -> (r: W)
        ensures
            r == self.writer(),
    {
        self.inner
    }

    /// The bytes that are yet to be written out.
    pub fn readable_data(&self) -> (r: &[u8])
        requires
            self.wf(),
        ensures
            r@ == self@,
    {
        vstd::slice::slice_subrange(self.buf.as_slice(), self.read_end, self.write_end)
    }

    /// Notes that bytes were written out.
    pub fn consume_read(&mut self, amt: usize)
        requires
            old(self).wf(),
            amt <= old(self)@.len(),
        ensures
            final(self).wf(),
            final(self)@ == old(self)@.skip(amt as int),
            final(self).writer() == old(self).writer(),
            final(self).room() == old(self).room(),
            final(self).spec_capacity() == old(self).spec_capacity(),
    {
        self.read_end = self.read_end + amt;
        assert(self@ =~= old(self)@.skip(amt as int));
    }

    /// How many bytes can be taken in, if any can.
    pub fn try_writable(&self) -> (r: Option<usize>)
        requires
            self.wf(),
        ensures
            match r {
                Some(n) => n == self.room() && n > 0,
                None => self.room() == 0,
            },
    {
        if self.write_end == self.buf.len() {
            return None;
        }
        Some(self.buf.len() - self.write_end)
    }

    /// Takes in data, for which there must be room.
    pub fn consume_write(&mut self, data: &[u8])
        requires
            old(self).wf(),
            data@.len() <= old(self).room(),
        ensures
            final(self).wf(),
            final(self)@ == old(self)@ + data@,
            final(self).writer() == old(self).writer(),
            final(self).room() == old(self).room() - data@.len(),
            final(self).spec_capacity() == old(self).spec_capacity(),
    {
        let len: usize = data.len();
        let start: usize = self.write_end;
        let mut i: usize = 0;
        while i < len
            invariant
                i <= len == data@.len(),
                start + len <= self.buf@.len() <= usize::MAX,
                *self == (BufWriter { buf: self.buf, ..*old(self) }),
                self.buf@.len() == old(self).buf@.len(),
                forall|j: int|
                    0 <= j < self.buf@.len() && !(start <= j < start + i) ==> #[trigger]
                        self.buf@[j] == old(self).buf@[j],
                forall|j: int|
                    start <= j < start + i ==> #[trigger] self.buf@[j] == data@[j - start],
            decreases len - i,
        {
            self.buf.set(start + i, data[i]);
            i += 1;
        }
        self.write_end = start + len;
        assert(self@ =~= old(self)@ + data@);
    }

    /// Uses the buffer from its start again. What was not written out is lost.
    pub fn reset(&mut self)
        requires
            old(self).wf(),
        ensures
            final(self).wf(),
            final(self)@.len() == 0,
            final(self).writer() == old(self).writer(),
            final(self).room() == old(self).spec_capacity(),
            final(self).spec_capacity() == old(self).spec_capacity(),
    {
        self.read_end = 0;
        self.write_end = 0;
    }

    /// Notes what a write of the readable data came to: the number of bytes
    /// that were written.
    pub fn wrote_readable(&mut self, written: usize) -> (r: ZipResult<()>)
        requires
            old(self).wf(),
            written <= old(self)@.len(),
        ensures
            final(self).wf(),
            final(self).writer() == old(self).writer(),
            final(self).room() == old(self).room(),
            final(self).spec_capacity() == old(self).spec_capacity(),
            final(self)@ == old(self)@.skip(written as int),
            written == 0 ==> r == Err::<(), ZipError>(write_zero()),
            written > 0 ==> r is Ok,
    {
        if written == 0 {
            assert(self@.skip(0) =~= self@);
            return Err(ZipError::Io(IoError::Simple(ErrorKind::WriteZero, "write zero")));
        }
        self.consume_read(written);
        Ok(())
    }

    /// Makes room, if all was written out, or tells that something must be.
    pub fn poll_writable(&mut self) -> (r: Option<usize>)
        requires
            old(self).wf(),
        ensures
            final(self).wf(),
            final(self).writer() == old(self).writer(),
            final(self).spec_capacity() == old(self).spec_capacity(),
            final(self)@ == old(self)@,
            match r {
                Some(n) => n == final(self).room() && n > 0 && if old(self).room() > 0 {
                    final(self).room() == old(self).room()
                } else {
                    old(self)@.len() == 0 && final(self).room() == old(self).spec_capacity()
                },
                None => old(self).room() == 0 && old(self)@.len() > 0 && final(self).room() == 0,
            },
    {
        if let Some(n) = self.try_writable() {
            return Some(n);
        }
        if self.readable_data().len() > 0 {
            return None;
        }
        self.reset();
        assert(self@ =~= old(self)@);
        self.try_writable()
    }

    /// What is to be done for a write. Where there is room, as much is taken in
    /// as there is room for.
    pub fn poll_write(&mut self, data: NonEmptyReadSlice<'_, u8>) -> (r: WriteAction)
        requires
            old(self).wf(),
            data@.len() > 0,
        ensures
            final(self).wf(),
            final(self).writer() == old(self).writer(),
            final(self).spec_capacity() == old(self).spec_capacity(),
            match r {
                WriteAction::Done(n) => {
                    &&& !old(self).must_flush()
                    &&& n == if old(self).next_room() < data@.len() {
                        old(self).next_room()
                    } else {
                        data@.len()
                    }
                    &&& n > 0
                    &&& final(self)@ == old(self)@ + data@.take(n as int)
                    &&& final(self).room() == old(self).next_room() - n
                },
                WriteAction::WriteOut => {
                    &&& old(self).must_flush()
                    &&& final(self)@ == old(self)@
                    &&& final(self).room() == 0
                },
                WriteAction::FlushInner => false,
            },
    {
        match self.poll_writable() {
            None => WriteAction::WriteOut,
            Some(n) => {
                let amt: usize = if n < data.len() {
                    n
                } else {
                    data.len()
                };
                self.consume_write(vstd::slice::slice_subrange(data.as_slice(), 0, amt));
                WriteAction::Done(amt)
            },
        }
    }

    /// What is to be done for a flush: all is written out, and then the
    /// underlying writer is flushed.
    pub fn poll_flush(&self) -> (r: WriteAction)
        requires
            self.wf(),
        ensures
            r == if self@.len() > 0 {
                WriteAction::WriteOut
            } else {
                WriteAction::FlushInner
            },
    {
        if self.readable_data().len() > 0 {
            WriteAction::WriteOut
        } else {
            WriteAction::FlushInner
        }
    }
}

impl BufWriter<Cursor> {
    /// The underlying stream once all is written out.
    pub open spec fn arrived(&self) -> crate::stream::StreamState {
        if self@.len() == 0 {
            self.writer()@
        } else {
            self.writer()@.written(self@)
        }
    }

    /// Writes all out.
    pub fn flush(&mut self)
        requires
            old(self).wf(),
        ensures
            final(self).wf(),
            final(self)@.len() == 0,
            final(self).writer()@ == old(self).arrived(),
            final(self).spec_capacity() == old(self).spec_capacity(),
            final(self).room() == old(self).room(),
    {
        let n: usize = self.readable_data().len();
        if n > 0 {
            self.inner.write_all(
                vstd::slice::slice_subrange(self.buf.as_slice(), self.read_end, self.write_end),
            );
            self.consume_read(n);
        }
    }

    /// Writes some of the data, and returns how much. What was written arrives
    /// after all that was written before.
    pub fn write(&mut self, data: NonEmptyReadSlice<'_, u8>) -> (r: usize)
        requires
            old(self).wf(),
            data@.len() > 0,
        ensures
            final(self).wf(),
            r == if old(self).next_room() < data@.len() {
                old(self).next_room()
            } else {
                data@.len()
            },
            r > 0,
            final(self).room() == old(self).next_room() - r,
            final(self).spec_capacity() == old(self).spec_capacity(),
            final(self).arrived() == if old(self)@.len() == 0 {
                old(self).writer()@.written(data@.take(r as int))
            } else {
                old(self).writer()@.written(old(self)@ + data@.take(r as int))
            },
    {
        let ghost before = *self;
        let first = self.poll_write(data);
        match first {
            WriteAction::Done(n) => {
                assert(before@.len() == 0 ==> before@ + data@.take(n as int) =~= data@.take(
                    n as int,
                ));
                n
            },
            _ => {
                self.flush();
                match self.poll_write(data) {
                    WriteAction::Done(n) => {
                        assert(self@ =~= data@.take(n as int));
                        proof {
                            crate::stream::overlay_twice(
                                before.writer()@.bytes,
                                before.writer()@.pos as int,
                                before@,
                                data@.take(n as int),
                            );
                        }
                        n
                    },
                    _ => vstd::pervasive::unreached(),
                }
            },
        }
    }
}

} // verus!
