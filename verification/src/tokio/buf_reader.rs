//! A buffer in front of a reader.
use vstd::prelude::*;

use crate::stream::Readable;
use crate::tokio::WrappedPin;

verus! {

/// The size of a buffer, if none is asked for.
pub const DEFAULT_BUF_SIZE: usize = 8192;

/// What a [`BufReader`] has to do before it can go on.
#[derive(Debug)]
pub enum ReadAction {
    /// Read up to that many bytes straight for the caller, and then call
    /// `discard_buffer`.
    Bypass(usize),
    /// Read up to that many bytes once, hand them to `reset_buffer`, and then
    /// call `serve`.
    Fill(usize),
    /// Nothing: here is what was asked for.
    Done(Vec<u8>),
}

/// The `BufReader` struct adds buffering to any reader.
///
/// A `BufReader` performs large, infrequent reads on the underlying
/// reader and maintains an in-memory buffer of the results.
///
/// `BufReader` can improve the speed of programs that make *small* and
/// *repeated* read calls to the same file or network socket. It does not
/// help when reading very large amounts at once, or reading just one or a few
/// times. It also provides no advantage when reading from a source that is
/// already in memory, like a `Vec<u8>`.
///
/// When the `BufReader` is dropped, the contents of its buffer will be
/// discarded. Creating multiple instances of a `BufReader` on the same
/// stream can cause data loss.
#[derive(Debug)]
pub struct BufReader<R> {
    inner: R,
    buf: Vec<u8>,
    pos: usize,
    cap: usize,
}

impl<R> BufReader<R> {
    /// The bytes that are buffered.
    pub closed spec fn view(&self) -> Seq<u8> {
        self.buf@.subrange(self.pos as int, self.cap as int)
    }

    /// The size of the buffer.
    pub closed spec fn spec_capacity(&self) -> nat {
        self.buf@.len()
    }

    /// The underlying reader.
    pub closed spec fn reader(&self) -> R {
        self.inner
    }

    /// Whether the parts fit together.
    pub closed spec fn wf(&self) -> bool {
        &&& 0 < self.buf@.len() <= usize::MAX
        &&& self.pos <= self.cap <= self.buf@.len()
    }

    /// Creates a new `BufReader` with a default buffer capacity. The default is currently 8 KB,
    /// but may change in the future.
    pub fn new(inner: R) -> (r: Self)
        ensures
            r.wf(),
            r.reader() == inner,
            r@.len() == 0,
            r.spec_capacity() == DEFAULT_BUF_SIZE,
    {
        Self::with_capacity(DEFAULT_BUF_SIZE, inner)
    }

    /// Creates a new `BufReader` with the specified buffer capacity.
    pub fn with_capacity(capacity: usize, inner: R) -> (r: Self)
        requires
            capacity > 0,
        ensures
            r.wf(),
            r.reader() == inner,
            r@.len() == 0,
            r.spec_capacity() == capacity,
    {
        let buf: Vec<u8> = vec![0u8; capacity];
        BufReader { inner, buf, pos: 0, cap: 0 }
    }

    /// The size of the buffer.
    pub fn capacity(&self) -> (r: usize)
        ensures
            r == self.spec_capacity(),
    {
        self.buf.len()
    }

    /// Whether nothing is buffered.
    pub fn is_empty(&self) -> (r: bool)
        requires
            self.wf(),
        ensures
            r == (self@.len() == 0),
    {
        self.cap == self.pos
    }

    /// Returns a reference to the internally buffered data.
    ///
    /// This will not attempt to fill the buffer if it is empty.
    pub fn buffer(&self) -> (r: &[u8])
        requires
            self.wf(),
        ensures
            r@ == self@,
    {
        vstd::slice::slice_subrange(self.buf.as_slice(), self.pos, self.cap)
    }

    /// Invalidates all data in the internal buffer.
    pub fn discard_buffer(&mut self)
        requires
            old(self).wf(),
        ensures
            final(self).wf(),
            final(self)@.len() == 0,
            final(self).reader() == old(self).reader(),
            final(self).spec_capacity() == old(self).spec_capacity(),
    {
        self.pos = 0;
        self.cap = 0;
    }

    /// Buffers what was read, in place of all that was buffered before.
    pub fn reset_buffer(&mut self, data: &[u8])
        requires
            old(self).wf(),
            data@.len() <= old(self).spec_capacity(),
        ensures
            final(self).wf(),
            final(self)@ == data@,
            final(self).reader() == old(self).reader(),
            final(self).spec_capacity() == old(self).spec_capacity(),
    {
        let len: usize = data.len();
        let mut i: usize = 0;
        while i < len
            invariant
                i <= len == data@.len() <= self.buf@.len(),
                self.buf@.len() == old(self).buf@.len(),
                self.inner == old(self).inner,
                self.buf@.take(i as int) == data@.take(i as int),
            decreases len - i,
        {
            let ghost before = self.buf@;
            self.buf.set(i, data[i]);
            assert(self.buf@.take(i + 1) =~= before.take(i as int).push(data@[i as int]));
            assert(data@.take(i + 1) =~= data@.take(i as int).push(data@[i as int]));
            i += 1;
        }
        self.pos = 0;
        self.cap = len;
        assert(self@ =~= self.buf@.take(len as int));
        assert(data@.take(len as int) =~= data@);
    }

    /// Whether a request asks for no less than the buffer holds.
    pub fn request_is_larger_than_buffer(&self, requested: usize) -> (r: bool)
        ensures
            r == (requested >= self.spec_capacity()),
    {
        requested >= self.capacity()
    }

    /// Whether a request is better served without the buffer.
    pub fn should_bypass_buffer(&self, requested: usize) -> (r: bool)
        requires
            self.wf(),
        ensures
            r == (self@.len() == 0 && requested >= self.spec_capacity()),
    {
        self.is_empty() && self.request_is_larger_than_buffer(requested)
    }

    /// Uses up buffered bytes, or all of them if there are fewer.
    pub fn consume(&mut self, amt: usize)
        requires
            old(self).wf(),
        ensures
            final(self).wf(),
            final(self)@ == if amt < old(self)@.len() {
                old(self)@.skip(amt as int)
            } else {
                Seq::empty()
            },
            final(self).reader() == old(self).reader(),
            final(self).spec_capacity() == old(self).spec_capacity(),
    {
        let left: usize = self.cap - self.pos;
        self.pos = if amt < left {
            self.pos + amt
        } else {
            self.cap
        };
        assert(self@ =~= if amt < old(self)@.len() {
            old(self)@.skip(amt as int)
        } else {
            Seq::empty()
        });
    }

    /// Takes up to `requested` bytes out of the buffer.
    pub fn serve(&mut self, requested: usize) -> (out: Vec<u8>)
        requires
            old(self).wf(),
        ensures
            final(self).wf(),
            out@.len() == if requested < old(self)@.len() {
                requested as nat
            } else {
                old(self)@.len()
            },
            out@ + final(self)@ == old(self)@,
            final(self).reader() == old(self).reader(),
            final(self).spec_capacity() == old(self).spec_capacity(),
    {
        let left: usize = self.cap - self.pos;
        let amt: usize = if requested < left {
            requested
        } else {
            left
        };
        let out = vstd::slice::slice_to_vec(
            vstd::slice::slice_subrange(self.buf.as_slice(), self.pos, self.pos + amt),
        );
        self.consume(amt);
        assert(out@ + self@ =~= old(self)@);
        out
    }

    /// What is to be done for a read of up to `requested` bytes.
    ///
    /// If there is no buffered data and the read is a massive one (larger than the internal
    /// buffer), the internal buffer is bypassed entirely.
    pub fn poll_read(&mut self, requested: usize) -> (r: ReadAction)
        requires
            old(self).wf(),
        ensures
            final(self).wf(),
            final(self).reader() == old(self).reader(),
            final(self).spec_capacity() == old(self).spec_capacity(),
            match r {
                ReadAction::Bypass(n) => {
                    &&& old(self)@.len() == 0
                    &&& requested >= old(self).spec_capacity()
                    &&& n == requested
                    &&& final(self)@ == old(self)@
                },
                ReadAction::Fill(n) => {
                    &&& old(self)@.len() == 0
                    &&& requested < old(self).spec_capacity()
                    &&& n == old(self).spec_capacity()
                    &&& final(self)@ == old(self)@
                },
                ReadAction::Done(out) => {
                    &&& old(self)@.len() > 0
                    &&& out@.len() == if requested < old(self)@.len() {
                        requested as nat
                    } else {
                        old(self)@.len()
                    }
                    &&& out@ + final(self)@ == old(self)@
                },
            },
    {
        if self.should_bypass_buffer(requested) {
            return ReadAction::Bypass(requested);
        }
        if self.is_empty() {
            return ReadAction::Fill(self.capacity());
        }
        ReadAction::Done(self.serve(requested))
    }
}

impl<R> WrappedPin<R> for BufReader<R> {
    open spec fn wrapped(&self) -> R {
        self.reader()
    }

    /// Consumes this `BufReader`, returning the underlying reader.
    ///
    /// Note that any leftover data in the internal buffer is lost.
    fn unwrap_inner_pin(self) -> (r: R) {
        self.inner
    }
}

/// Whether a reader is another one from which bytes were read.
pub open spec fn followed<R: Readable>(before: R, after: R) -> bool {
    &&& after.root() == before.root()
    &&& after.position() + after.rest().len() == before.position() + before.rest().len()
}

impl<R: Readable> BufReader<R> {
    /// Whether the parts fit together, those of the underlying reader too.
    pub open spec fn ready(&self) -> bool {
        self.wf() && self.reader().ready()
    }

    /// What is left to be read: what is buffered, and then what is left of the
    /// underlying reader.
    pub open spec fn rest(&self) -> Seq<u8> {
        self@ + self.reader().rest()
    }

    /// What the buffer holds once it is filled, if it was empty.
    pub open spec fn filled(&self) -> Seq<u8> {
        if self@.len() > 0 {
            self@
        } else if self.rest().len() <= self.spec_capacity() {
            self.rest()
        } else {
            self.rest().take(self.spec_capacity() as int)
        }
    }

    /// Fills the buffer, if it is empty.
    pub fn fill_buf(&mut self)
        requires
            old(self).ready(),
        ensures
            final(self).ready(),
            final(self).spec_capacity() == old(self).spec_capacity(),
            final(self).rest() == old(self).rest(),
            final(self)@ == old(self).filled(),
            followed(old(self).reader(), final(self).reader()),
    {
        if self.is_empty() {
            let n: usize = self.capacity();
            let data = self.inner.read_some(n);
            self.reset_buffer(data.as_slice());
            assert(self.rest() =~= old(self).rest());
            assert(self@ =~= old(self).filled());
        }
    }

    /// Reads all that is left.
    pub fn read_all(&mut self) -> (out: Vec<u8>)
        requires
            old(self).ready(),
        ensures
            final(self).ready(),
            final(self).spec_capacity() == old(self).spec_capacity(),
            out@ == old(self).rest(),
            final(self).rest() == Seq::<u8>::empty(),
            final(self)@.len() == 0,
            followed(old(self).reader(), final(self).reader()),
    {
        let mut out = vstd::slice::slice_to_vec(self.buffer());
        let mut more = self.inner.read_all();
        out.append(&mut more);
        self.discard_buffer();
        assert(out@ =~= old(self).rest());
        assert(self.rest() =~= Seq::empty());
        out
    }

    /// How many bytes a single read can give: those that are buffered, or, where
    /// none are, those that the stream has, no more than the buffer holds if less
    /// than that is asked for.
    pub open spec fn at_once(&self, requested: nat) -> nat {
        if self@.len() == 0 && requested >= self.spec_capacity() {
            self.rest().len()
        } else {
            self.filled().len()
        }
    }

    /// Reads up to `requested` bytes, in the order in which they come from the
    /// underlying stream. At least one is read, if there is any and any is
    /// asked for.
    pub fn read(&mut self, requested: usize) -> (out: Vec<u8>)
        requires
            old(self).ready(),
        ensures
            final(self).ready(),
            final(self).spec_capacity() == old(self).spec_capacity(),
            out@ + final(self).rest() == old(self).rest(),
            followed(old(self).reader(), final(self).reader()),
            out@.len() == if requested < old(self).at_once(requested as nat) {
                requested as nat
            } else {
                old(self).at_once(requested as nat)
            },
            requested > 0 && old(self).rest().len() > 0 ==> out@.len() > 0,
    {
        let ghost before = *self;
        match self.poll_read(requested) {
            ReadAction::Done(out) => {
                assert(out@ + self.rest() =~= before.rest());
                out
            },
            ReadAction::Bypass(n) => {
                let out = self.inner.read_some(n);
                self.discard_buffer();
                assert(out@ + self.rest() =~= before.rest());
                out
            },
            ReadAction::Fill(n) => {
                let data = self.inner.read_some(n);
                self.reset_buffer(data.as_slice());
                let out = self.serve(requested);
                assert(out@ + self.rest() =~= before.rest());
                out
            },
        }
    }
}

/// A buffer is filled with what comes next, in its order: something, if there is anything, and no
/// more than it holds.
pub proof fn buffer_holds_what_comes_next<R: Readable>(r: BufReader<R>, requested: nat)
    requires
        r.ready(),
        r.spec_capacity() > 0,
        r@.len() <= r.spec_capacity(),
    ensures
        r.filled().is_prefix_of(r.rest()),
        r.filled().len() <= r.spec_capacity(),
        r.filled().len() == 0 <==> r.rest().len() == 0,
        r@.len() == 0 && r.rest().len() >= r.spec_capacity() ==> r.filled().len()
            == r.spec_capacity(),
        r@.len() > 0 ==> r.filled() == r@,
        r.at_once(requested) <= r.rest().len(),
        r.at_once(requested) == 0 <==> r.rest().len() == 0,
{
    assert(r.filled().is_prefix_of(r.rest()));
}

} // verus!
