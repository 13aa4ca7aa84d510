//! Streams made of other streams.
use vstd::prelude::*;

use crate::read::limited;
use crate::stream::{Cursor, Readable, Root};
use crate::tokio::WrappedPin;

verus! {

/// Something that knows how long it is.
pub trait KnownExpanse {
    /// The length.
    spec fn spec_full_length(&self) -> nat;

    /// The length, whether or not any of it was used up.
    fn full_length(&self) -> (r: usize)
        ensures
            r == self.spec_full_length(),
    ;
}

/// A stream of which no more than a certain number of bytes is used.
#[derive(Debug)]
pub struct Limiter<S> {
    pub max_len: usize,
    pub internal_pos: usize,
    pub source_stream: S,
}

impl<S> Limiter<S> {
    /// Whether no more was used than may be.
    pub open spec fn wf(&self) -> bool {
        self.internal_pos <= self.max_len
    }

    /// How many bytes may still be used.
    pub open spec fn remaining(&self) -> nat {
        (self.max_len - self.internal_pos) as nat
    }

    /// How many of the requested bytes may be used.
    pub open spec fn limit(&self, requested_length: nat) -> nat {
        if self.remaining() < requested_length {
            self.remaining()
        } else {
            requested_length
        }
    }

    /// No more is used than was asked for, nor than may be; and as much is as both allow.
    pub proof fn limit_is_kept(&self, requested_length: nat)
        requires
            self.wf(),
        ensures
            self.limit(requested_length) <= requested_length,
            self.internal_pos + self.limit(requested_length) <= self.max_len,
            self.limit(requested_length) == requested_length || self.internal_pos + self.limit(
                requested_length,
            ) == self.max_len,
    {
    }

    /// A stream of which no more than `limit` bytes are used.
    pub fn take(source_stream: S, limit: usize) -> (r: Self)
        ensures
            r.wf(),
            r.max_len == limit,
            r.internal_pos == 0,
            r.source_stream == source_stream,
    {
        Limiter { max_len: limit, internal_pos: 0, source_stream }
    }

    /// How many bytes may still be used.
    pub fn remaining_len(&self) -> (r: usize)
        requires
            self.wf(),
        ensures
            r == self.remaining(),
    {
        self.max_len - self.internal_pos
    }

    /// How many bytes of the source a request for some is to be made for; none,
    /// if the limit is reached.
    pub fn limit_length(&self, requested_length: usize) -> (r: usize)
        requires
            self.wf(),
        ensures
            r == self.limit(requested_length as nat),
    {
        let remaining: usize = self.remaining_len();
        if remaining < requested_length {
            remaining
        } else {
            requested_length
        }
    }

    /// Notes that bytes of the source were used.
    pub fn push_cursor(&mut self, len: usize)
        requires
            old(self).wf(),
            len <= old(self).remaining(),
        ensures
            final(self).wf(),
            *final(self) == (Limiter {
                internal_pos: (old(self).internal_pos + len) as usize,
                ..*old(self)
            }),
    {
        self.internal_pos = self.internal_pos + len;
    }
}

impl<S> KnownExpanse for Limiter<S> {
    open spec fn spec_full_length(&self) -> nat {
        self.max_len as nat
    }

    fn full_length(&self) -> (r: usize) {
        self.max_len
    }
}

impl<S> WrappedPin<S> for Limiter<S> {
    open spec fn wrapped(&self) -> S {
        self.source_stream
    }

    fn unwrap_inner_pin(self) -> (r: S) {
        self.source_stream
    }
}

impl Limiter<Cursor> {
    /// Reads up to `n` bytes, no more than may be used.
    pub fn read(&mut self, n: usize) -> (out: Vec<u8>)
        requires
            old(self).wf(),
        ensures
            final(self).wf(),
            final(self).max_len == old(self).max_len,
            out@.len() == old(self).source_stream@.available(old(self).limit(n as nat) as int),
            final(self).internal_pos == old(self).internal_pos + out@.len(),
            final(self).source_stream@.bytes == old(self).source_stream@.bytes,
            final(self).source_stream@.pos == old(self).source_stream@.pos + out@.len(),
            out@.len() > 0 ==> out@ == old(self).source_stream@.bytes.subrange(
                old(self).source_stream@.pos as int,
                (old(self).source_stream@.pos + out@.len()) as int,
            ),
    {
        let count: usize = self.limit_length(n);
        if count == 0 {
            return Vec::new();
        }
        let out = self.source_stream.read(count);
        if out.len() > 0 {
            self.push_cursor(out.len());
        }
        out
    }

    /// Writes as much of `buf` as may be used. Returns how much that is.
    pub fn write(&mut self, buf: &[u8]) -> (r: usize)
        requires
            old(self).wf(),
        ensures
            final(self).wf(),
            final(self).max_len == old(self).max_len,
            r == old(self).limit(buf@.len()),
            final(self).internal_pos == old(self).internal_pos + r,
            final(self).source_stream@ == if r == 0 {
                old(self).source_stream@
            } else {
                old(self).source_stream@.written(buf@.take(r as int))
            },
    {
        let count: usize = self.limit_length(buf.len());
        if count == 0 {
            return 0;
        }
        self.source_stream.write_all(vstd::slice::slice_subrange(buf, 0, count));
        self.push_cursor(count);
        count
    }
}

impl Readable for Limiter<Cursor> {
    open spec fn rest(&self) -> Seq<u8> {
        limited(self.source_stream@.bytes, self.source_stream@.pos as int, self.remaining() as int)
    }

    open spec fn root(&self) -> Root {
        Root {
            bytes: self.source_stream@.bytes,
            first: self.source_stream@.pos - self.internal_pos,
            limit: Some(self.max_len as nat),
        }
    }

    open spec fn position(&self) -> nat {
        self.source_stream@.pos
    }

    open spec fn ready(&self) -> bool {
        self.wf()
    }

    fn read_some(&mut self, n: usize) -> (out: Vec<u8>) {
        let out = self.read(n);
        assert(out@ + self.rest() =~= old(self).rest());
        out
    }

    fn read_all(&mut self) -> (out: Vec<u8>) {
        let n: usize = self.remaining_len();
        let out = self.read_some(n);
        assert(out@ =~= old(self).rest());
        assert(self.rest() =~= Seq::empty());
        out
    }
}

} // verus!
