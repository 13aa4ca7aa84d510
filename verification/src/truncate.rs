//! Truncating writable streams.
use vstd::prelude::*;

use crate::result::ZipResult;
use crate::stream::Cursor;

verus! {

/// Bytes cut off after a length, or made up to it with zeros.
pub open spec fn resized(b: Seq<u8>, size: int) -> Seq<u8> {
    if size <= b.len() {
        b.take(size)
    } else {
        b + Seq::new((size - b.len()) as nat, |i: int| 0u8)
    }
}

/// A stream whose length can be set.
pub trait Truncate {
    /// The bytes of the stream.
    spec fn stream_bytes(&self) -> Seq<u8>;

    /// Cuts the stream off after a length, or makes it up to it with zeros.
    fn truncate(&mut self, size: u64) -> (r: ZipResult<()>)
        ensures
            r is Ok,
            final(self).stream_bytes() == resized(
                old(self).stream_bytes(),
                (size as usize) as int,
            ),
    ;
}

/// Cuts bytes off after a length, or makes them up to it with zeros.
fn resize(bytes: &mut Vec<u8>, size: usize)
    ensures
        final(bytes)@ == resized(old(bytes)@, size as int),
{
    bytes.resize(size, 0u8);
    proof {
        if size > old(bytes)@.len() {
            let n = old(bytes)@.len();
            assert(forall|i: int| 0 <= i < n ==> #[trigger] bytes@.subrange(0, n as int)[i]
                == bytes@[i]);
        }
        assert(bytes@ =~= resized(old(bytes)@, size as int));
    }
}

impl Truncate for Vec<u8> {
    open spec fn stream_bytes(&self) -> Seq<u8> {
        self@
    }

    fn truncate(&mut self, size: u64) -> (r: ZipResult<()>) {
        resize(self, #[verifier::truncate] (size as usize));
        Ok(())
    }
}

impl Truncate for Cursor {
    open spec fn stream_bytes(&self) -> Seq<u8> {
        self@.bytes
    }

    /// The position stays as it is.
    fn truncate(&mut self, size: u64) -> (r: ZipResult<()>)
        ensures
            final(self)@.pos == old(self)@.pos,
    {
        let pos: u64 = self.stream_position();
        let mut bytes = vstd::slice::slice_to_vec(self.get_ref().as_slice());
        resize(&mut bytes, #[verifier::truncate] (size as usize));
        *self = Cursor::new(bytes);
        self.seek_start(pos);
        Ok(())
    }
}

impl<T: Truncate> Truncate for Box<T> {
    open spec fn stream_bytes(&self) -> Seq<u8> {
        (**self).stream_bytes()
    }

    fn truncate(&mut self, size: u64) -> (r: ZipResult<()>) {
        (**self).truncate(size)
    }
}

/// Bytes that are resized are as many as asked for: those that there were, as far as they go, and
/// zeros after them.
pub proof fn resized_bytes(b: Seq<u8>, size: int)
    requires
        0 <= size,
    ensures
        resized(b, size).len() == size,
        forall|i: int| 0 <= i < size && i < b.len() ==> #[trigger] resized(b, size)[i] == b[i],
        forall|i: int| b.len() <= i < size ==> #[trigger] resized(b, size)[i] == 0,
{
}

} // verus!
