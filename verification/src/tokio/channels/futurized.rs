//! A ring buffer for tasks that wait: who cannot go on leaves a waker.
use std::collections::VecDeque;

use vstd::prelude::*;

use crate::tokio::channels::push::Pusher;
use crate::tokio::channels::ring::{ReadPermit, Ring, TruncateLength, WritePermit};
use crate::tokio::channels::{Lease, LeaseBehavior};
use crate::tokio::Poll;

verus! {

/// How many bytes a ring has room for.
pub const RING_CAPACITY: usize = 8192;

/// Whether a ring is as good as new: it has the room that rings have, all of it can be
/// written, and nobody has a permit.
pub open spec fn good_as_new(ring: Ring) -> bool {
    &&& ring.wf()
    &&& ring.spec_capacity() == RING_CAPACITY
    &&& ring@.len() == 0
    &&& ring.read_at() == 0
    &&& ring.writable() == ring.spec_capacity()
    &&& ring.write_lent() is None
    &&& ring.read_lent() is None
}

/// Rings that are not in use.
pub struct RingFreeList {
    rings: VecDeque<Ring>,
}

impl RingFreeList {
    /// The rings, the one to be used next first.
    pub closed spec fn view(&self) -> Seq<Ring> {
        self.rings@
    }

    /// Whether all rings are as good as new.
    pub open spec fn wf(&self) -> bool {
        forall|i: int| 0 <= i < self@.len() ==> good_as_new(#[trigger] self@[i])
    }

    /// No rings.
    pub fn new() -> (r: Self)
        ensures
            r.wf(),
            r@.len() == 0,
    {
        RingFreeList { rings: VecDeque::new() }
    }

    /// Takes the first ring, or makes one with the given room.
    pub fn get_or_create_ring(&mut self, capacity: usize) -> (r: Ring)
        requires
            old(self).wf(),
            capacity > 0,
        ensures
            final(self).wf(),
            r.wf(),
            r@.len() == 0,
            r.read_at() == 0,
            r.writable() == r.spec_capacity(),
            r.write_lent() is None,
            r.read_lent() is None,
            old(self)@.len() == 0 ==> r.spec_capacity() == capacity && final(self)@ == old(self)@,
            old(self)@.len() > 0 ==> r == old(self)@[0] && r.spec_capacity() == RING_CAPACITY
                && final(self)@ == old(self)@.skip(1),
    {
        let ghost before = self@;
        match self.rings.pop_front() {
            Some(ring) => {
                assert(self@ =~= before.skip(1));
                assert forall|i: int| 0 <= i < self@.len() implies good_as_new(
                    #[trigger] self@[i],
                ) by {
                    assert(self@[i] == before[i + 1]);
                }
                ring
            },
            None => Ring::with_capacity(capacity),
        }
    }

    /// Takes a ring back, after it was made as good as new.
    pub fn return_ring(&mut self, ring: Ring)
        requires
            old(self).wf(),
            ring.wf(),
            ring.spec_capacity() == RING_CAPACITY,
        ensures
            final(self).wf(),
            final(self)@.len() == old(self)@.len() + 1,
            final(self)@.drop_last() == old(self)@,
            good_as_new(final(self)@.last()),
    {
        let ghost before = self@;
        let mut ring = ring;
        ring.clear();
        self.rings.push_back(ring);
        assert(self@ =~= before.push(ring));
        assert(self@.drop_last() =~= before);
    }
}

/// A ring buffer with those who wait for it.
pub struct RingFuturized<W> {
    buf: Ring,
    read_wakers: Pusher<W>,
    write_wakers: Pusher<W>,
}

/// A permit to read from a [`RingFuturized`].
pub struct ReadPermitFuturized {
    buf: ReadPermit,
}

/// A permit to write to a [`RingFuturized`].
pub struct WritePermitFuturized {
    buf: WritePermit,
}

impl ReadPermitFuturized {
    /// The permit.
    pub closed spec fn permit(&self) -> ReadPermit {
        self.buf
    }

    /// Takes a permit.
    pub(crate) fn for_buf(buf: ReadPermit) -> (r: Self)
        ensures
            r.permit() == buf,
    {
        ReadPermitFuturized { buf }
    }

    /// The permit.
    pub fn as_ref(&self) -> (r: &ReadPermit)
        ensures
            *r == self.permit(),
    {
        &self.buf
    }

    /// Makes the permit cover less.
    pub fn truncate(&mut self, len: usize)
        requires
            len <= old(self).permit().spec_len(),
        ensures
            final(self).permit().spec_len() == len,
            final(self).permit().spec_original_len() == old(self).permit().spec_original_len(),
            final(self).permit()@ == old(self).permit()@.take(len as int),
    {
        self.buf.truncate(len);
    }
}

impl WritePermitFuturized {
    /// The permit.
    pub closed spec fn permit(&self) -> WritePermit {
        self.buf
    }

    /// Takes a permit.
    pub(crate) fn for_buf(buf: WritePermit) -> (r: Self)
        ensures
            r.permit() == buf,
    {
        WritePermitFuturized { buf }
    }

    /// The permit.
    pub fn as_ref(&self) -> (r: &WritePermit)
        ensures
            *r == self.permit(),
    {
        &self.buf
    }

    /// Makes the permit cover less.
    pub fn truncate(&mut self, len: usize)
        requires
            len <= old(self).permit().spec_len(),
        ensures
            final(self).permit().spec_len() == len,
            final(self).permit().spec_original_len() == old(self).permit().spec_original_len(),
            final(self).permit()@ == old(self).permit()@.take(len as int),
    {
        self.buf.truncate(len);
    }

    /// Writes over all of the bytes.
    pub fn copy_from_slice(&mut self, src: &[u8])
        requires
            src@.len() == old(self).permit()@.len(),
        ensures
            final(self).permit()@ == src@,
            final(self).permit().spec_len() == old(self).permit().spec_len(),
            final(self).permit().spec_original_len() == old(self).permit().spec_original_len(),
    {
        self.buf.copy_from_slice(src);
    }
}

impl<W> RingFuturized<W> {
    /// The ring.
    pub closed spec fn ring(&self) -> Ring {
        self.buf
    }

    /// Who waits to read.
    pub closed spec fn readers(&self) -> Seq<W> {
        self.read_wakers@
    }

    /// Who waits to write.
    pub closed spec fn writers(&self) -> Seq<W> {
        self.write_wakers@
    }

    /// How many bytes there is room for.
    pub fn capacity(&self) -> (r: usize)
        ensures
            r == self.ring().spec_capacity(),
    {
        self.buf.capacity()
    }

    /// A ring out of the free list, or a new one with room for 8 KiB.
    pub fn new(free: &mut RingFreeList) -> (r: Self)
        requires
            old(free).wf(),
        ensures
            final(free).wf(),
            good_as_new(r.ring()),
            r.readers().len() == 0,
            r.writers().len() == 0,
            old(free)@.len() == 0 ==> final(free)@ == old(free)@,
            old(free)@.len() > 0 ==> r.ring() == old(free)@[0] && final(free)@ == old(free)@.skip(
                1,
            ),
    {
        let buf = free.get_or_create_ring(RING_CAPACITY);
        RingFuturized { buf, read_wakers: Pusher::new(), write_wakers: Pusher::new() }
    }

    /// Asks for a permit to read; who does not get it waits.
    pub fn poll_read(&mut self, waker: W, requested_length: usize) -> (r: Poll<ReadPermitFuturized>)
        requires
            old(self).ring().wf(),
            requested_length > 0,
        ensures
            final(self).ring().wf(),
            final(self).writers() == old(self).writers(),
            match r {
                Poll::Ready(permit) => {
                    &&& final(self).readers() == old(self).readers()
                    &&& old(self).ring().read_answer(
                        final(self).ring(),
                        requested_length,
                        Lease::Taken(permit.permit()),
                    )
                },
                Poll::Pending => {
                    &&& old(self).ring().readable() == 0 || old(self).ring().read_lent() is Some
                    &&& final(self).readers() == old(self).readers().push(waker)
                    &&& final(self).ring() == old(self).ring()
                },
            },
    {
        match self.buf.request_read_lease(requested_length, LeaseBehavior::AllowSpuriousFailures) {
            Lease::NoSpace | Lease::PossiblyTaken => {
                self.read_wakers.push(waker);
                Poll::Pending
            },
            Lease::Taken(permit) => Poll::Ready(ReadPermitFuturized::for_buf(permit)),
        }
    }

    /// Asks for a permit to write; who does not get it waits.
    pub fn poll_write(&mut self, waker: W, requested_length: usize) -> (r: Poll<
        WritePermitFuturized,
    >)
        requires
            old(self).ring().wf(),
            requested_length > 0,
        ensures
            final(self).ring().wf(),
            final(self).readers() == old(self).readers(),
            match r {
                Poll::Ready(permit) => {
                    &&& final(self).writers() == old(self).writers()
                    &&& old(self).ring().write_answer(
                        final(self).ring(),
                        requested_length,
                        Lease::Taken(permit.permit()),
                    )
                },
                Poll::Pending => {
                    &&& old(self).ring().writable() == 0 || old(self).ring().write_lent() is Some
                    &&& final(self).writers() == old(self).writers().push(waker)
                    &&& final(self).ring() == old(self).ring()
                },
            },
    {
        match self.buf.request_write_lease(requested_length, LeaseBehavior::AllowSpuriousFailures) {
            Lease::NoSpace | Lease::PossiblyTaken => {
                self.write_wakers.push(waker);
                Poll::Pending
            },
            Lease::Taken(permit) => Poll::Ready(WritePermitFuturized::for_buf(permit)),
        }
    }

    /// Takes back the permit to read. Returns who is to be woken, in order: those
    /// who wait to read, and, if something was read, those who wait to write.
    pub fn return_read(&mut self, permit: ReadPermitFuturized) -> (r: Vec<W>)
        requires
            old(self).ring().wf(),
            old(self).ring().read_lent() == Some(permit.permit().spec_original_len()),
            permit.permit().spec_len() <= permit.permit().spec_original_len(),
            permit.permit().spec_len() == permit.permit()@.len(),
        ensures
            final(self).ring().wf(),
            final(self).ring()@ == old(self).ring()@.skip(permit.permit()@.len() as int),
            final(self).ring().spec_capacity() == old(self).ring().spec_capacity(),
            final(self).ring().read_at() == if old(self).ring().read_at()
                + permit.permit()@.len() == old(self).ring().spec_capacity() {
                0
            } else {
                old(self).ring().read_at() + permit.permit()@.len()
            },
            final(self).ring().read_lent() is None,
            final(self).ring().write_lent() == old(self).ring().write_lent(),
            final(self).readers().len() == 0,
            permit.permit()@.len() == 0 ==> r@ == old(self).readers() && final(self).writers()
                == old(self).writers(),
            permit.permit()@.len() > 0 ==> r@ == old(self).readers() + old(self).writers()
                && final(self).writers().len() == 0,
    {
        let was_empty: bool = permit.buf.is_empty();
        // The permit goes back first, to close out the owned region in the ring before
        // waking up any tasks.
        self.buf.return_read_lease(permit.buf);
        let mut wakers = self.read_wakers.extract();
        if !was_empty {
            let mut writers = self.write_wakers.extract();
            wakers.append(&mut writers);
        }
        wakers
    }

    /// Takes back the permit to write. Returns who is to be woken, in order:
    /// those who wait to write, and, if something was written, those who wait to
    /// read.
    pub fn return_write(&mut self, permit: WritePermitFuturized) -> (r: Vec<W>)
        requires
            old(self).ring().wf(),
            old(self).ring().write_lent() == Some(permit.permit().spec_original_len()),
            permit.permit().spec_len() <= permit.permit().spec_original_len(),
            permit.permit().spec_len() == permit.permit()@.len(),
        ensures
            final(self).ring().wf(),
            final(self).ring()@ == old(self).ring()@ + permit.permit()@,
            final(self).ring().spec_capacity() == old(self).ring().spec_capacity(),
            final(self).ring().read_at() == old(self).ring().read_at(),
            final(self).ring().write_lent() is None,
            final(self).ring().read_lent() == old(self).ring().read_lent(),
            final(self).writers().len() == 0,
            permit.permit()@.len() == 0 ==> r@ == old(self).writers() && final(self).readers()
                == old(self).readers(),
            permit.permit()@.len() > 0 ==> r@ == old(self).writers() + old(self).readers()
                && final(self).readers().len() == 0,
    {
        let was_empty: bool = permit.buf.is_empty();
        // The permit goes back first, to close out the owned region in the ring before
        // waking up any tasks.
        self.buf.return_write_lease(permit.buf);
        let mut wakers = self.write_wakers.extract();
        if !was_empty {
            let mut readers = self.read_wakers.extract();
            wakers.append(&mut readers);
        }
        wakers
    }

    /// Gives the ring back to the free list. Returns who is to be woken: all who
    /// wait, those to read first.
    pub fn close(self, free: &mut RingFreeList) -> (r: Vec<W>)
        requires
            self.ring().wf(),
            self.ring().spec_capacity() == RING_CAPACITY,
            old(free).wf(),
        ensures
            final(free).wf(),
            final(free)@.len() == old(free)@.len() + 1,
            final(free)@.drop_last() == old(free)@,
            good_as_new(final(free)@.last()),
            r@ == self.readers() + self.writers(),
    {
        let mut read_wakers = self.read_wakers;
        let mut write_wakers = self.write_wakers;
        let mut wakers = read_wakers.take_owned();
        let mut writers = write_wakers.take_owned();
        wakers.append(&mut writers);
        free.return_ring(self.buf);
        wakers
    }
}

} // verus!
