//! A ring buffer: what is written to it is read from it, in order.
use vstd::prelude::*;

use crate::tokio::channels::{Lease, LeaseBehavior, PermitState};

verus! {

/// Something that can be made shorter.
pub trait TruncateLength {
    /// The length now.
    spec fn spec_len(&self) -> nat;

    /// The length at first.
    spec fn spec_original_len(&self) -> nat;

    /// By how much this was made shorter.
    fn truncated_length(&self) -> (r: usize)
        requires
            self.spec_len() <= self.spec_original_len() <= usize::MAX,
        ensures
            r == self.spec_original_len() - self.spec_len(),
    ;

    /// Makes this shorter.
    fn truncate(&mut self, len: usize)
        requires
            len <= old(self).spec_len(),
        ensures
            final(self).spec_len() == len,
            final(self).spec_original_len() == old(self).spec_original_len(),
    ;
}

/// Bytes that may be read.
#[derive(Debug)]
pub struct ReadPermit {
    view: Vec<u8>,
    original_length: usize,
}

/// Bytes that may be written.
#[derive(Debug)]
pub struct WritePermit {
    view: Vec<u8>,
    original_length: usize,
}

impl TruncateLength for ReadPermit {
    closed spec fn spec_len(&self) -> nat {
        self.view@.len()
    }

    closed spec fn spec_original_len(&self) -> nat {
        self.original_length as nat
    }

    fn truncated_length(&self) -> (r: usize) {
        self.original_length - self.view.len()
    }

    fn truncate(&mut self, len: usize)
        ensures
            final(self)@ == old(self)@.take(len as int),
    {
        self.view.truncate(len);
    }
}

impl ReadPermit {
    /// The bytes.
    pub closed spec fn view(&self) -> Seq<u8> {
        self.view@
    }

    /// A permit over all of the bytes.
    pub(crate) fn over(view: Vec<u8>) -> (r: Self)
        ensures
            r@ == view@,
            r.spec_len() == view@.len(),
            r.spec_original_len() == view@.len(),
    {
        let original_length: usize = view.len();
        ReadPermit { view, original_length }
    }

    /// The bytes.
    pub fn as_ref(&self) -> (r: &[u8])
        ensures
            r@ == self@,
    {
        self.view.as_slice()
    }

    /// The number of bytes.
    pub fn len(&self) -> (r: usize)
        ensures
            r == self@.len(),
            r == self.spec_len(),
    {
        self.view.len()
    }

    /// Whether there are no bytes.
    pub fn is_empty(&self) -> (r: bool)
        ensures
            r == (self@.len() == 0),
    {
        self.view.len() == 0
    }
}

impl TruncateLength for WritePermit {
    closed spec fn spec_len(&self) -> nat {
        self.view@.len()
    }

    closed spec fn spec_original_len(&self) -> nat {
        self.original_length as nat
    }

    fn truncated_length(&self) -> (r: usize) {
        self.original_length - self.view.len()
    }

    fn truncate(&mut self, len: usize)
        ensures
            final(self)@ == old(self)@.take(len as int),
    {
        self.view.truncate(len);
    }
}

impl WritePermit {
    /// The bytes.
    pub closed spec fn view(&self) -> Seq<u8> {
        self.view@
    }

    /// A permit over all of the bytes.
    pub(crate) fn over(view: Vec<u8>) -> (r: Self)
        ensures
            r@ == view@,
            r.spec_len() == view@.len(),
            r.spec_original_len() == view@.len(),
    {
        let original_length: usize = view.len();
        WritePermit { view, original_length }
    }

    /// The bytes.
    pub fn as_ref(&self) -> (r: &[u8])
        ensures
            r@ == self@,
    {
        self.view.as_slice()
    }

    /// The number of bytes.
    pub fn len(&self) -> (r: usize)
        ensures
            r == self@.len(),
            r == self.spec_len(),
    {
        self.view.len()
    }

    /// Whether there are no bytes.
    pub fn is_empty(&self) -> (r: bool)
        ensures
            r == (self@.len() == 0),
    {
        self.view.len() == 0
    }

    /// Writes over all of the bytes.
    pub fn copy_from_slice(&mut self, src: &[u8])
        requires
            src@.len() == old(self)@.len(),
        ensures
            final(self)@ == src@,
            final(self).spec_len() == old(self).spec_len(),
            final(self).spec_original_len() == old(self).spec_original_len(),
    {
        self.view = vstd::slice::slice_to_vec(src);
    }
}

/// A ring buffer with room for a fixed number of bytes.
///
/// Bytes are written and read through permits, of which one of each kind may be
/// out. A permit covers bytes that lie side by side, so it may cover less than
/// there is.
pub struct Ring {
    buf: Vec<u8>,
    write_head: usize,
    remaining_inline_write: usize,
    write_state: PermitState,
    read_head: usize,
    remaining_inline_read: usize,
    read_state: PermitState,
    /// Whether the write head is in the lap after the one of the read head.
    ahead: Ghost<bool>,
    /// How many bytes the permits that are out cover.
    lent_write: Ghost<nat>,
    lent_read: Ghost<nat>,
}

impl Ring {
    /// The bytes that were written and not yet read, the oldest first.
    pub closed spec fn view(&self) -> Seq<u8> {
        if self.ahead@ {
            self.buf@.skip(self.read_head as int) + self.buf@.take(self.write_head as int)
        } else {
            self.buf@.subrange(self.read_head as int, self.write_head as int)
        }
    }

    /// How many bytes there is room for.
    pub closed spec fn spec_capacity(&self) -> nat {
        self.buf@.len()
    }

    /// Where the oldest byte is, or the next one will be if there are none.
    pub closed spec fn read_at(&self) -> nat {
        self.read_head as nat
    }

    /// How many bytes a permit to write can cover now.
    pub closed spec fn writable(&self) -> nat {
        self.remaining_inline_write as nat
    }

    /// How many bytes a permit to read can cover now.
    pub closed spec fn readable(&self) -> nat {
        self.remaining_inline_read as nat
    }

    /// How many bytes the permit to write that is out covers, if one is.
    pub closed spec fn write_lent(&self) -> Option<nat> {
        if self.write_state == PermitState::TakenOut {
            Some(self.lent_write@)
        } else {
            None
        }
    }

    /// How many bytes the permit to read that is out covers, if one is.
    pub closed spec fn read_lent(&self) -> Option<nat> {
        if self.read_state == PermitState::TakenOut {
            Some(self.lent_read@)
        } else {
            None
        }
    }

    /// Whether the parts fit together.
    pub closed spec fn wf(&self) -> bool {
        let cap = self.buf@.len();
        &&& 0 < cap <= usize::MAX
        &&& self.write_head < cap
        &&& self.read_head < cap
        &&& self.write_state == PermitState::Unleashed ==> self.lent_write@ == 0
        &&& self.read_state == PermitState::Unleashed ==> self.lent_read@ == 0
        &&& if self.ahead@ {
            &&& self.write_head <= self.read_head
            &&& self.remaining_inline_write + self.lent_write@ == self.read_head - self.write_head
            &&& self.remaining_inline_read + self.lent_read@ == cap - self.read_head
        } else {
            &&& self.read_head <= self.write_head
            &&& self.remaining_inline_write + self.lent_write@ == cap - self.write_head
            &&& self.remaining_inline_read + self.lent_read@ == self.write_head - self.read_head
        }
    }

    /// Makes the ring as good as new.
    pub fn clear(&mut self)
        requires
            old(self).wf(),
        ensures
            final(self).wf(),
            final(self)@ == Seq::<u8>::empty(),
            final(self).spec_capacity() == old(self).spec_capacity(),
            final(self).writable() == old(self).spec_capacity(),
            final(self).read_at() == 0,
            final(self).write_lent() is None,
            final(self).read_lent() is None,
    {
        self.write_head = 0;
        self.remaining_inline_write = self.capacity();
        self.write_state = PermitState::Unleashed;
        self.read_head = 0;
        self.remaining_inline_read = 0;
        self.read_state = PermitState::Unleashed;
        self.ahead = Ghost(false);
        self.lent_write = Ghost(0);
        self.lent_read = Ghost(0);
        assert(self@ =~= Seq::empty());
    }

    /// An empty ring with the given room.
    pub fn with_capacity(capacity: usize) -> (r: Self)
        requires
            capacity > 0,
        ensures
            r.wf(),
            r@ == Seq::<u8>::empty(),
            r.spec_capacity() == capacity,
            r.writable() == capacity,
            r.read_at() == 0,
            r.write_lent() is None,
            r.read_lent() is None,
    {
        let buf: Vec<u8> = vec![0u8; capacity];
        let r = Ring {
            buf,
            write_head: 0,
            remaining_inline_write: capacity,
            write_state: PermitState::Unleashed,
            read_head: 0,
            remaining_inline_read: 0,
            read_state: PermitState::Unleashed,
            ahead: Ghost(false),
            lent_write: Ghost(0),
            lent_read: Ghost(0),
        };
        assert(r@ =~= Seq::empty());
        r
    }

    /// How many bytes there is room for.
    pub fn capacity(&self) -> (r: usize)
        ensures
            r == self.spec_capacity(),
    {
        self.buf.len()
    }

    /// Takes back the permit to write. The bytes that it covers, as far as they
    /// were not truncated, are then there to be read, after all others.
    pub fn return_write_lease(&mut self, permit: WritePermit)
        requires
            old(self).wf(),
            old(self).write_lent() == Some(permit.spec_original_len()),
            permit.spec_len() <= permit.spec_original_len(),
        ensures
            final(self).wf(),
            final(self)@ == old(self)@ + permit@,
            final(self).spec_capacity() == old(self).spec_capacity(),
            final(self).read_at() == old(self).read_at(),
            final(self).write_lent() is None,
            final(self).read_lent() == old(self).read_lent(),
    {
        let ghost before = *self;
        let truncated_length: usize = permit.truncated_length();
        if truncated_length > 0 {
            self.remaining_inline_write = self.remaining_inline_write + truncated_length;
        }
        let len: usize = permit.len();
        if len > 0 {
            let start: usize = self.write_head;
            let mut i: usize = 0;
            while i < len
                invariant
                    i <= len,
                    len == permit.view@.len(),
                    start + len <= self.buf@.len(),
                    start == before.write_head,
                    self.buf@.len() == before.buf@.len(),
                    *self == (Ring {
                        buf: self.buf,
                        remaining_inline_write: self.remaining_inline_write,
                        ..before
                    }),
                    self.remaining_inline_write == before.remaining_inline_write
                        + truncated_length,
                    self.buf@.len() <= usize::MAX,
                    forall|j: int|
                        start <= j < start + i ==> #[trigger] self.buf@[j] == permit.view@[j
                            - start],
                    forall|j: int|
                        0 <= j < self.buf@.len() && !(start <= j < start + i) ==> #[trigger]
                            self.buf@[j] == before.buf@[j],
                decreases len - i,
            {
                self.buf.set(start + i, permit.view[i]);
                i += 1;
            }
            let new_write_head: usize = len + self.write_head;
            let read_head: usize = self.read_head;

            if new_write_head == self.capacity() {
                self.remaining_inline_write = read_head;
                self.write_head = 0;
                self.ahead = Ghost(true);
            } else {
                self.write_head = new_write_head;
            }

            if new_write_head > read_head {
                self.remaining_inline_read = self.remaining_inline_read + len;
            }
        }
        self.lent_write = Ghost(0);
        self.write_state = PermitState::Unleashed;
        assert(self@ =~= before@ + permit@);
    }

    /// Asks for a permit to write, without insisting on it.
    pub fn request_write_lease_weak(&mut self, requested_length: usize) -> (r: Lease<WritePermit>)
        requires
            old(self).wf(),
            requested_length > 0,
        ensures
            final(self).wf(),
            old(self).write_answer(*final(self), requested_length, r),
    {
        self.request_write_lease(requested_length, LeaseBehavior::AllowSpuriousFailures)
    }

    /// Asks for a permit to write.
    pub fn request_write_lease_strong(&mut self, requested_length: usize) -> (r: Lease<WritePermit>)
        requires
            old(self).wf(),
            requested_length > 0,
        ensures
            final(self).wf(),
            old(self).write_answer(*final(self), requested_length, r),
    {
        self.request_write_lease(requested_length, LeaseBehavior::NoSpuriousFailures)
    }

    /// What a request for a permit to write comes to.
    pub open spec fn write_answer(
        &self,
        next: Ring,
        requested_length: usize,
        r: Lease<WritePermit>,
    ) -> bool {
        &&& next@ == self@
        &&& next.spec_capacity() == self.spec_capacity()
        &&& next.read_at() == self.read_at()
        &&& next.read_lent() == self.read_lent()
        &&& next.readable() == self.readable()
        &&& r is NoSpace <==> self.writable() == 0
        &&& r is PossiblyTaken <==> self.writable() > 0 && self.write_lent() is Some
        &&& !(r is Taken) ==> next == *self
        &&& r matches Lease::Taken(permit) ==> {
            &&& permit.spec_len() == permit@.len()
            &&& permit.spec_original_len() == permit@.len()
            &&& permit@.len() == if requested_length < self.writable() {
                requested_length as nat
            } else {
                self.writable()
            }
            &&& next.write_lent() == Some(permit@.len())
            &&& next.writable() == self.writable() - permit@.len()
        }
    }

    /// Asks for a permit to write.
    pub fn request_write_lease(&mut self, requested_length: usize, behavior: LeaseBehavior) -> (r:
        Lease<WritePermit>)
        requires
            old(self).wf(),
            requested_length > 0,
        ensures
            final(self).wf(),
            old(self).write_answer(*final(self), requested_length, r),
    {
        if self.remaining_inline_write == 0 {
            return Lease::NoSpace;
        }
        let mut state = self.write_state;
        if !behavior.try_acquire_lease(&mut state) {
            return Lease::PossiblyTaken;
        }
        self.write_state = state;
        let limited_length: usize = if self.remaining_inline_write < requested_length {
            self.remaining_inline_write
        } else {
            requested_length
        };
        self.remaining_inline_write = self.remaining_inline_write - limited_length;
        self.lent_write = Ghost(limited_length as nat);
        let prev_write_head: usize = self.write_head;
        let view = vstd::slice::slice_to_vec(
            vstd::slice::slice_subrange(
                self.buf.as_slice(),
                prev_write_head,
                prev_write_head + limited_length,
            ),
        );
        Lease::Taken(WritePermit::over(view))
    }

    /// Takes back the permit to read. The bytes that it covers, as far as they
    /// were not truncated, are then gone, and there is room in their place.
    pub fn return_read_lease(&mut self, permit: ReadPermit)
        requires
            old(self).wf(),
            old(self).read_lent() == Some(permit.spec_original_len()),
            permit.spec_len() <= permit.spec_original_len(),
        ensures
            final(self).wf(),
            final(self)@ == old(self)@.skip(permit.spec_len() as int),
            final(self).spec_capacity() == old(self).spec_capacity(),
            final(self).read_at() == if old(self).read_at() + permit.spec_len()
                == old(self).spec_capacity() {
                0
            } else {
                old(self).read_at() + permit.spec_len()
            },
            final(self).read_lent() is None,
            final(self).write_lent() == old(self).write_lent(),
    {
        let ghost before = *self;
        let truncated_length: usize = permit.truncated_length();
        if truncated_length > 0 {
            self.remaining_inline_read = self.remaining_inline_read + truncated_length;
        }
        let len: usize = permit.len();
        if len > 0 {
            let new_read_head: usize = len + self.read_head;
            let write_head: usize = self.write_head;

            if new_read_head == self.capacity() {
                self.remaining_inline_read = write_head;
                self.read_head = 0;
                self.ahead = Ghost(false);
            } else {
                self.read_head = new_read_head;
            }

            if new_read_head > write_head {
                self.remaining_inline_write = self.remaining_inline_write + len;
            }
        }
        self.lent_read = Ghost(0);
        self.read_state = PermitState::Unleashed;
        assert(self@ =~= before@.skip(len as int));
    }

    /// Asks for a permit to read, without insisting on it.
    pub fn request_read_lease_weak(&mut self, requested_length: usize) -> (r: Lease<ReadPermit>)
        requires
            old(self).wf(),
            requested_length > 0,
        ensures
            final(self).wf(),
            old(self).read_answer(*final(self), requested_length, r),
    {
        self.request_read_lease(requested_length, LeaseBehavior::AllowSpuriousFailures)
    }

    /// Asks for a permit to read.
    pub fn request_read_lease_strong(&mut self, requested_length: usize) -> (r: Lease<ReadPermit>)
        requires
            old(self).wf(),
            requested_length > 0,
        ensures
            final(self).wf(),
            old(self).read_answer(*final(self), requested_length, r),
    {
        self.request_read_lease(requested_length, LeaseBehavior::NoSpuriousFailures)
    }

    /// What a request for a permit to read comes to: the permit covers the
    /// oldest bytes.
    pub open spec fn read_answer(
        &self,
        next: Ring,
        requested_length: usize,
        r: Lease<ReadPermit>,
    ) -> bool {
        &&& next@ == self@
        &&& next.spec_capacity() == self.spec_capacity()
        &&& next.read_at() == self.read_at()
        &&& next.write_lent() == self.write_lent()
        &&& next.writable() == self.writable()
        &&& r is NoSpace <==> self.readable() == 0
        &&& r is PossiblyTaken <==> self.readable() > 0 && self.read_lent() is Some
        &&& !(r is Taken) ==> next == *self
        &&& r matches Lease::Taken(permit) ==> {
            &&& permit.spec_len() == permit@.len()
            &&& permit.spec_original_len() == permit@.len()
            &&& permit@.len() == if requested_length < self.readable() {
                requested_length as nat
            } else {
                self.readable()
            }
            &&& permit@.len() <= self@.len()
            &&& permit@ == self@.take(permit@.len() as int)
            &&& next.read_lent() == Some(permit@.len())
            &&& next.readable() == self.readable() - permit@.len()
        }
    }

    /// Asks for a permit to read.
    pub fn request_read_lease(&mut self, requested_length: usize, behavior: LeaseBehavior) -> (r:
        Lease<ReadPermit>)
        requires
            old(self).wf(),
            requested_length > 0,
        ensures
            final(self).wf(),
            old(self).read_answer(*final(self), requested_length, r),
    {
        if self.remaining_inline_read == 0 {
            return Lease::NoSpace;
        }
        let mut state = self.read_state;
        if !behavior.try_acquire_lease(&mut state) {
            return Lease::PossiblyTaken;
        }
        self.read_state = state;
        let limited_length: usize = if self.remaining_inline_read < requested_length {
            self.remaining_inline_read
        } else {
            requested_length
        };
        self.remaining_inline_read = self.remaining_inline_read - limited_length;
        self.lent_read = Ghost(limited_length as nat);
        let prev_read_head: usize = self.read_head;
        let view = vstd::slice::slice_to_vec(
            vstd::slice::slice_subrange(
                self.buf.as_slice(),
                prev_read_head,
                prev_read_head + limited_length,
            ),
        );
        assert(view@ =~= old(self)@.take(limited_length as int));
        Lease::Taken(ReadPermit::over(view))
    }
}

/// The bytes lie side by side as far as the end of the ring, and go on at its
/// start: so does the room. That tells how much a permit can cover.
pub proof fn ring_layout(ring: Ring)
    requires
        ring.wf(),
    ensures
        ({
            let cap = ring.spec_capacity();
            let len = ring@.len();
            let write_at = if ring.read_at() + len < cap {
                (ring.read_at() + len) as nat
            } else {
                (ring.read_at() + len - cap) as nat
            };
            &&& ring.read_at() < cap
            &&& ring.read_lent() is None ==> ring.readable() == if len < cap - ring.read_at() {
                len as int
            } else {
                cap - ring.read_at()
            }
            &&& ring.write_lent() is None ==> ring.writable() == if cap - len < cap - write_at {
                cap - len
            } else {
                cap - write_at
            }
        }),
{
}

/// Nothing is lost: there is room for what is not taken up, and where no permit
/// is out, a permit can be had for some of the bytes if there are any, and for
/// some of the room if there is any.
pub proof fn ring_room(ring: Ring)
    requires
        ring.wf(),
    ensures
        ring@.len() <= ring.spec_capacity(),
        ring.read_lent() is None ==> (ring.readable() == 0 <==> ring@.len() == 0),
        ring.write_lent() is None ==> (ring.writable() == 0 <==> ring@.len()
            == ring.spec_capacity()),
{
}

/// What is done with a ring: bytes are put in by a permit to write that is taken
/// back, or taken out by a permit to read that is.
pub ghost enum Passage {
    Wrote(Seq<u8>),
    Read(Seq<u8>),
}

/// What a ring holds after a passage, if it can take place.
pub open spec fn passed(held: Seq<u8>, capacity: nat, passage: Passage) -> Option<Seq<u8>> {
    match passage {
        Passage::Wrote(bytes) => if held.len() + bytes.len() <= capacity {
            Some(held + bytes)
        } else {
            None
        },
        Passage::Read(bytes) => if bytes.len() <= held.len() && held.take(bytes.len() as int)
            == bytes {
            Some(held.skip(bytes.len() as int))
        } else {
            None
        },
    }
}

/// What a ring that was empty holds after all passages, if they can take place.
pub open spec fn all_passed(capacity: nat, passages: Seq<Passage>) -> Option<Seq<u8>>
    decreases passages.len(),
{
    if passages.len() == 0 {
        Some(Seq::empty())
    } else {
        match all_passed(capacity, passages.drop_last()) {
            Some(held) => passed(held, capacity, passages.last()),
            None => None,
        }
    }
}

/// All the bytes that were written, in order.
pub open spec fn all_written(passages: Seq<Passage>) -> Seq<u8>
    decreases passages.len(),
{
    if passages.len() == 0 {
        Seq::empty()
    } else {
        match passages.last() {
            Passage::Wrote(bytes) => all_written(passages.drop_last()) + bytes,
            Passage::Read(_) => all_written(passages.drop_last()),
        }
    }
}

/// All the bytes that were read, in order.
pub open spec fn all_read(passages: Seq<Passage>) -> Seq<u8>
    decreases passages.len(),
{
    if passages.len() == 0 {
        Seq::empty()
    } else {
        match passages.last() {
            Passage::Wrote(_) => all_read(passages.drop_last()),
            Passage::Read(bytes) => all_read(passages.drop_last()) + bytes,
        }
    }
}

/// A permit to write that is taken back, as [`Ring::return_write_lease`] does, is a
/// passage: no more was written than the ring has room for.
pub proof fn write_passes(before: Ring, after: Ring, bytes: Seq<u8>)
    requires
        before.wf(),
        after.wf(),
        after@ == before@ + bytes,
        after.spec_capacity() == before.spec_capacity(),
    ensures
        passed(before@, before.spec_capacity(), Passage::Wrote(bytes)) == Some(after@),
{
    ring_room(after);
}

/// A permit to read that was had from a ring, and of which `len` bytes are left when
/// it is taken back, as [`Ring::return_read_lease`] does, is a passage: what was read
/// are the oldest bytes, though others were written in the meantime.
pub proof fn read_passes(before: Ring, at_return: Ring, after: Ring, later: Seq<u8>, len: int)
    requires
        at_return@ == before@ + later,
        0 <= len <= before@.len(),
        after@ == at_return@.skip(len),
    ensures
        passed(at_return@, at_return.spec_capacity(), Passage::Read(before@.take(len))) == Some(
            after@,
        ),
{
    assert(at_return@.take(len) =~= before@.take(len));
}

/// Whatever is done with a ring, what was read is what was written first, and what was
/// written and not yet read is what the ring holds, no more than there is room for.
pub proof fn read_is_prefix_of_written(capacity: nat, passages: Seq<Passage>)
    requires
        all_passed(capacity, passages) is Some,
    ensures
        all_written(passages) == all_read(passages) + all_passed(capacity, passages)->0,
        all_read(passages).len() <= all_written(passages).len(),
        all_read(passages) == all_written(passages).take(all_read(passages).len() as int),
        all_written(passages).len() - all_read(passages).len() <= capacity,
    decreases passages.len(),
{
    if passages.len() > 0 {
        let before = passages.drop_last();
        read_is_prefix_of_written(capacity, before);
        let held = all_passed(capacity, before)->0;
        let now = all_passed(capacity, passages)->0;
        match passages.last() {
            Passage::Wrote(bytes) => {
                assert(all_written(passages) =~= all_read(passages) + now);
            },
            Passage::Read(bytes) => {
                assert(held =~= bytes + now);
                assert(all_written(passages) =~= all_read(passages) + now);
            },
        }
    } else {
        assert(all_written(passages) =~= all_read(passages) + all_passed(capacity, passages)->0);
    }
    assert(all_read(passages) =~= all_written(passages).take(all_read(passages).len() as int));
}

/// The next permit to read covers the bytes that come next: after whatever was done
/// with a ring, where no permit to read is out, it is given if and only if something was
/// written and not yet read, and its bytes are those that follow all that was read.
pub proof fn next_read_goes_on(
    ring: Ring,
    passages: Seq<Passage>,
    next: Ring,
    requested_length: usize,
    r: Lease<ReadPermit>,
)
    requires
        ring.wf(),
        all_passed(ring.spec_capacity(), passages) == Some(ring@),
        requested_length > 0,
        ring.read_lent() is None,
        ring.read_answer(next, requested_length, r),
    ensures
        r is NoSpace <==> all_read(passages) == all_written(passages),
        !(r is PossiblyTaken),
        r matches Lease::Taken(permit) ==> {
            let from = all_read(passages).len() as int;
            &&& 1 <= permit@.len() <= requested_length
            &&& from + permit@.len() <= all_written(passages).len()
            &&& permit@ == all_written(passages).subrange(from, from + permit@.len())
        },
{
    read_is_prefix_of_written(ring.spec_capacity(), passages);
    ring_room(ring);
    let from = all_read(passages).len() as int;
    assert(all_written(passages).len() == from + ring@.len());
    if let Lease::Taken(permit) = r {
        assert(permit@ =~= all_written(passages).subrange(from, from + permit@.len()));
    }
    if r is NoSpace {
        assert(all_read(passages) =~= all_written(passages));
    }
}

/// A permit covers as much as was asked for, or as much as can be had at once if that is less; it
/// is refused only where nothing can be had, or where another is out.
pub proof fn permits_are_as_large_as_can_be(
    before: Ring,
    after: Ring,
    n: usize,
    write: Lease<WritePermit>,
    read: Lease<ReadPermit>,
)
    requires
        n > 0,
    ensures
        before.write_answer(after, n, write) ==> {
            &&& after@ == before@
            &&& before.writable() > 0 && before.write_lent() is None ==> write is Taken
            &&& write matches Lease::Taken(permit) ==> {
                &&& 0 < permit@.len() <= n
                &&& permit@.len() <= before.writable()
                &&& permit@.len() == n || permit@.len() == before.writable()
            }
        },
        before.read_answer(after, n, read) ==> {
            &&& after@ == before@
            &&& before.readable() > 0 && before.read_lent() is None ==> read is Taken
            &&& read matches Lease::Taken(permit) ==> {
                &&& 0 < permit@.len() <= n
                &&& permit@.len() <= before.readable()
                &&& permit@.len() == n || permit@.len() == before.readable()
                &&& permit@.is_prefix_of(before@)
            }
        },
{
}

} // verus!
