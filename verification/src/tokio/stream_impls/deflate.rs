//! Deflate, step by step.
use vstd::prelude::*;

use crate::codec::{inflate_outcome, inflated};
use crate::result::{ErrorKind, IoError, ZipError, ZipResult};
use crate::stream::Readable;
use crate::tokio::buf_reader::{followed, BufReader};
use crate::tokio::buf_writer::{BufWriter, NonEmptyReadSlice};
use crate::tokio::WrappedPin;

pub use super::state::{Compressor, Decompressor, Fed, FlushKind, Status, Stepped, Totals};
use super::state::{
    compress, compress_step, decompress, decompress_step, goes_well, inflated_in, inflated_out,
    new_compressor, new_decompressor, put_out, taken_in, unbroken, unfailed,
};

verus! {

/// The ways to flush that a stream needs.
pub trait Flush: Sized {
    /// What this asks for.
    spec fn kind(&self) -> FlushKind;

    /// Asks for as much as the codec likes.
    fn none() -> (r: Self)
        ensures
            r.kind() == FlushKind::Free,
    ;

    /// Asks for all up to a byte boundary.
    fn sync() -> (r: Self)
        ensures
            r.kind() == FlushKind::Sync,
    ;

    /// Asks for all.
    fn finish() -> (r: Self)
        ensures
            r.kind() == FlushKind::Finish,
    ;
}

impl Flush for FlushKind {
    open spec fn kind(&self) -> FlushKind {
        *self
    }

    fn none() -> (r: Self) {
        FlushKind::Free
    }

    fn sync() -> (r: Self) {
        FlushKind::Sync
    }

    fn finish() -> (r: Self) {
        FlushKind::Finish
    }
}

/// What a step of a codec came to.
#[derive(Debug)]
pub struct Frame {
    /// What the codec says.
    pub status: Status,
    /// How much of the input was taken in.
    pub consumed: usize,
    /// What came out.
    pub out: Vec<u8>,
}

impl View for Frame {
    type V = Stepped;

    open spec fn view(&self) -> Stepped {
        Stepped { status: self.status, consumed: self.consumed as nat, out: self.out@ }
    }
}

/// Where a codec can fail.
#[derive(Debug, Clone, Copy, PartialEq, Eq, Structural)]
pub enum Place {
    /// In a read.
    Read,
    /// In a write.
    Write,
    /// At the start of a flush.
    FlushStart,
    /// Later in a flush.
    Flush,
    /// In a shutdown.
    Shutdown,
}

/// A codec.
pub trait Ops: Sized {
    /// What is to be told of a failure.
    spec fn spec_failure(place: Place) -> &'static str;

    /// What is to be told of a failure.
    fn failure(place: Place) -> (r: &'static str)
        ensures
            r == Self::spec_failure(place),
    ;

    /// What a step may come to, and what it makes of the codec.
    spec fn steps(
        before: Self,
        input: Seq<u8>,
        room: nat,
        flush: FlushKind,
        frame: Stepped,
        after: Self,
    ) -> bool;

    /// Lets the codec take in of the input, and put out up to `room` bytes.
    fn encode_frame(&mut self, input: &[u8], room: usize, flush: FlushKind) -> (r: Frame)
        ensures
            r@.within(input@.len(), room as nat),
            Self::steps(*old(self), input@, room as nat, flush, r@, *final(self)),
    ;
}

/// Makes a frame of what a step came to.
fn frame(status: Status, totals: Totals, output: Vec<u8>, Ghost(input): Ghost<nat>) -> (r: Frame)
    requires
        totals.within(input, output@.len()),
        input <= usize::MAX,
        output@.len() <= usize::MAX,
    ensures
        r@ == Stepped::of(status, totals, output@),
{
    let consumed: usize = (totals.in_after - totals.in_before) as usize;
    let produced: usize = (totals.out_after - totals.out_before) as usize;
    let mut out = output;
    out.truncate(produced);
    Frame { status, consumed, out }
}

impl Compressor {
    /// A compressor of the given level.
    pub fn new(level: u32) -> (r: Compressor)
        requires
            level <= 9,
        ensures
            r.spec_level() == level,
            r@ == Seq::<Fed>::empty(),
    {
        new_compressor(level)
    }
}

impl Decompressor {
    /// A decompressor.
    pub fn new() -> (r: Decompressor)
        ensures
            r@ == Seq::<Fed>::empty(),
    {
        new_decompressor()
    }
}

impl Ops for Compressor {
    open spec fn spec_failure(place: Place) -> &'static str {
        match place {
            Place::Read => "corrupt read stream(deflate compression error)",
            Place::Write => "corrupt write stream(deflate compression error)/1",
            Place::FlushStart => "corrupt write stream(deflate compression error)/2",
            Place::Flush => "corrupt write stream(deflate compression error)/3",
            Place::Shutdown => "corrupt write stream(deflate compression error)/4",
        }
    }

    fn failure(place: Place) -> (r: &'static str) {
        match place {
            Place::Read => "corrupt read stream(deflate compression error)",
            Place::Write => "corrupt write stream(deflate compression error)/1",
            Place::FlushStart => "corrupt write stream(deflate compression error)/2",
            Place::Flush => "corrupt write stream(deflate compression error)/3",
            Place::Shutdown => "corrupt write stream(deflate compression error)/4",
        }
    }

    open spec fn steps(
        before: Self,
        input: Seq<u8>,
        room: nat,
        flush: FlushKind,
        frame: Stepped,
        after: Self,
    ) -> bool {
        &&& frame == compress_step(before.spec_level(), before@, (input, room, flush))
        &&& after.spec_level() == before.spec_level()
        &&& after@ == before@.push((input, room, flush))
        &&& frame.status is StreamEnd && unfailed(before.spec_level(), before@) ==> inflate_outcome(
            put_out(after.spec_level(), after@),
        ) == (taken_in(after.spec_level(), after@), None::<ErrorKind>)
        &&& unfailed(before.spec_level(), before@) ==> goes_well(
            before@,
            (input, room, flush),
            frame,
        )
    }

    fn encode_frame(&mut self, input: &[u8], room: usize, flush: FlushKind) -> (r: Frame) {
        let mut output: Vec<u8> = vec![0u8; room];
        let (status, totals) = compress(self, input, &mut output, flush);
        let len: usize = input.len();
        frame(status, totals, output, Ghost(len as nat))
    }
}

impl Ops for Decompressor {
    open spec fn spec_failure(place: Place) -> &'static str {
        match place {
            Place::Read => "corrupt read stream(deflate decompression error)",
            Place::Write => "corrupt write stream(deflate decompression error)/1",
            Place::FlushStart => "corrupt write stream(deflate decompression error)/2",
            Place::Flush => "corrupt write stream(deflate decompression error)/3",
            Place::Shutdown => "corrupt write stream(deflate decompression error)/4",
        }
    }

    fn failure(place: Place) -> (r: &'static str) {
        match place {
            Place::Read => "corrupt read stream(deflate decompression error)",
            Place::Write => "corrupt write stream(deflate decompression error)/1",
            Place::FlushStart => "corrupt write stream(deflate decompression error)/2",
            Place::Flush => "corrupt write stream(deflate decompression error)/3",
            Place::Shutdown => "corrupt write stream(deflate decompression error)/4",
        }
    }

    open spec fn steps(
        before: Self,
        input: Seq<u8>,
        room: nat,
        flush: FlushKind,
        frame: Stepped,
        after: Self,
    ) -> bool {
        &&& frame == decompress_step(before@, (input, room, flush))
        &&& after@ == before@.push((input, room, flush))
        &&& frame.status is StreamEnd && unbroken(before@) ==> inflated(inflated_in(after@))
            == Some(inflated_out(after@))
    }

    fn encode_frame(&mut self, input: &[u8], room: usize, flush: FlushKind) -> (r: Frame) {
        let mut output: Vec<u8> = vec![0u8; room];
        let (status, totals) = decompress(self, input, &mut output, flush);
        let len: usize = input.len();
        frame(status, totals, output, Ghost(len as nat))
    }
}

/// What is deflated step by step up to the end of the stream, and then inflated step by
/// step, comes out as it went in.
pub proof fn inflates_what_was_deflated(
    c: (Compressor, Fed, Stepped, Compressor),
    d: (Decompressor, Fed, Stepped, Decompressor),
)
    requires
        Compressor::steps(c.0, c.1.0, c.1.1, c.1.2, c.2, c.3),
        c.2.status is StreamEnd,
        unfailed(c.0.spec_level(), c.0@),
        Decompressor::steps(d.0, d.1.0, d.1.1, d.1.2, d.2, d.3),
        d.2.status is StreamEnd,
        unbroken(d.0@),
        inflated_in(d.3@) == put_out(c.3.spec_level(), c.3@),
    ensures
        inflated_out(d.3@) == taken_in(c.3.spec_level(), c.3@),
{
}

/// What a step leads to.
#[derive(Debug, Clone, Copy, PartialEq, Eq, Structural)]
pub enum Next<T> {
    /// Another step.
    Again,
    /// The end, with this.
    Done(T),
}

/// How a codec is to flush when it is read from: at the end of the input, all is
/// to come out.
pub open spec fn read_flush(eof: bool) -> FlushKind {
    if eof {
        FlushKind::Finish
    } else {
        FlushKind::Free
    }
}

/// The failure of a codec.
pub open spec fn corrupt<O: Ops>(place: Place) -> ZipError {
    ZipError::Io(IoError::Simple(ErrorKind::InvalidInput, O::spec_failure(place)))
}

/// The failure of a codec.
fn corrupt_error<O: Ops>(place: Place) -> (e: ZipError)
    ensures
        e == corrupt::<O>(place),
{
    ZipError::Io(IoError::Simple(ErrorKind::InvalidInput, O::failure(place)))
}

/// What a step of a reader leads to. Where nothing came out though there was
/// input, another step is needed.
pub open spec fn read_next<O: Ops>(status: Status, produced: nat, eof: bool) -> ZipResult<
    Next<()>,
> {
    match status {
        Status::Corrupt => Err(corrupt::<O>(Place::Read)),
        Status::StreamEnd => Ok(Next::Done(())),
        _ => if produced == 0 && !eof {
            Ok(Next::Again)
        } else {
            Ok(Next::Done(()))
        },
    }
}

/// What a step of a reader leads to.
pub fn after_read<O: Ops>(status: Status, produced: usize, eof: bool) -> (r: ZipResult<Next<()>>)
    ensures
        r == read_next::<O>(status, produced as nat, eof),
{
    match status {
        Status::Corrupt => Err(corrupt_error::<O>(Place::Read)),
        Status::StreamEnd => Ok(Next::Done(())),
        Status::Advanced | Status::BufError => if produced == 0 && !eof {
            Ok(Next::Again)
        } else {
            Ok(Next::Done(()))
        },
    }
}

/// What a step of a writer leads to, given how much of its input was taken in.
/// Where nothing was, another step is needed, unless the codec is at its end.
pub open spec fn write_next<O: Ops>(status: Status, consumed: usize) -> ZipResult<Next<usize>> {
    match status {
        Status::Corrupt => Err(corrupt::<O>(Place::Write)),
        Status::StreamEnd => Ok(Next::Done(consumed)),
        _ => if consumed == 0 {
            Ok(Next::Again)
        } else {
            Ok(Next::Done(consumed))
        },
    }
}

/// What a step of a writer leads to.
pub fn after_write<O: Ops>(status: Status, consumed: usize) -> (r: ZipResult<Next<usize>>)
    ensures
        r == write_next::<O>(status, consumed),
{
    match status {
        Status::Corrupt => Err(corrupt_error::<O>(Place::Write)),
        Status::StreamEnd => Ok(Next::Done(consumed)),
        Status::Advanced | Status::BufError => if consumed == 0 {
            Ok(Next::Again)
        } else {
            Ok(Next::Done(consumed))
        },
    }
}

/// A reader whose bytes pass through a codec.
pub struct Reader<O, S> {
    state: O,
    inner: S,
}

impl<O, S> WrappedPin<S> for Reader<O, S> {
    closed spec fn wrapped(&self) -> S {
        self.inner
    }

    fn unwrap_inner_pin(self) -> (r: S) {
        self.inner
    }
}

impl<O, S> Reader<O, S> {
    /// The codec.
    pub closed spec fn codec(&self) -> O {
        self.state
    }
}

/// What a reader gets out of a codec: how much of the input was taken in, what came out
/// of it, and whether another try is needed or the codec failed.
pub type ReadFrame = (usize, Vec<u8>, ZipResult<Next<()>>);

impl<O: Ops, S> Reader<O, S> {
    /// A reader with a codec.
    pub fn with_state(state: O, inner: S) -> (r: Self)
        ensures
            r.codec() == state,
            r.wrapped() == inner,
    {
        Reader { state, inner }
    }

    /// Lets the codec take a step on what was read, nothing at the end of it, with
    /// room for so many bytes. What came out counts though the step fails.
    pub fn read_frame(&mut self, input: &[u8], room: usize) -> (r: ReadFrame)
        ensures
            final(self).wrapped() == old(self).wrapped(),
            exists|frame: Stepped| #[trigger]
                frame.within(input@.len(), room as nat) && O::steps(
                    old(self).codec(),
                    input@,
                    room as nat,
                    read_flush(input@.len() == 0),
                    frame,
                    final(self).codec(),
                ) && r.0 == frame.consumed && r.1@ == frame.out && r.2 == read_next::<O>(
                    frame.status,
                    frame.out.len(),
                    input@.len() == 0,
                ),
    {
        let eof: bool = input.len() == 0;
        let flush: FlushKind = if eof {
            Flush::finish()
        } else {
            Flush::none()
        };
        let frame = self.state.encode_frame(input, room, flush);
        assert(frame@.within(input@.len(), room as nat));
        let next = after_read::<O>(frame.status, frame.out.len(), eof);
        (frame.consumed, frame.out, next)
    }
}

/// Whether the codec took a step from one state of a reader to another: it got
/// what is buffered, and what it took in is used up.
pub open spec fn absorbed<O: Ops, R: Readable>(
    before: Reader<O, BufReader<R>>,
    room: nat,
    frame: Stepped,
    after: Reader<O, BufReader<R>>,
) -> bool {
    let input = before.wrapped().filled();
    &&& frame.within(input.len(), room)
    &&& O::steps(before.codec(), input, room, read_flush(input.len() == 0), frame, after.codec())
    &&& after.wrapped().rest() == before.wrapped().rest().skip(frame.consumed as int)
    &&& after.wrapped()@ == input.skip(frame.consumed as int)
    &&& after.wrapped().spec_capacity() == before.wrapped().spec_capacity()
    &&& followed(before.wrapped().reader(), after.wrapped().reader())
}

impl<O: Ops, R: Readable> Reader<O, BufReader<R>> {
    /// Reads up to `room` bytes, or finds that another try is needed. The codec
    /// gets what is buffered, and what it took in is used up. What came out counts
    /// though the codec fails.
    pub fn try_read(&mut self, room: usize) -> (r: (Vec<u8>, ZipResult<Next<()>>))
        requires
            old(self).wrapped().ready(),
        ensures
            final(self).wrapped().ready(),
            exists|frame: Stepped| #[trigger]
                absorbed(*old(self), room as nat, frame, *final(self)) && r.0@ == frame.out && r.1
                    == read_next::<O>(
                    frame.status,
                    frame.out.len(),
                    old(self).wrapped().filled().len() == 0,
                ),
    {
        self.inner.fill_buf();
        let ghost filled = self.inner@;
        let ghost rest = self.inner.rest();
        let input = vstd::slice::slice_to_vec(self.inner.buffer());
        let (consumed, out, next) = self.read_frame(input.as_slice(), room);
        assert(input@ =~= filled);
        self.inner.consume(consumed);
        assert(self.inner.rest() =~= rest.skip(consumed as int));
        assert(self.inner@ =~= filled.skip(consumed as int));
        assert(self.inner.spec_capacity() == old(self).inner.spec_capacity());
        proof {
            let codec = self.codec();
            let frame = choose|frame: Stepped| #[trigger]
                frame.within(filled.len(), room as nat) && O::steps(
                    old(self).codec(),
                    filled,
                    room as nat,
                    read_flush(filled.len() == 0),
                    frame,
                    codec,
                ) && consumed == frame.consumed && out@ == frame.out && next == read_next::<O>(
                    frame.status,
                    frame.out.len(),
                    filled.len() == 0,
                );
            assert(absorbed(*old(self), room as nat, frame, *self));
        }
        (out, next)
    }
}

/// A Deflate decompressor that is made when it is first used.
pub struct Inflater {
    made: Option<Decompressor>,
}

impl Inflater {
    /// The steps that were taken.
    pub closed spec fn view(&self) -> Seq<Fed> {
        match self.made {
            Some(codec) => codec@,
            None => Seq::empty(),
        }
    }

    /// Whether this was not used yet.
    pub closed spec fn unused(&self) -> bool {
        self.made is None
    }

    /// A decompressor that was not used yet.
    pub fn new() -> (r: Inflater)
        ensures
            r.unused(),
            r@ == Seq::<Fed>::empty(),
    {
        Inflater { made: None }
    }

    /// Whether this was not used yet.
    pub fn is_unused(&self) -> (r: bool)
        ensures
            r == self.unused(),
            r ==> self@ == Seq::<Fed>::empty(),
    {
        self.made.is_none()
    }
}

impl Ops for Inflater {
    open spec fn spec_failure(place: Place) -> &'static str {
        Decompressor::spec_failure(place)
    }

    fn failure(place: Place) -> (r: &'static str) {
        Decompressor::failure(place)
    }

    open spec fn steps(
        before: Self,
        input: Seq<u8>,
        room: nat,
        flush: FlushKind,
        frame: Stepped,
        after: Self,
    ) -> bool {
        &&& !after.unused()
        &&& frame == decompress_step(before@, (input, room, flush))
        &&& after@ == before@.push((input, room, flush))
        &&& frame.status is StreamEnd && unbroken(before@) ==> inflated(inflated_in(after@))
            == Some(inflated_out(after@))
    }

    fn encode_frame(&mut self, input: &[u8], room: usize, flush: FlushKind) -> (r: Frame) {
        let mut codec = match self.made.take() {
            Some(codec) => codec,
            None => Decompressor::new(),
        };
        let r = codec.encode_frame(input, room, flush);
        self.made = Some(codec);
        r
    }
}

/// How far a reader of bytes that Deflate packed has got.
#[verifier::ext_equal]
pub ghost struct Inflow {
    /// The steps that its codec has taken.
    pub steps: Seq<Fed>,
    /// What is buffered.
    pub buffered: Seq<u8>,
    /// What is left of the stream below the buffer.
    pub rest: Seq<u8>,
    /// The size of the buffer.
    pub capacity: nat,
}

impl Inflow {
    /// This with something in its buffer, if there is anything left.
    pub open spec fn filled(self) -> Inflow {
        if self.buffered.len() > 0 {
            self
        } else if self.rest.len() <= self.capacity {
            Inflow { buffered: self.rest, rest: Seq::empty(), ..self }
        } else {
            Inflow {
                buffered: self.rest.take(self.capacity as int),
                rest: self.rest.skip(self.capacity as int),
                ..self
            }
        }
    }

    /// Whether nothing more comes.
    pub open spec fn eof(self) -> bool {
        self.filled().buffered.len() == 0
    }

    /// What the next step gets, with room for so many bytes.
    pub open spec fn fed(self, room: nat) -> Fed {
        (self.filled().buffered, room, read_flush(self.eof()))
    }

    /// What the next step comes to.
    pub open spec fn stepped(self, room: nat) -> Stepped {
        decompress_step(self.steps, self.fed(room))
    }

    /// This after the next step.
    pub open spec fn after(self, room: nat) -> Inflow {
        Inflow {
            steps: self.steps.push(self.fed(room)),
            buffered: self.filled().buffered.skip(self.stepped(room).consumed as int),
            ..self.filled()
        }
    }

    /// What a read of up to `room` bytes returns, and what it leaves. It takes steps until
    /// something comes out, nothing more comes, or a step fails, or moves nothing.
    pub open spec fn read(self, room: nat) -> (ZipResult<Seq<u8>>, Inflow)
        decreases self.buffered.len() + self.rest.len(),
    {
        let s = self.stepped(room);
        let next = self.after(room);
        match read_next::<Inflater>(s.status, s.out.len(), self.eof()) {
            Err(e) => (Err(e), next),
            Ok(Next::Done(_)) => (Ok(s.out), next),
            Ok(Next::Again) => if 0 < s.consumed <= self.filled().buffered.len() {
                next.read(room)
            } else {
                (Ok(s.out), next)
            },
        }
    }

    /// All that there was to be read: what the codec took in, what is buffered, and what is
    /// left.
    pub open spec fn whole(self) -> Seq<u8> {
        inflated_in(self.steps) + self.buffered + self.rest
    }

    /// Whether the codec is at its end, and no step failed.
    pub open spec fn ended(self) -> bool {
        &&& self.steps.len() > 0
        &&& decompress_step(self.steps.drop_last(), self.steps.last()).status is StreamEnd
        &&& unbroken(self.steps.drop_last())
    }

    /// Whether `seen` is what came out of the codec so far, no step having failed. At the
    /// end of the stream it is what a decoder gets.
    pub open spec fn tells(self, packed: Seq<u8>, seen: Seq<u8>) -> bool {
        &&& self.whole() == packed
        &&& unbroken(self.steps)
        &&& inflated_out(self.steps) == seen
        &&& self.ended() ==> inflated(inflated_in(self.steps)) == Some(seen)
    }
}

/// A step that does not fail leaves no step failed.
proof fn unbroken_step(steps: Seq<Fed>, step: Fed)
    requires
        unbroken(steps),
        !(decompress_step(steps, step).status is Corrupt),
    ensures
        unbroken(steps.push(step)),
{
    let more = steps.push(step);
    assert forall|i: int| 0 <= i < more.len() implies !(#[trigger] decompress_step(
        more.take(i),
        more[i],
    ).status is Corrupt) by {
        if i < steps.len() {
            assert(more.take(i) =~= steps.take(i));
            assert(!(decompress_step(steps.take(i), steps[i]).status is Corrupt));
        } else {
            assert(more.take(i) =~= steps);
        }
    }
}

/// What a reader has told of what it read, it goes on telling after a step.
proof fn tells_on(before: Inflow, room: nat, packed: Seq<u8>, seen: Seq<u8>)
    requires
        before.tells(packed, seen),
        !(before.stepped(room).status is Corrupt),
        before.stepped(room).consumed <= before.filled().buffered.len(),
        before.stepped(room).status is StreamEnd ==> inflated(
            inflated_in(before.after(room).steps),
        ) == Some(inflated_out(before.after(room).steps)),
    ensures
        before.after(room).tells(packed, seen + before.stepped(room).out),
{
    let next = before.after(room);
    let s = before.stepped(room);
    let input = before.filled().buffered;
    unbroken_step(before.steps, before.fed(room));
    assert(next.steps.drop_last() =~= before.steps);
    assert(input + before.filled().rest =~= before.buffered + before.rest);
    assert(input.take(s.consumed as int) + input.skip(s.consumed as int) =~= input);
    assert(next.whole() =~= before.whole());
}

impl<R: Readable> Reader<Inflater, BufReader<R>> {
    /// How far this has got.
    pub open spec fn inflow(&self) -> Inflow {
        Inflow {
            steps: self.codec()@,
            buffered: self.wrapped()@,
            rest: self.wrapped().reader().rest(),
            capacity: self.wrapped().spec_capacity(),
        }
    }

    /// Whether the codec was not used yet.
    pub fn is_unused(&self) -> (r: bool)
        ensures
            r == self.codec().unused(),
            r ==> self.codec()@ == Seq::<Fed>::empty(),
    {
        self.state.is_unused()
    }

    /// Reads all that is left, as it is.
    pub fn read_packed(&mut self) -> (out: Vec<u8>)
        requires
            old(self).wrapped().ready(),
        ensures
            final(self).wrapped().ready(),
            final(self).codec() == old(self).codec(),
            out@ == old(self).wrapped().rest(),
            final(self).wrapped().rest() == Seq::<u8>::empty(),
            final(self).wrapped()@.len() == 0,
            final(self).wrapped().spec_capacity() == old(self).wrapped().spec_capacity(),
            followed(old(self).wrapped().reader(), final(self).wrapped().reader()),
    {
        self.inner.read_all()
    }

    /// Reads up to `room` bytes, at least one if there is any and any is asked for.
    pub fn read(&mut self, room: usize) -> (r: ZipResult<Vec<u8>>)
        requires
            old(self).wrapped().ready(),
        ensures
            final(self).wrapped().ready(),
            !final(self).codec().unused(),
            final(self).inflow() == old(self).inflow().read(room as nat).1,
            match r {
                Ok(out) => old(self).inflow().read(room as nat).0 == Ok::<Seq<u8>, ZipError>(out@),
                Err(e) => old(self).inflow().read(room as nat).0 == Err::<Seq<u8>, ZipError>(e),
            },
            followed(old(self).wrapped().reader(), final(self).wrapped().reader()),
            forall|packed: Seq<u8>, seen: Seq<u8>|
                r is Ok && #[trigger] old(self).inflow().tells(packed, seen)
                    ==> final(self).inflow().tells(packed, seen + r->Ok_0@),
    {
        let ghost first = self.inflow();
        loop
            invariant
                self.wrapped().ready(),
                first == old(self).inflow(),
                first.read(room as nat) == self.inflow().read(room as nat),
                followed(old(self).wrapped().reader(), self.wrapped().reader()),
                forall|packed: Seq<u8>, seen: Seq<u8>| #[trigger]
                    first.tells(packed, seen) ==> self.inflow().tells(packed, seen),
            decreases self.inflow().buffered.len() + self.inflow().rest.len(),
        {
            let ghost before = self.inflow();
            self.inner.fill_buf();
            assert(self.inflow() =~= before.filled()) by {
                let cap = before.capacity as int;
                if before.buffered.len() == 0 {
                    assert(before.buffered + before.rest =~= before.rest);
                    assert(self.inner@ + self.inner.reader().rest() =~= before.rest);
                    if before.rest.len() > cap {
                        assert(self.inner.reader().rest() =~= before.rest.skip(cap));
                    } else {
                        assert(self.inner.reader().rest() =~= Seq::empty());
                    }
                } else {
                    let n = before.buffered.len() as int;
                    assert(before.rest =~= (before.buffered + before.rest).skip(n));
                    assert(self.inner.reader().rest() =~= (self.inner@
                        + self.inner.reader().rest()).skip(n));
                }
            }
            let input = vstd::slice::slice_to_vec(self.inner.buffer());
            assert(input@ =~= before.filled().buffered);
            let (consumed, out, next) = self.read_frame(input.as_slice(), room);
            self.inner.consume(consumed);
            let ghost s = before.stepped(room as nat);
            proof {
                assert(self.inflow() =~= before.after(room as nat));
                assert forall|packed: Seq<u8>, seen: Seq<u8>|
                    next is Ok && #[trigger] first.tells(packed, seen) implies self.inflow().tells(
                    packed,
                    seen + out@,
                ) by {
                    tells_on(before, room as nat, packed, seen);
                }
            }
            match next {
                Err(e) => {
                    return Err(e);
                },
                Ok(Next::Done(_)) => {
                    return Ok(out);
                },
                Ok(Next::Again) => {
                    if consumed == 0 {
                        return Ok(out);
                    }
                    proof {
                        assert forall|packed: Seq<u8>, seen: Seq<u8>| #[trigger]
                            first.tells(packed, seen) implies self.inflow().tells(packed, seen) by {
                            assert(seen + out@ =~= seen);
                        }
                    }
                },
            }
        }
    }
}

/// A writer whose bytes pass through a codec.
pub struct Writer<O, S> {
    state: O,
    inner: S,
}

impl<O, S> WrappedPin<S> for Writer<O, S> {
    closed spec fn wrapped(&self) -> S {
        self.inner
    }

    fn unwrap_inner_pin(self) -> (r: S) {
        self.inner
    }
}

impl<O, S> Writer<O, S> {
    /// The codec.
    pub closed spec fn codec(&self) -> O {
        self.state
    }
}

impl<O: Ops, S> Writer<O, S> {
    /// A writer with a codec.
    pub fn with_state(state: O, inner: S) -> (r: Self)
        ensures
            r.codec() == state,
            r.wrapped() == inner,
    {
        Writer { state, inner }
    }
}

/// Where a codec that is flushed fails, by how it is.
pub open spec fn flush_place(flush: FlushKind) -> Place {
    match flush {
        FlushKind::Sync => Place::FlushStart,
        FlushKind::Free => Place::Flush,
        FlushKind::Finish => Place::Shutdown,
    }
}

/// How far a codec has got with putting out what it holds back.
#[derive(Debug, Clone, Copy, PartialEq, Eq, Structural)]
pub enum Drain {
    /// It is to put out all that it can, up to a byte boundary.
    Sync,
    /// It has, and goes on until nothing comes out.
    Free,
    /// It is to put out all, as nothing more will come, until nothing comes out.
    Finish,
    /// Nothing came out.
    Drained,
}

impl Drain {
    /// How the codec is to flush.
    pub open spec fn kind(self) -> FlushKind {
        match self {
            Drain::Sync => FlushKind::Sync,
            Drain::Free => FlushKind::Free,
            Drain::Finish | Drain::Drained => FlushKind::Finish,
        }
    }

    /// Where a codec that has got this far goes on when it is to begin with `first`: where
    /// it is, unless it is drained, or nothing more will come.
    pub fn towards(self, first: Drain) -> (r: Drain)
        ensures
            r == if self is Drained || first is Finish {
                first
            } else {
                self
            },
    {
        match (self, first) {
            (Drain::Drained, _) => first,
            (_, Drain::Finish) => first,
            _ => self,
        }
    }

    /// This after a step in which so much came out. A flush takes at least two steps.
    pub open spec fn after(self, produced: nat) -> Drain {
        match self {
            Drain::Sync => Drain::Free,
            _ => if produced > 0 {
                self
            } else {
                Drain::Drained
            },
        }
    }
}

/// What a step of a flush leads to: another step, where something came out.
pub open spec fn flush_next<O: Ops>(frame: Stepped, flush: FlushKind) -> ZipResult<Next<()>> {
    if frame.status is Corrupt {
        Err(corrupt::<O>(flush_place(flush)))
    } else if frame.out.len() > 0 {
        Ok(Next::Again)
    } else {
        Ok(Next::Done(()))
    }
}

/// Whether the codec took a step from one state of a writer to another, with the
/// input and into the room that it was to have, and what came out is buffered. At
/// a failure, nothing is.
pub open spec fn emitted<O: Ops, W>(
    before: Writer<O, BufWriter<W>>,
    input: Seq<u8>,
    flush: FlushKind,
    frame: Stepped,
    after: Writer<O, BufWriter<W>>,
) -> bool {
    let room = before.wrapped().next_room();
    let out = if frame.status is Corrupt {
        Seq::empty()
    } else {
        frame.out
    };
    &&& frame.within(input.len(), room)
    &&& O::steps(before.codec(), input, room, flush, frame, after.codec())
    &&& after.wrapped()@ == before.wrapped()@ + out
    &&& after.wrapped().room() == room - out.len()
    &&& after.wrapped().spec_capacity() == before.wrapped().spec_capacity()
}

/// Whether nothing was done, as what is buffered must be written out first.
pub open spec fn held_up<O: Ops, W>(
    before: Writer<O, BufWriter<W>>,
    after: Writer<O, BufWriter<W>>,
) -> bool {
    &&& before.wrapped().must_flush()
    &&& after.codec() == before.codec()
    &&& after.wrapped()@ == before.wrapped()@
    &&& after.wrapped().room() == 0
    &&& after.wrapped().spec_capacity() == before.wrapped().spec_capacity()
}

impl<O: Ops, W> Writer<O, BufWriter<W>> {
    /// The underlying writer.
    pub fn get_ref(&self) -> (r: &BufWriter<W>)
        ensures
            *r == self.wrapped(),
    {
        &self.inner
    }

    /// The underlying writer, to write out what is buffered.
    pub fn get_mut(&mut self) -> (r: &mut BufWriter<W>)
        ensures
            *r == old(self).wrapped(),
            final(self).wrapped() == *final(r),
            final(self).codec() == old(self).codec(),
    {
        &mut self.inner
    }

    /// Lets the codec take a step, if there is room for what comes out.
    fn emit(&mut self, input: &[u8], flush: FlushKind) -> (r: Option<Frame>)
        requires
            old(self).wrapped().wf(),
        ensures
            final(self).wrapped().wf(),
            final(self).wrapped().writer() == old(self).wrapped().writer(),
            r is None <==> old(self).wrapped().must_flush(),
            match r {
                None => held_up(*old(self), *final(self)),
                Some(frame) => emitted(*old(self), input@, flush, frame@, *final(self)),
            },
    {
        match self.inner.poll_writable() {
            None => None,
            Some(room) => {
                let frame = self.state.encode_frame(input, room, flush);
                match frame.status {
                    Status::Corrupt => {
                        assert(self.inner@ + Seq::<u8>::empty() =~= self.inner@);
                    },
                    _ => {
                        self.inner.consume_write(frame.out.as_slice());
                    },
                }
                Some(frame)
            },
        }
    }

    /// Writes some of the data, or finds that another try is needed; `None`, if
    /// what is buffered must be written out first.
    pub fn try_write(&mut self, data: NonEmptyReadSlice<'_, u8>) -> (r: Option<
        ZipResult<Next<usize>>,
    >)
        requires
            old(self).wrapped().wf(),
        ensures
            final(self).wrapped().wf(),
            final(self).wrapped().writer() == old(self).wrapped().writer(),
            r is None <==> old(self).wrapped().must_flush(),
            match r {
                None => held_up(*old(self), *final(self)),
                Some(next) => exists|frame: Stepped| #[trigger]
                    emitted(*old(self), data@, FlushKind::Free, frame, *final(self)) && next
                        == write_next::<O>(frame.status, frame.consumed as usize),
            },
    {
        match self.emit(data.as_slice(), FlushKind::Free) {
            None => None,
            Some(frame) => {
                assert(emitted(*old(self), data@, FlushKind::Free, frame@, *self));
                Some(after_write::<O>(frame.status, frame.consumed))
            },
        }
    }

    /// Has the codec put out what it holds back: with [`FlushKind::Sync`], the
    /// first step of a flush; with [`FlushKind::Free`], a later one; with
    /// [`FlushKind::Finish`], a step of a shutdown. `Done` tells that nothing came
    /// out; `None`, that what is buffered must be written out first.
    pub fn try_drain(&mut self, flush: FlushKind) -> (r: Option<ZipResult<Next<()>>>)
        requires
            old(self).wrapped().wf(),
        ensures
            final(self).wrapped().wf(),
            final(self).wrapped().writer() == old(self).wrapped().writer(),
            r is None <==> old(self).wrapped().must_flush(),
            match r {
                None => held_up(*old(self), *final(self)),
                Some(next) => exists|frame: Stepped| #[trigger]
                    emitted(*old(self), Seq::empty(), flush, frame, *final(self)) && next
                        == flush_next::<O>(frame, flush),
            },
    {
        let nothing: Vec<u8> = Vec::new();
        match self.emit(nothing.as_slice(), flush) {
            None => None,
            Some(frame) => {
                assert(nothing@ =~= Seq::<u8>::empty());
                assert(emitted(*old(self), Seq::empty(), flush, frame@, *self));
                match frame.status {
                    Status::Corrupt => {
                        let place: Place = match flush {
                            FlushKind::Sync => Place::FlushStart,
                            FlushKind::Free => Place::Flush,
                            FlushKind::Finish => Place::Shutdown,
                        };
                        Some(Err(corrupt_error::<O>(place)))
                    },
                    _ => if frame.out.len() > 0 {
                        Some(Ok(Next::Again))
                    } else {
                        Some(Ok(Next::Done(())))
                    },
                }
            },
        }
    }

    /// Takes the next step of a flush or of a shutdown, and tells how far it has got then;
    /// `None`, if what is buffered must be written out first.
    pub fn drain_next(&mut self, drain: Drain) -> (r: Option<ZipResult<Drain>>)
        requires
            old(self).wrapped().wf(),
            !(drain is Drained),
        ensures
            final(self).wrapped().wf(),
            final(self).wrapped().writer() == old(self).wrapped().writer(),
            r is None <==> old(self).wrapped().must_flush(),
            match r {
                None => held_up(*old(self), *final(self)),
                Some(next) => exists|frame: Stepped| #[trigger]
                    emitted(*old(self), Seq::empty(), drain.kind(), frame, *final(self)) && next
                        == match flush_next::<O>(frame, drain.kind()) {
                        Ok(_) => Ok::<Drain, ZipError>(drain.after(frame.out.len())),
                        Err(e) => Err(e),
                    },
            },
    {
        let flush: FlushKind = match drain {
            Drain::Sync => FlushKind::Sync,
            Drain::Free => FlushKind::Free,
            _ => FlushKind::Finish,
        };
        match self.try_drain(flush) {
            None => None,
            Some(Err(e)) => Some(Err(e)),
            Some(Ok(Next::Again)) => Some(
                Ok(
                    match drain {
                        Drain::Sync => Drain::Free,
                        _ => drain,
                    },
                ),
            ),
            Some(Ok(Next::Done(_))) => Some(
                Ok(
                    match drain {
                        Drain::Sync => Drain::Free,
                        _ => Drain::Drained,
                    },
                ),
            ),
        }
    }
}

/// What steps of a codec lead to: a failure, if and only if the codec fails. A read goes on while
/// nothing came out and there is input; a write, while nothing was taken in and the codec is not at
/// its end; a flush, while something comes out.
pub proof fn steps_lead_on<O: Ops>(
    status: Status,
    produced: nat,
    consumed: usize,
    eof: bool,
    frame: Stepped,
    flush: FlushKind,
)
    ensures
        read_next::<O>(status, produced, eof) is Err <==> status is Corrupt,
        !(status is Corrupt) ==> (read_next::<O>(status, produced, eof) == Ok::<
            Next<()>,
            ZipError,
        >(Next::Again) <==> !(status is StreamEnd) && produced == 0 && !eof),
        write_next::<O>(status, consumed) is Err <==> status is Corrupt,
        !(status is Corrupt) ==> (write_next::<O>(status, consumed) == Ok::<Next<usize>, ZipError>(
            Next::Again,
        ) <==> !(status is StreamEnd) && consumed == 0),
        write_next::<O>(status, consumed) matches Ok(Next::Done(n)) ==> n == consumed,
        flush_next::<O>(frame, flush) is Err <==> frame.status is Corrupt,
        !(frame.status is Corrupt) ==> (flush_next::<O>(frame, flush) == Ok::<Next<()>, ZipError>(
            Next::Again,
        ) <==> frame.out.len() > 0),
        read_flush(eof) is Finish <==> eof,
        read_flush(eof) is Free <==> !eof,
{
}

} // verus!
