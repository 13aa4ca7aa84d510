//! What comes out of a Deflate compressor behind which there is a buffer.
use vstd::prelude::*;

use crate::codec::inflate_outcome;
use crate::encoder::Given;
use crate::result::{ErrorKind, ZipError};
use crate::stream::{extended_twice, Cursor};
use crate::tokio::buf_writer::{BufWriter, NonEmptyReadSlice, DEFAULT_BUF_SIZE};
use crate::tokio::stream_impls::deflate::{
    emitted, flush_next, write_next, Compressor, Drain, Fed, FlushKind, Next, Stepped, Writer,
};
use crate::tokio::stream_impls::state::{
    compress_step, ending, put_out, taken_in, unended, unfailed,
};
use crate::tokio::WrappedPin;

verus! {

/// A compressor with a buffer behind it.
#[verifier::ext_equal]
pub ghost struct Outflow {
    /// The level of compression.
    pub level: u32,
    /// The steps that the compressor has taken.
    pub steps: Seq<Fed>,
    /// What is in the buffer.
    pub held: Seq<u8>,
    /// How much more the buffer can take in before it is written out.
    pub room: nat,
    /// What was written out of late.
    pub gone: Seq<u8>,
}

/// What a compressor is at.
#[verifier::ext_equal]
pub ghost enum Task {
    /// Taking in this.
    Take(Seq<u8>),
    /// Putting out what it holds back.
    Drain(Drain),
}

impl Task {
    /// Whether it is done.
    pub open spec fn done(self) -> bool {
        match self {
            Task::Take(left) => left.len() == 0,
            Task::Drain(drain) => drain is Drained,
        }
    }

    /// What a step towards it is given.
    pub open spec fn input(self) -> Seq<u8> {
        match self {
            Task::Take(left) => left,
            Task::Drain(_) => Seq::empty(),
        }
    }

    /// How a step towards it is to flush.
    pub open spec fn flush(self) -> FlushKind {
        match self {
            Task::Take(_) => FlushKind::Free,
            Task::Drain(drain) => drain.kind(),
        }
    }

    /// What is left to do after a step.
    pub open spec fn after(self, s: Stepped) -> Task {
        match self {
            Task::Take(left) => Task::Take(left.skip(s.consumed as int)),
            Task::Drain(drain) => Task::Drain(drain.after(s.out.len())),
        }
    }
}

impl Outflow {
    /// One that has taken no step.
    pub open spec fn fresh(level: u32) -> Outflow {
        Outflow {
            level,
            steps: Seq::empty(),
            held: Seq::empty(),
            room: DEFAULT_BUF_SIZE as nat,
            gone: Seq::empty(),
        }
    }

    /// This with all that is in the buffer written out.
    pub open spec fn written_out(self) -> Outflow {
        Outflow { held: Seq::empty(), gone: self.gone + self.held, ..self }
    }

    /// This with room in the buffer.
    pub open spec fn with_room(self) -> Outflow {
        if self.room > 0 {
            self
        } else {
            Outflow { room: DEFAULT_BUF_SIZE as nat, ..self.written_out() }
        }
    }

    /// What a step of the compressor comes to.
    pub open spec fn stepped(self, input: Seq<u8>, flush: FlushKind) -> Stepped {
        compress_step(self.level, self.steps, (input, self.with_room().room, flush))
    }

    /// This after a step of the compressor.
    pub open spec fn after(self, input: Seq<u8>, flush: FlushKind) -> Outflow {
        let f = self.with_room();
        let s = self.stepped(input, flush);
        Outflow {
            steps: self.steps.push((input, f.room, flush)),
            held: f.held + s.out,
            room: (f.room - s.out.len()) as nat,
            ..f
        }
    }

    /// This after so many steps towards something, with what is left of it.
    pub open spec fn run(self, task: Task, n: nat) -> (Outflow, Task)
        decreases n,
    {
        if n == 0 {
            (self, task)
        } else {
            let (f, t) = self.run(task, (n - 1) as nat);
            if t.done() {
                (f, t)
            } else {
                (f.after(t.input(), t.flush()), t.after(f.stepped(t.input(), t.flush())))
            }
        }
    }

    /// This once something is done.
    pub open spec fn having(self, task: Task) -> Outflow {
        self.run(task, choose|n: nat| (#[trigger] self.run(task, n)).1.done()).0
    }

    /// This with nothing written out of late.
    pub open spec fn anew(self) -> Outflow {
        Outflow { gone: Seq::empty(), ..self }
    }

    /// This after more was given.
    pub open spec fn given(self, more: Given) -> Outflow {
        match more {
            Given::Contents(data) => self.anew().having(Task::Take(data)),
            Given::Flush => self.anew().having(Task::Drain(Drain::Sync)).written_out(),
        }
    }

    /// This after the end.
    pub open spec fn finished(self) -> Outflow {
        self.anew().having(Task::Drain(Drain::Finish)).written_out()
    }

    /// What becomes of a compressor of the given level that is given all this.
    pub open spec fn of(level: u32, given: Seq<Given>) -> Outflow
        decreases given.len(),
    {
        if given.len() == 0 {
            Outflow::fresh(level)
        } else {
            Outflow::of(level, given.drop_last()).given(given.last())
        }
    }
}

/// What is done stays done.
proof fn run_stays(f: Outflow, task: Task, k: nat, n: nat)
    requires
        k <= n,
        f.run(task, k).1.done(),
    ensures
        f.run(task, n) == f.run(task, k),
    decreases n,
{
    if k < n {
        run_stays(f, task, k, (n - 1) as nat);
    }
}

/// Where something is done after so many steps, that is what comes of it.
proof fn run_done(f: Outflow, task: Task, n: nat)
    requires
        f.run(task, n).1.done(),
    ensures
        f.having(task) == f.run(task, n).0,
{
    let k = choose|k: nat| (#[trigger] f.run(task, k)).1.done();
    if k <= n {
        run_stays(f, task, k, n);
    } else {
        run_stays(f, task, n, k);
    }
}

/// What was put out is what was written out since the start and what is in the buffer.
pub open spec fn balanced(f: Outflow, written: Seq<u8>) -> bool {
    put_out(f.level, f.steps) == written + f.held
}

impl Writer<Compressor, BufWriter<Cursor>> {
    /// How far this has got.
    pub open spec fn outflow(&self) -> Outflow {
        Outflow {
            level: self.codec().spec_level(),
            steps: self.codec()@,
            held: self.wrapped()@,
            room: self.wrapped().room(),
            gone: Seq::empty(),
        }
    }

    /// Whether the parts fit together, and all went well.
    pub open spec fn flowing(&self) -> bool {
        &&& self.wrapped().wf()
        &&& self.wrapped().spec_capacity() == DEFAULT_BUF_SIZE
        &&& unfailed(self.outflow().level, self.outflow().steps)
    }

    /// Whether a step led from one state to another, and went well.
    spec fn took(before: Self, input: Seq<u8>, flush: FlushKind, after: Self) -> bool {
        let f = before.outflow();
        let g = f.after(input, flush);
        let s = f.stepped(input, flush);
        &&& after.flowing()
        &&& after.outflow() == g.anew()
        &&& after.wrapped().writer()@ == before.wrapped().writer()@.extended(g.gone)
        &&& s.within(input.len(), f.with_room().room)
        &&& s.consumed == input.len() || s.out.len() > 0 || flush is Finish
        &&& flush is Finish && s.out.len() == 0 ==> inflate_outcome(
            put_out(g.level, g.steps),
        ) == (taken_in(g.level, g.steps), None::<ErrorKind>)
        &&& put_out(g.level, g.steps) == put_out(f.level, f.steps) + s.out
        &&& taken_in(g.level, g.steps) == taken_in(f.level, f.steps) + input.take(s.consumed as int)
        &&& unended(f.steps) && !(flush is Finish) ==> unended(g.steps)
        &&& ending(f.steps) && flush is Finish ==> ending(g.steps)
    }

    /// Where there is room, a step goes well.
    proof fn takes(before: Self, input: Seq<u8>, flush: FlushKind, frame: Stepped, after: Self)
        requires
            before.flowing(),
            !before.wrapped().must_flush(),
            emitted(before, input, flush, frame, after),
            after.wrapped().wf(),
            after.wrapped().writer() == before.wrapped().writer(),
            flush is Finish ==> ending(before.outflow().steps) && input.len() == 0,
            !(flush is Finish) ==> unended(before.outflow().steps),
        ensures
            Self::took(before, input, flush, after),
            frame == before.outflow().stepped(input, flush),
            !(frame.status is Corrupt),
            !(flush is Finish) ==> !(frame.status is StreamEnd),
    {
        let f = before.outflow();
        let g = f.after(input, flush);
        before.wrapped().fits();
        assert(f.with_room().room == before.wrapped().next_room());
        assert(g.steps.drop_last() =~= f.steps);
        assert(f.gone + f.held =~= f.held);
        assert(after.outflow() =~= g.anew());
        assert(g.gone =~= Seq::empty());
        assert(unfailed(g.level, g.steps)) by {
            assert forall|i: int| 0 <= i < g.steps.len() implies !(#[trigger] compress_step(
                g.level,
                g.steps.take(i),
                g.steps[i],
            ).status is Corrupt) by {
                assert(g.steps.take(i) =~= f.steps.take(i));
                if i == f.steps.len() {
                    assert(f.steps.take(i) =~= f.steps);
                } else {
                    assert(f.steps[i] == g.steps[i]);
                }
            }
        }
    }

    /// A step after what is in the buffer was written out is the step that is taken where
    /// there is no room.
    proof fn takes_after_flush(before: Self, cleared: Self, input: Seq<u8>, flush: FlushKind, after:
        Self)
        requires
            before.wrapped().wf(),
            before.wrapped().must_flush(),
            cleared.codec() == before.codec(),
            cleared.wrapped()@.len() == 0,
            cleared.wrapped().room() == 0,
            cleared.wrapped().writer()@ == before.wrapped().arrived(),
            Self::took(cleared, input, flush, after),
        ensures
            Self::took(before, input, flush, after),
            cleared.outflow().stepped(input, flush) == before.outflow().stepped(input, flush),
    {
        let f = before.outflow();
        let c = cleared.outflow();
        assert(c.with_room().room == f.with_room().room);
        assert(f.with_room().held =~= c.with_room().held);
        assert(c.with_room().gone =~= Seq::empty());
        assert(f.with_room().gone =~= f.held);
        let s = f.stepped(input, flush);
        assert(c.after(input, flush).anew() =~= f.after(input, flush).anew());
    }

    /// Takes in of the data, and returns how much.
    fn take_step(&mut self, data: NonEmptyReadSlice<'_, u8>) -> (r: usize)
        requires
            old(self).flowing(),
            unended(old(self).outflow().steps),
        ensures
            Self::took(*old(self), data@, FlushKind::Free, *final(self)),
            r == old(self).outflow().stepped(data@, FlushKind::Free).consumed,
    {
        let ghost before = *self;
        let len: usize = data.len();
        assert(len == data@.len());
        let next = match self.try_write(data) {
            Some(next) => {
                proof {
                    let frame = choose|frame: Stepped|
                        #![trigger emitted(before, data@, FlushKind::Free, frame, *self)]
                        emitted(before, data@, FlushKind::Free, frame, *self) && next
                            == write_next::<Compressor>(
                            frame.status,
                            frame.consumed as usize,
                        );
                    Self::takes(before, data@, FlushKind::Free, frame, *self);
                }
                next
            },
            None => {
                self.get_mut().flush();
                let ghost cleared = *self;
                match self.try_write(data) {
                    Some(next) => {
                        proof {
                            let frame = choose|frame: Stepped|
                                #![trigger emitted(cleared, data@, FlushKind::Free, frame, *self)]
                                emitted(cleared, data@, FlushKind::Free, frame, *self) && next
                                    == write_next::<
                                    Compressor,
                                >(frame.status, frame.consumed as usize);
                            Self::takes(cleared, data@, FlushKind::Free, frame, *self);
                            Self::takes_after_flush(
                                before,
                                cleared,
                                data@,
                                FlushKind::Free,
                                *self,
                            );
                        }
                        next
                    },
                    None => vstd::pervasive::unreached(),
                }
            },
        };
        match next {
            Ok(Next::Done(n)) => n,
            Ok(Next::Again) => 0,
            Err(_) => vstd::pervasive::unreached(),
        }
    }

    /// Takes a step of a flush or of a shutdown, and returns how far it has got then.
    fn drain_step(&mut self, drain: Drain) -> (r: Drain)
        requires
            old(self).flowing(),
            drain is Finish ==> ending(old(self).outflow().steps),
            !(drain is Finish) ==> unended(old(self).outflow().steps),
            !(drain is Drained),
        ensures
            Self::took(*old(self), Seq::empty(), drain.kind(), *final(self)),
            r == drain.after(old(self).outflow().stepped(Seq::empty(), drain.kind()).out.len()),
    {
        let ghost before = *self;
        let ghost kind = drain.kind();
        let next = match self.drain_next(drain) {
            Some(next) => {
                proof {
                    let frame = choose|frame: Stepped|
                        #![trigger emitted(before, Seq::empty(), kind, frame, *self)]
                        emitted(before, Seq::empty(), kind, frame, *self) && next
                            == match flush_next::<Compressor>(frame, kind) {
                            Ok(_) => Ok::<Drain, ZipError>(drain.after(frame.out.len())),
                            Err(e) => Err(e),
                        };
                    Self::takes(before, Seq::empty(), kind, frame, *self);
                }
                next
            },
            None => {
                self.get_mut().flush();
                let ghost cleared = *self;
                match self.drain_next(drain) {
                    Some(next) => {
                        proof {
                            let frame = choose|frame: Stepped|
                                #![trigger emitted(cleared, Seq::empty(), kind, frame, *self)]
                                emitted(cleared, Seq::empty(), kind, frame, *self) && next
                                    == match flush_next::<Compressor>(frame, kind) {
                                    Ok(_) => Ok::<Drain, ZipError>(drain.after(frame.out.len())),
                                    Err(e) => Err(e),
                                };
                            Self::takes(cleared, Seq::empty(), kind, frame, *self);
                            Self::takes_after_flush(before, cleared, Seq::empty(), kind, *self);
                        }
                        next
                    },
                    None => vstd::pervasive::unreached(),
                }
            },
        };
        match next {
            Ok(drain) => drain,
            Err(_) => vstd::pervasive::unreached(),
        }
    }

    /// Whether so many steps towards something led from one state to another, with so much
    /// written out, all of which is in the stream.
    spec fn ran(before: Self, task: Task, n: nat, gone: Seq<u8>, left: Task, now: Self) -> bool {
        let f = before.outflow();
        let g = Outflow { gone, ..now.outflow() };
        &&& now.flowing()
        &&& f.run(task, n) == (g, left)
        &&& now.wrapped().writer()@ == before.wrapped().writer()@.extended(gone)
        &&& forall|written: Seq<u8>| #[trigger]
            balanced(f, written) ==> balanced(g, written + gone)
        &&& taken_in(f.level, f.steps) + task.input() == taken_in(g.level, g.steps) + left.input()
        &&& f.level == g.level
    }

    /// One more step.
    proof fn ran_on(before: Self, task: Task, n: nat, gone: Seq<u8>, left: Task, now: Self, next:
        Self) -> (all: Seq<u8>)
        requires
            Self::ran(before, task, n, gone, left, now),
            !left.done(),
            Self::took(now, left.input(), left.flush(), next),
            now.wrapped().wf(),
        ensures
            Self::ran(
                before,
                task,
                n + 1,
                all,
                left.after(now.outflow().stepped(left.input(), left.flush())),
                next,
            ),
            next.wrapped().writer()@.pos + next.wrapped()@.len() == now.wrapped().writer()@.pos
                + now.wrapped()@.len() + now.outflow().stepped(
                left.input(),
                left.flush(),
            ).out.len(),
    {
        let f = before.outflow();
        let (input, flush) = (left.input(), left.flush());
        let g = Outflow { gone, ..now.outflow() };
        let h = now.outflow().after(input, flush);
        let s = now.outflow().stepped(input, flush);
        let all = gone + h.gone;
        let after = left.after(s);
        assert(g.after(input, flush) =~= Outflow { gone: all, ..next.outflow() });
        assert(f.run(task, n + 1) == (g.after(input, flush), after));
        extended_twice(before.wrapped().writer()@, gone, h.gone);
        assert(h.gone + h.held =~= now.outflow().held + s.out);
        assert forall|written: Seq<u8>| #[trigger] balanced(f, written) implies balanced(
            Outflow { gone: all, ..next.outflow() },
            written + all,
        ) by {
            assert(balanced(g, written + gone));
            assert((written + gone + g.held) + s.out =~= written + all + h.held);
        }
        assert(input =~= input.take(s.consumed as int) + after.input()) by {
            if left is Drain {
                assert(input.take(s.consumed as int) =~= Seq::empty());
            }
        }
        assert(taken_in(g.level, g.steps) + input =~= taken_in(h.level, h.steps) + after.input());
        all
    }

    /// Nothing was done yet.
    proof fn ran_none(before: Self, task: Task)
        requires
            before.flowing(),
        ensures
            Self::ran(before, task, 0, Seq::empty(), task, before),
    {
        let f = before.outflow();
        assert(Outflow { gone: Seq::empty(), ..f } =~= f);
        assert forall|written: Seq<u8>| #[trigger] balanced(f, written) implies balanced(
            f,
            written + Seq::empty(),
        ) by {
            assert(written + Seq::empty() =~= written);
        }
    }

    /// Compresses all of the data.
    pub fn take_in(&mut self, data: &[u8])
        requires
            old(self).flowing(),
            unended(old(self).outflow().steps),
        ensures
            final(self).went(*old(self), old(self).outflow().given(Given::Contents(data@))),
            unended(final(self).outflow().steps),
            taken_in(final(self).outflow().level, final(self).outflow().steps) == taken_in(
                old(self).outflow().level,
                old(self).outflow().steps,
            ) + data@,
    {
        let ghost before = *self;
        let ghost task = Task::Take(data@);
        let ghost mut n: nat = 0;
        let ghost mut gone: Seq<u8> = Seq::empty();
        let mut done: usize = 0;
        proof {
            Self::ran_none(before, task);
            self.wrapped().writer().fits();
            self.wrapped().fits();
            assert(data@.skip(0) =~= data@);
        }
        while done < data.len()
            invariant
                done <= data@.len() == data.len(),
                task == Task::Take(data@),
                Self::ran(before, task, n, gone, Task::Take(data@.skip(done as int)), *self),
                unended(self.outflow().steps),
                self.wrapped().writer()@.pos + self.wrapped()@.len() <= u64::MAX + DEFAULT_BUF_SIZE,
            decreases
                    u64::MAX + DEFAULT_BUF_SIZE - (self.wrapped().writer()@.pos
                        + self.wrapped()@.len()),
                    data.len() - done,
        {
            let ghost now = *self;
            let ghost left = Task::Take(data@.skip(done as int));
            let rest = vstd::slice::slice_subrange(data, done, data.len());
            assert(rest@ =~= left.input());
            let some = match NonEmptyReadSlice::new(rest) {
                Some(some) => some,
                None => vstd::pervasive::unreached(),
            };
            let taken: usize = self.take_step(some);
            proof {
                gone = Self::ran_on(before, task, n, gone, left, now, *self);
                n = n + 1;
                self.wrapped().writer().fits();
                self.wrapped().fits();
                assert(left.input().skip(taken as int) =~= data@.skip(done + taken));
            }
            done = done + taken;
        }
        proof {
            run_done(before.outflow(), task, n);
            assert(before.outflow().anew() =~= before.outflow());
            let g = Outflow { gone, ..self.outflow() };
            assert(self.outflow() =~= g.anew());
            assert(taken_in(g.level, g.steps) + data@.skip(done as int) =~= taken_in(
                g.level,
                g.steps,
            ));
        }
    }

    /// Whether this came to be, from what was before.
    pub open spec fn went(&self, before: Self, f: Outflow) -> bool {
        &&& self.flowing()
        &&& self.outflow() == f.anew()
        &&& f.level == before.outflow().level
        &&& self.wrapped().writer()@ == before.wrapped().writer()@.extended(f.gone)
        &&& forall|written: Seq<u8>| #[trigger]
            balanced(before.outflow(), written) ==> balanced(f, written + f.gone)
    }

    /// Takes the steps of a flush or of a shutdown, and writes out what is in the buffer.
    fn drain(&mut self, first: Drain)
        requires
            old(self).flowing(),
            first is Finish ==> ending(old(self).outflow().steps),
            !(first is Finish) ==> unended(old(self).outflow().steps),
            !(first is Drained),
        ensures
            final(self).went(
                *old(self),
                old(self).outflow().anew().having(Task::Drain(first)).written_out(),
            ),
            !(first is Finish) ==> unended(final(self).outflow().steps),
            taken_in(final(self).outflow().level, final(self).outflow().steps) == taken_in(
                old(self).outflow().level,
                old(self).outflow().steps,
            ),
            first is Finish ==> inflate_outcome(
                put_out(final(self).outflow().level, final(self).outflow().steps),
            ) == (
                taken_in(final(self).outflow().level, final(self).outflow().steps),
                None::<ErrorKind>,
            ),
    {
        let ghost before = *self;
        let ghost task = Task::Drain(first);
        let ghost mut n: nat = 0;
        let ghost mut gone: Seq<u8> = Seq::empty();
        let mut drain: Drain = first;
        proof {
            Self::ran_none(before, task);
            self.wrapped().writer().fits();
            self.wrapped().fits();
        }
        loop
            invariant_except_break
                !(drain is Drained),
            invariant
                task == Task::Drain(first),
                Self::ran(before, task, n, gone, Task::Drain(drain), *self),
                first is Finish ==> ending(self.outflow().steps) && (drain is Finish || drain
                    is Drained),
                !(first is Finish) ==> unended(self.outflow().steps) && !(drain is Finish),
                first is Finish && drain is Drained ==> inflate_outcome(
                    put_out(self.outflow().level, self.outflow().steps),
                ) == (taken_in(self.outflow().level, self.outflow().steps), None::<ErrorKind>),
                self.wrapped().writer()@.pos + self.wrapped()@.len() <= u64::MAX + DEFAULT_BUF_SIZE,
            ensures
                drain is Drained,
            decreases
                    u64::MAX + DEFAULT_BUF_SIZE - (self.wrapped().writer()@.pos
                        + self.wrapped()@.len()),
                    if drain is Sync {
                        1int
                    } else {
                        0
                    },
        {
            let ghost now = *self;
            let ghost left = Task::Drain(drain);
            let ghost was = drain;
            drain = self.drain_step(drain);
            proof {
                gone = Self::ran_on(before, task, n, gone, left, now, *self);
                n = n + 1;
                self.wrapped().writer().fits();
                self.wrapped().fits();
            }
            match drain {
                Drain::Drained => {
                    break;
                },
                _ => {},
            }
        }
        let ghost now = *self;
        self.get_mut().flush();
        proof {
            run_done(before.outflow(), task, n);
            assert(before.outflow().anew() =~= before.outflow());
            let g = Outflow { gone, ..now.outflow() };
            let f = g.written_out();
            assert(self.outflow() =~= f.anew());
            extended_twice(before.wrapped().writer()@, gone, now.wrapped()@);
            assert forall|written: Seq<u8>| #[trigger]
                balanced(before.outflow(), written) implies balanced(f, written + f.gone) by {
                assert(balanced(g, written + gone));
                assert(written + gone + g.held =~= written + f.gone + f.held);
            }
            let t = taken_in(g.level, g.steps);
            assert(t + Seq::<u8>::empty() =~= t);
            let t0 = taken_in(before.outflow().level, before.outflow().steps);
            assert(t0 + Seq::<u8>::empty() =~= t0);
        }
    }

    /// Puts all that is held back into the stream.
    pub fn flush_out(&mut self)
        requires
            old(self).flowing(),
            unended(old(self).outflow().steps),
        ensures
            final(self).went(*old(self), old(self).outflow().given(Given::Flush)),
            unended(final(self).outflow().steps),
            taken_in(final(self).outflow().level, final(self).outflow().steps) == taken_in(
                old(self).outflow().level,
                old(self).outflow().steps,
            ),
    {
        self.drain(Drain::Sync)
    }

    /// Ends the compression, and puts all that is held back into the stream. A decoder gets
    /// all that was taken in back out of all that was put out.
    pub fn finish_out(&mut self)
        requires
            old(self).flowing(),
            unended(old(self).outflow().steps),
        ensures
            final(self).went(*old(self), old(self).outflow().finished()),
            taken_in(final(self).outflow().level, final(self).outflow().steps) == taken_in(
                old(self).outflow().level,
                old(self).outflow().steps,
            ),
            inflate_outcome(
                put_out(final(self).outflow().level, final(self).outflow().steps),
            ) == (
                taken_in(final(self).outflow().level, final(self).outflow().steps),
                None::<ErrorKind>,
            ),
    {
        self.drain(Drain::Finish)
    }
}

/// What steps towards something have been taken comes after those that were taken before.
proof fn run_goes_on(f: Outflow, task: Task, n: nat)
    ensures
        f.steps.is_prefix_of(f.run(task, n).0.steps),
        n > 0 && !task.done() ==> f.run(task, n).0.steps.len() > f.steps.len() && f.run(
            task,
            n,
        ).0.steps[f.steps.len() as int].2 == task.flush() && f.run(
            task,
            n,
        ).0.steps[f.steps.len() as int].0 == task.input(),
        f.run(task, n).0.level == f.level,
    decreases n,
{
    if n > 0 {
        run_goes_on(f, task, (n - 1) as nat);
        if n == 1 {
            assert(f.run(task, 0) == (f, task));
        }
    }
}

/// A flush asks the compressor for all that it can give out, up to a byte boundary, and leaves
/// nothing in the buffer. The end asks it for all.
pub proof fn flush_asks_for_all(f: Outflow)
    requires
        exists|n: nat| (#[trigger] f.anew().run(Task::Drain(Drain::Sync), n)).1.done(),
        exists|n: nat| (#[trigger] f.anew().run(Task::Drain(Drain::Finish), n)).1.done(),
    ensures
        f.given(Given::Flush).held.len() == 0,
        f.given(Given::Flush).steps.len() > f.steps.len(),
        f.steps.is_prefix_of(f.given(Given::Flush).steps),
        f.given(Given::Flush).steps[f.steps.len() as int].2 is Sync,
        f.finished().held.len() == 0,
        f.finished().steps.len() > f.steps.len(),
        f.steps.is_prefix_of(f.finished().steps),
        f.finished().steps[f.steps.len() as int].2 is Finish,
{
    let sync = Task::Drain(Drain::Sync);
    let end = Task::Drain(Drain::Finish);
    let g = f.anew();
    let n = choose|n: nat| (#[trigger] g.run(sync, n)).1.done();
    let m = choose|n: nat| (#[trigger] g.run(end, n)).1.done();
    run_goes_on(g, sync, n);
    run_goes_on(g, end, m);
    assert(g.run(sync, 0) == (g, sync));
    assert(g.run(end, 0) == (g, end));
}

} // verus!
