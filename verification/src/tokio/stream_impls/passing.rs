//! What passes through a compressor in many steps.
use vstd::prelude::*;

use crate::codec::inflated;
use crate::tokio::buf_writer::BufWriter;
use crate::tokio::WrappedPin;

use super::deflate::{emitted, Ops, Writer};
use super::state::{
    compress_step, put_out, taken_in, unfailed, Compressor, Fed, FlushKind, Stepped,
};

verus! {

/// A step that goes well adds to what was taken in and to what was put out.
proof fn step_adds(before: Compressor, step: Fed, frame: Stepped, after: Compressor)
    requires
        Compressor::steps(before, step.0, step.1, step.2, frame, after),
        !(frame.status is Corrupt),
        unfailed(before.spec_level(), before@),
    ensures
        unfailed(after.spec_level(), after@),
        put_out(after.spec_level(), after@) == put_out(before.spec_level(), before@) + frame.out,
        taken_in(after.spec_level(), after@) == taken_in(before.spec_level(), before@)
            + step.0.take(frame.consumed as int),
{
    let level = before.spec_level();
    assert(after@.drop_last() =~= before@);
    assert forall|i: int| 0 <= i < after@.len() implies !(#[trigger] compress_step(
        level,
        after@.take(i),
        after@[i],
    ).status is Corrupt) by {
        assert(after@.take(i) =~= before@.take(i));
        if i == before@.len() {
            assert(before@.take(i) =~= before@);
        } else {
            assert(before@[i] == after@[i]);
        }
    }
}

/// What came out of many steps, one after the other.
pub open spec fn all_out(frames: Seq<Stepped>) -> Seq<u8>
    decreases frames.len(),
{
    if frames.len() == 0 {
        Seq::empty()
    } else {
        all_out(frames.drop_last()) + frames.last().out
    }
}

/// What went into many steps, one after the other.
pub open spec fn all_in(steps: Seq<Fed>, frames: Seq<Stepped>) -> Seq<u8>
    decreases frames.len(),
{
    if frames.len() == 0 {
        Seq::empty()
    } else {
        all_in(steps.drop_last(), frames.drop_last()) + steps.last().0.take(
            frames.last().consumed as int,
        )
    }
}

/// Whether a compressor took steps, one after the other, and none of them failed.
pub open spec fn in_turn(codecs: Seq<Compressor>, steps: Seq<Fed>, frames: Seq<Stepped>) -> bool {
    &&& codecs.len() == steps.len() + 1
    &&& frames.len() == steps.len()
    &&& forall|i: int|
        #![trigger frames[i]]
        0 <= i < frames.len() ==> !(frames[i].status is Corrupt) && Compressor::steps(
            codecs[i],
            steps[i].0,
            steps[i].1,
            steps[i].2,
            frames[i],
            codecs[i + 1],
        )
}

/// What comes out of the steps of a compressor, by which it is read from or written to, is
/// what it put out, and what goes in is what it took in.
proof fn in_turn_sums(codecs: Seq<Compressor>, steps: Seq<Fed>, frames: Seq<Stepped>)
    requires
        in_turn(codecs, steps, frames),
        codecs[0]@.len() == 0,
    ensures
        ({
            let c = codecs.last();
            &&& unfailed(c.spec_level(), c@)
            &&& c.spec_level() == codecs[0].spec_level()
            &&& all_out(frames) == put_out(c.spec_level(), c@)
            &&& all_in(steps, frames) == taken_in(c.spec_level(), c@)
        }),
    decreases frames.len(),
{
    let n = frames.len();
    if n > 0 {
        let (cs, ss, fs) = (codecs.drop_last(), steps.drop_last(), frames.drop_last());
        assert forall|i: int|
            #![trigger fs[i]]
            0 <= i < fs.len() implies !(fs[i].status is Corrupt) && Compressor::steps(
            cs[i],
            ss[i].0,
            ss[i].1,
            ss[i].2,
            fs[i],
            cs[i + 1],
        ) by {
            assert(frames[i] == fs[i]);
        }
        in_turn_sums(cs, ss, fs);
        assert(frames[n - 1] == frames.last());
        assert(cs.last() == codecs[n - 1]);
        step_adds(codecs[n - 1], steps[n - 1], frames[n - 1], codecs[n as int]);
    }
}

/// What is deflated on the way through a reader comes back: all that was read, up to the
/// end of the stream, inflates to all that was taken from the input.
pub proof fn read_deflated_inflates(codecs: Seq<Compressor>, steps: Seq<Fed>, frames: Seq<Stepped>)
    requires
        in_turn(codecs, steps, frames),
        codecs[0]@.len() == 0,
        frames.len() > 0,
        frames.last().status is StreamEnd,
    ensures
        inflated(all_out(frames)) == Some(all_in(steps, frames)),
{
    let n = frames.len();
    in_turn_sums(codecs, steps, frames);
    let (cs, ss, fs) = (codecs.drop_last(), steps.drop_last(), frames.drop_last());
    assert forall|i: int|
        #![trigger fs[i]]
        0 <= i < fs.len() implies !(fs[i].status is Corrupt) && Compressor::steps(
        cs[i],
        ss[i].0,
        ss[i].1,
        ss[i].2,
        fs[i],
        cs[i + 1],
    ) by {
        assert(frames[i] == fs[i]);
    }
    in_turn_sums(cs, ss, fs);
    assert(frames[n - 1] == frames.last());
    assert(cs.last() == codecs[n - 1]);
}

/// What a writer does: a step of its compressor, or writing out some of what is buffered.
#[verifier::ext_equal]
pub ghost enum Move {
    /// A step, with its input and how it is to flush, and what it comes to.
    Step(Seq<u8>, FlushKind, Stepped),
    /// So many bytes are written out.
    WriteOut(nat),
}

/// Whether a writer did that, and did not fail.
pub open spec fn moved<W>(
    before: Writer<Compressor, BufWriter<W>>,
    m: Move,
    after: Writer<Compressor, BufWriter<W>>,
) -> bool {
    match m {
        Move::Step(input, flush, frame) => !(frame.status is Corrupt) && emitted(
            before,
            input,
            flush,
            frame,
            after,
        ),
        Move::WriteOut(n) => {
            &&& n <= before.wrapped()@.len()
            &&& after.codec() == before.codec()
            &&& after.wrapped()@ == before.wrapped()@.skip(n as int)
        },
    }
}

/// What arrived in the wrapped stream.
pub open spec fn arrived<W>(trace: Seq<Writer<Compressor, BufWriter<W>>>, moves: Seq<Move>) -> Seq<
    u8,
>
    decreases moves.len(),
{
    if moves.len() == 0 {
        Seq::empty()
    } else {
        arrived(trace.drop_last(), moves.drop_last()) + match moves.last() {
            Move::Step(..) => Seq::empty(),
            Move::WriteOut(n) => trace[moves.len() - 1].wrapped()@.take(n as int),
        }
    }
}

/// What was taken from what was written.
pub open spec fn accepted(moves: Seq<Move>) -> Seq<u8>
    decreases moves.len(),
{
    if moves.len() == 0 {
        Seq::empty()
    } else {
        accepted(moves.drop_last()) + match moves.last() {
            Move::Step(input, _, frame) => input.take(frame.consumed as int),
            Move::WriteOut(_) => Seq::empty(),
        }
    }
}

/// Whether a writer did one thing after the other, from its start.
pub open spec fn moved_on<W>(
    trace: Seq<Writer<Compressor, BufWriter<W>>>,
    moves: Seq<Move>,
) -> bool {
    &&& trace.len() == moves.len() + 1
    &&& trace[0].codec()@.len() == 0
    &&& trace[0].wrapped()@.len() == 0
    &&& forall|i: int|
        #![trigger moves[i]]
        0 <= i < moves.len() ==> moved(trace[i], moves[i], trace[i + 1])
}

/// All that reaches the stream behind a writer, with what is buffered, is what its
/// compressor put out, and that has taken in all that was accepted.
pub proof fn what_arrives_was_put_out<W>(
    trace: Seq<Writer<Compressor, BufWriter<W>>>,
    moves: Seq<Move>,
)
    requires
        moved_on(trace, moves),
    ensures
        ({
            let c = trace.last().codec();
            &&& arrived(trace, moves) + trace.last().wrapped()@ == put_out(c.spec_level(), c@)
            &&& accepted(moves) == taken_in(c.spec_level(), c@)
            &&& unfailed(c.spec_level(), c@)
        }),
    decreases moves.len(),
{
    let n = moves.len();
    let c = trace.last().codec();
    if n == 0 {
        assert(arrived(trace, moves) + trace.last().wrapped()@ =~= put_out(c.spec_level(), c@));
    } else {
        let (ts, ms) = (trace.drop_last(), moves.drop_last());
        assert forall|i: int|
            #![trigger ms[i]]
            0 <= i < ms.len() implies moved(ts[i], ms[i], ts[i + 1]) by {
            assert(moves[i] == ms[i]);
        }
        what_arrives_was_put_out(ts, ms);
        assert(ts.last() == trace[n - 1]);
        assert(moves[n - 1] == moves.last());
        let before = trace[n - 1];
        match moves.last() {
            Move::Step(input, flush, frame) => {
                let room = before.wrapped().next_room();
                step_adds(before.codec(), (input, room, flush), frame, c);
                assert(arrived(trace, moves) + trace.last().wrapped()@ =~= arrived(ts, ms)
                    + before.wrapped()@ + frame.out);
            },
            Move::WriteOut(k) => {
                assert(arrived(trace, moves) + trace.last().wrapped()@ =~= arrived(ts, ms)
                    + before.wrapped()@);
                assert(accepted(moves) =~= accepted(ms));
            },
        }
    }
}

/// What is deflated on the way through a writer comes back: once the compressor tells of
/// the end of the stream, what has arrived and what is buffered inflate to all that was
/// accepted.
pub proof fn written_deflated_inflates<W>(
    trace: Seq<Writer<Compressor, BufWriter<W>>>,
    moves: Seq<Move>,
)
    requires
        moved_on(trace, moves),
        moves.len() > 0,
        moves.last() matches Move::Step(_, _, frame) && frame.status is StreamEnd,
    ensures
        inflated(arrived(trace, moves) + trace.last().wrapped()@) == Some(accepted(moves)),
{
    let n = moves.len();
    let (ts, ms) = (trace.drop_last(), moves.drop_last());
    assert forall|i: int|
        #![trigger ms[i]]
        0 <= i < ms.len() implies moved(ts[i], ms[i], ts[i + 1]) by {
        assert(moves[i] == ms[i]);
    }
    what_arrives_was_put_out(ts, ms);
    what_arrives_was_put_out(trace, moves);
    assert(ts.last() == trace[n - 1]);
    assert(moves[n - 1] == moves.last());
}

} // verus!
