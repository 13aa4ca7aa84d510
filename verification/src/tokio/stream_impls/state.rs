//! The Deflate codecs, each with the steps that it has taken.
//!
//! Nothing but the functions here that make and use a codec has a hand in what it keeps of its
//! steps.
use flate2::{Compress, Decompress};
use vstd::prelude::*;

use crate::codec::{inflate_outcome, inflated};
use crate::result::ErrorKind;

verus! {

/// A Deflate compressor at work.
#[verifier::external_type_specification]
#[verifier::external_body]
pub struct ExCompress(Compress);

/// A Deflate decompressor at work.
#[verifier::external_type_specification]
#[verifier::external_body]
pub struct ExDecompress(Decompress);

/// How much a codec is to give out.
#[derive(Debug, Clone, Copy, PartialEq, Eq, Structural)]
pub enum FlushKind {
    /// As much as it likes.
    Free,
    /// All that it can, up to a byte boundary.
    Sync,
    /// All, as nothing more will come.
    Finish,
}

/// What a codec says of a step.
#[derive(Debug, Clone, Copy, PartialEq, Eq, Structural)]
pub enum Status {
    /// It went on.
    Advanced,
    /// It could not go on, for lack of input or of room.
    BufError,
    /// It is at its end.
    StreamEnd,
    /// The data is not what it should be.
    Corrupt,
}

/// How many bytes went into a codec and came out of it, before and after a step.
#[derive(Debug, Clone, Copy)]
pub struct Totals {
    pub in_before: u64,
    pub out_before: u64,
    pub in_after: u64,
    pub out_after: u64,
}

impl Totals {
    /// Whether no more went in than there was, and no more came out than there
    /// was room for.
    pub open spec fn within(self, input: nat, room: nat) -> bool {
        &&& self.in_before <= self.in_after <= self.in_before + input
        &&& self.out_before <= self.out_after <= self.out_before + room
    }
}

/// The mathematical view of a step.
#[verifier::ext_equal]
pub ghost struct Stepped {
    pub status: Status,
    pub consumed: nat,
    pub out: Seq<u8>,
}

impl Stepped {
    /// Whether no more went in than there was, and no more came out than there
    /// was room for.
    pub open spec fn within(self, input: nat, room: nat) -> bool {
        self.consumed <= input && self.out.len() <= room
    }

    /// What a step came to, given the totals before and after, and the output that
    /// there was room for.
    pub open spec fn of(status: Status, totals: Totals, output: Seq<u8>) -> Stepped {
        Stepped {
            status,
            consumed: (totals.in_after - totals.in_before) as nat,
            out: output.take(totals.out_after - totals.out_before),
        }
    }
}

/// What a step of a codec got: its input, the room for its output, and how it was
/// to flush.
pub type Fed = (Seq<u8>, nat, FlushKind);

/// What a step of a compressor of the given level comes to, after those steps that
/// it has taken.
pub uninterp spec fn compress_step(level: u32, steps: Seq<Fed>, step: Fed) -> Stepped;

/// What a step of a decompressor comes to, after those steps that it has taken.
pub uninterp spec fn decompress_step(steps: Seq<Fed>, step: Fed) -> Stepped;

/// All that a compressor took in.
pub open spec fn taken_in(level: u32, steps: Seq<Fed>) -> Seq<u8>
    decreases steps.len(),
{
    if steps.len() == 0 {
        Seq::empty()
    } else {
        let before = steps.drop_last();
        let consumed = compress_step(level, before, steps.last()).consumed;
        taken_in(level, before) + steps.last().0.take(consumed as int)
    }
}

/// All that a compressor put out.
pub open spec fn put_out(level: u32, steps: Seq<Fed>) -> Seq<u8>
    decreases steps.len(),
{
    if steps.len() == 0 {
        Seq::empty()
    } else {
        let before = steps.drop_last();
        put_out(level, before) + compress_step(level, before, steps.last()).out
    }
}

/// Whether no step of a compressor failed.
pub open spec fn unfailed(level: u32, steps: Seq<Fed>) -> bool {
    forall|i: int|
        0 <= i < steps.len() ==> !(#[trigger] compress_step(
            level,
            steps.take(i),
            steps[i],
        ).status is Corrupt)
}

/// Whether a compressor was not told yet that nothing more will come.
pub open spec fn unended(steps: Seq<Fed>) -> bool {
    forall|i: int| 0 <= i < steps.len() ==> !((#[trigger] steps[i]).2 is Finish)
}

/// Whether a compressor that was told that nothing more will come was told so ever since.
pub open spec fn ending(steps: Seq<Fed>) -> bool {
    forall|i: int, j: int|
        0 <= i <= j < steps.len() && (#[trigger] steps[i]).2 is Finish ==> (#[trigger] steps[j]).2
            is Finish
}

/// Whether a step of a compressor came to what it does where all went well before: it does
/// not fail; unless nothing more is to come, it takes in all of its input or fills the room
/// for its output; where nothing more is to come, it fills the room or is at the end.
pub open spec fn goes_well(steps: Seq<Fed>, step: Fed, stepped: Stepped) -> bool {
    &&& step.1 > 0 && !(step.2 is Finish) && unended(steps) ==> {
        &&& stepped.status is Advanced || stepped.status is BufError
        &&& stepped.consumed == step.0.len() || stepped.out.len() == step.1
    }
    &&& step.1 > 0 && step.2 is Finish && step.0.len() == 0 && ending(steps) ==> {
        &&& !(stepped.status is Corrupt)
        &&& stepped.status is StreamEnd || stepped.out.len() == step.1
    }
}

/// All that a decompressor took in.
pub open spec fn inflated_in(steps: Seq<Fed>) -> Seq<u8>
    decreases steps.len(),
{
    if steps.len() == 0 {
        Seq::empty()
    } else {
        let before = steps.drop_last();
        let consumed = decompress_step(before, steps.last()).consumed;
        inflated_in(before) + steps.last().0.take(consumed as int)
    }
}

/// All that a decompressor put out.
pub open spec fn inflated_out(steps: Seq<Fed>) -> Seq<u8>
    decreases steps.len(),
{
    if steps.len() == 0 {
        Seq::empty()
    } else {
        let before = steps.drop_last();
        inflated_out(before) + decompress_step(before, steps.last()).out
    }
}

/// Whether no step of a decompressor failed.
pub open spec fn unbroken(steps: Seq<Fed>) -> bool {
    forall|i: int|
        0 <= i < steps.len() ==> !(#[trigger] decompress_step(
            steps.take(i),
            steps[i],
        ).status is Corrupt)
}

/// A Deflate compressor. What it comes to is told by its level and the steps that it
/// has taken.
pub struct Compressor {
    state: Compress,
    level: Ghost<u32>,
    steps: Ghost<Seq<Fed>>,
}

/// A Deflate decompressor. What it comes to is told by the steps that it has taken.
pub struct Decompressor {
    state: Decompress,
    steps: Ghost<Seq<Fed>>,
}

impl Compressor {
    /// The steps that were taken.
    pub closed spec fn view(&self) -> Seq<Fed> {
        self.steps@
    }

    /// The level.
    pub closed spec fn spec_level(&self) -> u32 {
        self.level@
    }
}

impl Decompressor {
    /// The steps that were taken.
    pub closed spec fn view(&self) -> Seq<Fed> {
        self.steps@
    }
}

/// `flate2::Compress::new`, for a stream without a header: a compressor of the given
/// level that has taken no step.
#[verifier::external_body]
pub(crate) fn new_compressor(level: u32) -> (r: Compressor)
    requires
        level <= 9,
    ensures
        r.spec_level() == level,
        r@ == Seq::<Fed>::empty(),
{
    let state = Compress::new(flate2::Compression::new(level), false);
    Compressor { state, level: Ghost(level), steps: Ghost(Seq::empty()) }
}

/// `flate2::Decompress::new`, for a stream without a header: a decompressor that has
/// taken no step.
#[verifier::external_body]
pub(crate) fn new_decompressor() -> (r: Decompressor)
    ensures
        r@ == Seq::<Fed>::empty(),
{
    Decompressor { state: Decompress::new(false), steps: Ghost(Seq::empty()) }
}

/// `flate2::Compress::compress`, with the totals before and after: a step takes in
/// no more than there is, and puts out no more than there is room for. What it
/// comes to depends on the level and on the steps taken before, and has a name. Where
/// it tells of the end of the stream, and no step failed, a decoder gets all that was
/// taken in back out of all that was put out. A compressor that has not failed does not
/// fail, as long as it is not told that more will come after it was told that nothing will;
/// and it stops short of its input, or of its end, only where there is no room left.
#[verifier::external_body]
pub(crate) fn compress(codec: &mut Compressor, input: &[u8], output: &mut Vec<u8>, flush: FlushKind) -> (r: (
    Status,
    Totals,
))
    ensures
        r.1.within(input@.len(), old(output)@.len()),
        final(output)@.len() == old(output)@.len(),
        Stepped::of(r.0, r.1, final(output)@) == compress_step(
            old(codec).spec_level(),
            old(codec)@,
            (input@, old(output)@.len(), flush),
        ),
        final(codec)@ == old(codec)@.push((input@, old(output)@.len(), flush)),
        final(codec).spec_level() == old(codec).spec_level(),
        r.0 is StreamEnd && unfailed(old(codec).spec_level(), old(codec)@) ==> inflate_outcome(
            put_out(final(codec).spec_level(), final(codec)@),
        ) == (taken_in(final(codec).spec_level(), final(codec)@), None::<ErrorKind>),
        unfailed(old(codec).spec_level(), old(codec)@) ==> goes_well(
            old(codec)@,
            (input@, old(output)@.len(), flush),
            Stepped::of(r.0, r.1, final(output)@),
        ),
{
    let (in_before, out_before) = (codec.state.total_in(), codec.state.total_out());
    let flush = match flush {
        FlushKind::Free => flate2::FlushCompress::None,
        FlushKind::Sync => flate2::FlushCompress::Sync,
        FlushKind::Finish => flate2::FlushCompress::Finish,
    };
    let status = match codec.state.compress(input, output.as_mut_slice(), flush) {
        Ok(flate2::Status::Ok) => Status::Advanced,
        Ok(flate2::Status::BufError) => Status::BufError,
        Ok(flate2::Status::StreamEnd) => Status::StreamEnd,
        Err(_) => Status::Corrupt,
    };
    let (in_after, out_after) = (codec.state.total_in(), codec.state.total_out());
    (status, Totals { in_before, out_before, in_after, out_after })
}

/// `flate2::Decompress::decompress`, with the totals before and after: a step takes in
/// no more than there is, and puts out no more than there is room for. What it
/// comes to depends on the steps taken before, and has a name. Where it tells of the
/// end of the stream, and no step failed, all that was put out is what a decoder gets
/// out of all that was taken in.
#[verifier::external_body]
pub(crate) fn decompress(codec: &mut Decompressor, input: &[u8], output: &mut Vec<u8>, flush: FlushKind) -> (r: (
    Status,
    Totals,
))
    ensures
        r.1.within(input@.len(), old(output)@.len()),
        final(output)@.len() == old(output)@.len(),
        Stepped::of(r.0, r.1, final(output)@) == decompress_step(
            old(codec)@,
            (input@, old(output)@.len(), flush),
        ),
        final(codec)@ == old(codec)@.push((input@, old(output)@.len(), flush)),
        r.0 is StreamEnd && unbroken(old(codec)@) ==> inflated(inflated_in(final(codec)@)) == Some(
            inflated_out(final(codec)@),
        ),
{
    let (in_before, out_before) = (codec.state.total_in(), codec.state.total_out());
    let flush = match flush {
        FlushKind::Free => flate2::FlushDecompress::None,
        FlushKind::Sync => flate2::FlushDecompress::Sync,
        FlushKind::Finish => flate2::FlushDecompress::Finish,
    };
    let status = match codec.state.decompress(input, output.as_mut_slice(), flush) {
        Ok(flate2::Status::Ok) => Status::Advanced,
        Ok(flate2::Status::BufError) => Status::BufError,
        Ok(flate2::Status::StreamEnd) => Status::StreamEnd,
        Err(_) => Status::Corrupt,
    };
    let (in_after, out_after) = (codec.state.total_in(), codec.state.total_out());
    (status, Totals { in_before, out_before, in_after, out_after })
}

} // verus!
