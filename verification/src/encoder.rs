//! The encoders, each with what it was given.
//!
//! Nothing but the functions here that make and use an encoder has a hand in what it keeps of
//! what it was given.
use std::io::Write;

use vstd::prelude::*;

use crate::codec::{bunzip2_outcome, decoded, inflate_outcome, zstd_outcome};
use crate::result::{ErrorKind, ZipError};
use crate::sink::{Packing, ZSTD_LOWEST_LEVEL};
use crate::tokio::outflow::Outflow;

verus! {

/// What an encoder is given.
#[verifier::ext_equal]
pub ghost enum Given {
    /// Contents to encode.
    Contents(Seq<u8>),
    /// The word to put out what it holds back.
    Flush,
}

/// All the contents that were given.
pub open spec fn contents(given: Seq<Given>) -> Seq<u8>
    decreases given.len(),
{
    if given.len() == 0 {
        Seq::empty()
    } else {
        contents(given.drop_last()) + match given.last() {
            Given::Contents(data) => data,
            Given::Flush => Seq::empty(),
        }
    }
}

/// What a Deflate encoder of the given level puts out when it is given contents, after
/// what it was given before.
pub uninterp spec fn deflate_on_write(level: u32, before: Seq<Given>, data: Seq<u8>) -> Seq<u8>;

/// What a Deflate encoder of the given level puts out when it is flushed, after what it
/// was given before.
pub uninterp spec fn deflate_on_flush(level: u32, before: Seq<Given>) -> Seq<u8>;

/// What a Deflate encoder of the given level puts out at its end, after what it was given
/// before.
pub uninterp spec fn deflate_on_finish(level: u32, before: Seq<Given>) -> Seq<u8>;

/// What a BZIP2 encoder of the given level puts out when it is given contents, after what
/// it was given before.
pub uninterp spec fn bzip2_on_write(level: u32, before: Seq<Given>, data: Seq<u8>) -> Seq<u8>;

/// What a BZIP2 encoder of the given level puts out when it is flushed, after what it was
/// given before.
pub uninterp spec fn bzip2_on_flush(level: u32, before: Seq<Given>) -> Seq<u8>;

/// What a BZIP2 encoder of the given level puts out at its end, after what it was given
/// before.
pub uninterp spec fn bzip2_on_finish(level: u32, before: Seq<Given>) -> Seq<u8>;

/// What a Zstandard encoder of the given level puts out when it is given contents, after
/// what it was given before.
pub uninterp spec fn zstd_on_write(level: i32, before: Seq<Given>, data: Seq<u8>) -> Seq<u8>;

/// What a Zstandard encoder of the given level puts out when it is flushed, after what it
/// was given before.
pub uninterp spec fn zstd_on_flush(level: i32, before: Seq<Given>) -> Seq<u8>;

/// What a Zstandard encoder of the given level puts out at its end, after what it was
/// given before.
pub uninterp spec fn zstd_on_finish(level: i32, before: Seq<Given>) -> Seq<u8>;

impl Packing {
    /// What comes out when more is given, after what was given before.
    pub open spec fn on_given(self, before: Seq<Given>, more: Given) -> Seq<u8> {
        match more {
            Given::Contents(data) => match self {
                Packing::Stored => data,
                Packing::Deflated(level) => deflate_on_write(level, before, data),
                Packing::Bzip2(level) => bzip2_on_write(level, before, data),
                Packing::Zstd(level) => zstd_on_write(level, before, data),
                Packing::Streamed(level) => Outflow::of(level, before).given(more).gone,
            },
            Given::Flush => match self {
                Packing::Stored => Seq::empty(),
                Packing::Deflated(level) => deflate_on_flush(level, before),
                Packing::Bzip2(level) => bzip2_on_flush(level, before),
                Packing::Zstd(level) => zstd_on_flush(level, before),
                Packing::Streamed(level) => Outflow::of(level, before).given(more).gone,
            },
        }
    }

    /// What comes out at the end, after what was given before.
    pub open spec fn on_finish(self, before: Seq<Given>) -> Seq<u8> {
        match self {
            Packing::Stored => Seq::empty(),
            Packing::Deflated(level) => deflate_on_finish(level, before),
            Packing::Bzip2(level) => bzip2_on_finish(level, before),
            Packing::Zstd(level) => zstd_on_finish(level, before),
            Packing::Streamed(level) => Outflow::of(level, before).finished().gone,
        }
    }

    /// All that has come out so far.
    pub open spec fn put_out(self, given: Seq<Given>) -> Seq<u8>
        decreases given.len(),
    {
        if given.len() == 0 {
            Seq::empty()
        } else {
            self.put_out(given.drop_last()) + self.on_given(given.drop_last(), given.last())
        }
    }

    /// All that has come out once nothing more is given.
    pub open spec fn packed(self, given: Seq<Given>) -> Seq<u8> {
        self.put_out(given) + self.on_finish(given)
    }
}

/// To give more adds to the contents, and to what has come out.
pub proof fn more_given(packing: Packing, before: Seq<Given>, more: Given)
    ensures
        packing.put_out(before.push(more)) == packing.put_out(before) + packing.on_given(
            before,
            more,
        ),
        contents(before.push(more)) == contents(before) + match more {
            Given::Contents(data) => data,
            Given::Flush => Seq::empty(),
        },
        more is Flush ==> contents(before.push(more)) == contents(before),
{
    assert(before.push(more).drop_last() =~= before);
    assert(contents(before) + Seq::<u8>::empty() =~= contents(before));
}

/// A Deflate encoder that keeps what it puts out in a vector. Its type is bound by a trait
/// that cannot be declared, and is held here for that.
#[verifier::external_body]
struct DeflateState(flate2::write::DeflateEncoder<Vec<u8>>);

/// A BZIP2 encoder that keeps what it puts out in a vector. Its type is bound by a trait
/// that cannot be declared, and is held here for that.
#[verifier::external_body]
struct Bzip2State(bzip2::write::BzEncoder<Vec<u8>>);

/// A Zstandard encoder that keeps what it puts out in a vector. Its type is bound by a
/// trait that cannot be declared, and is held here for that.
#[verifier::external_body]
struct ZstdState(zstd::stream::write::Encoder<'static, Vec<u8>>);

/// A Deflate encoder. What it puts out is told by its level and what it was given.
pub struct DeflateCoder {
    state: DeflateState,
    level: Ghost<u32>,
    given: Ghost<Seq<Given>>,
}

/// A BZIP2 encoder. What it puts out is told by its level and what it was given.
pub struct Bzip2Coder {
    state: Bzip2State,
    level: Ghost<u32>,
    given: Ghost<Seq<Given>>,
}

/// A Zstandard encoder. What it puts out is told by its level and what it was given.
pub struct ZstdCoder {
    state: ZstdState,
    level: Ghost<i32>,
    given: Ghost<Seq<Given>>,
}

/// `flate2::write::DeflateEncoder::new`, on an empty vector: an encoder of the given level
/// that was given nothing.
#[verifier::external_body]
fn begin_deflate(level: u32) -> (r: DeflateCoder)
    requires
        level <= 9,
    ensures
        r.level@ == level,
        r.given@ == Seq::<Given>::empty(),
{
    let effort = flate2::Compression::new(level);
    let state = DeflateState(flate2::write::DeflateEncoder::new(Vec::new(), effort));
    DeflateCoder { state, level: Ghost(level), given: Ghost(Seq::empty()) }
}

/// `write_all` of `flate2::write::DeflateEncoder`, and what it made the encoder put out,
/// which is taken from the vector. That depends on the level, on what the encoder was given
/// before and on the contents, and has a name.
#[verifier::external_body]
fn write_deflate(coder: &mut DeflateCoder, data: &[u8]) -> (out: Vec<u8>)
    ensures
        out@ == deflate_on_write(old(coder).level@, old(coder).given@, data@),
        final(coder).given@ == old(coder).given@.push(Given::Contents(data@)),
        final(coder).level@ == old(coder).level@,
{
    coder.state.0.write_all(data).unwrap();
    std::mem::take(coder.state.0.get_mut())
}

/// `flush` of `flate2::write::DeflateEncoder`, and what it made the encoder put out, which
/// is taken from the vector. That depends on the level and on what the encoder was given
/// before, and has a name. How much of the contents a decoder can tell from what is out by
/// then is left unsaid: the encoder passes the flush by where its own buffer is full.
#[verifier::external_body]
fn flush_deflate(coder: &mut DeflateCoder) -> (out: Vec<u8>)
    ensures
        out@ == deflate_on_flush(old(coder).level@, old(coder).given@),
        final(coder).given@ == old(coder).given@.push(Given::Flush),
        final(coder).level@ == old(coder).level@,
{
    coder.state.0.flush().unwrap();
    std::mem::take(coder.state.0.get_mut())
}

/// `flate2::write::DeflateEncoder::finish`, and what it made the encoder put out. That
/// depends on the level and on what the encoder was given before, and has a name. A decoder
/// gets the contents back out of all that was put out.
#[verifier::external_body]
fn finish_deflate(coder: DeflateCoder) -> (out: Vec<u8>)
    ensures
        out@ == deflate_on_finish(coder.level@, coder.given@),
        inflate_outcome(Packing::Deflated(coder.level@).put_out(coder.given@) + out@) == (
            contents(coder.given@),
            None::<ErrorKind>,
        ),
{
    coder.state.0.finish().unwrap()
}

/// `bzip2::write::BzEncoder::new`, on an empty vector: an encoder of the given level that
/// was given nothing.
#[verifier::external_body]
fn begin_bzip2(level: u32) -> (r: Bzip2Coder)
    requires
        1 <= level <= 9,
    ensures
        r.level@ == level,
        r.given@ == Seq::<Given>::empty(),
{
    let effort = bzip2::Compression::new(level);
    let state = Bzip2State(bzip2::write::BzEncoder::new(Vec::new(), effort));
    Bzip2Coder { state, level: Ghost(level), given: Ghost(Seq::empty()) }
}

/// `write_all` of `bzip2::write::BzEncoder`, and what it made the encoder put out, which is
/// taken from the vector. That depends on the level, on what the encoder was given before
/// and on the contents, and has a name.
#[verifier::external_body]
fn write_bzip2(coder: &mut Bzip2Coder, data: &[u8]) -> (out: Vec<u8>)
    ensures
        out@ == bzip2_on_write(old(coder).level@, old(coder).given@, data@),
        final(coder).given@ == old(coder).given@.push(Given::Contents(data@)),
        final(coder).level@ == old(coder).level@,
{
    coder.state.0.write_all(data).unwrap();
    std::mem::take(coder.state.0.get_mut())
}

/// `flush` of `bzip2::write::BzEncoder`, and what it made the encoder put out, which is
/// taken from the vector. That depends on the level and on what the encoder was given
/// before, and has a name. How much of the contents a decoder can tell from what is out by
/// then is left unsaid: the last bits of a block may stay behind.
#[verifier::external_body]
fn flush_bzip2(coder: &mut Bzip2Coder) -> (out: Vec<u8>)
    ensures
        out@ == bzip2_on_flush(old(coder).level@, old(coder).given@),
        final(coder).given@ == old(coder).given@.push(Given::Flush),
        final(coder).level@ == old(coder).level@,
{
    coder.state.0.flush().unwrap();
    std::mem::take(coder.state.0.get_mut())
}

/// `bzip2::write::BzEncoder::finish`, and what it made the encoder put out. That depends on
/// the level and on what the encoder was given before, and has a name. A decoder gets the
/// contents back out of all that was put out.
#[verifier::external_body]
fn finish_bzip2(coder: Bzip2Coder) -> (out: Vec<u8>)
    ensures
        out@ == bzip2_on_finish(coder.level@, coder.given@),
        bunzip2_outcome(Packing::Bzip2(coder.level@).put_out(coder.given@) + out@) == (
            contents(coder.given@),
            None::<ErrorKind>,
        ),
{
    coder.state.0.finish().unwrap()
}

/// `zstd::stream::write::Encoder::new`, on an empty vector: an encoder of the given level
/// that was given nothing.
#[verifier::external_body]
fn begin_zstd(level: i32) -> (r: ZstdCoder)
    requires
        ZSTD_LOWEST_LEVEL <= level <= 22,
    ensures
        r.level@ == level,
        r.given@ == Seq::<Given>::empty(),
{
    let state = ZstdState(zstd::stream::write::Encoder::new(Vec::new(), level).unwrap());
    ZstdCoder { state, level: Ghost(level), given: Ghost(Seq::empty()) }
}

/// `write_all` of `zstd::stream::write::Encoder`, and what it made the encoder put out,
/// which is taken from the vector. That depends on the level, on what the encoder was given
/// before and on the contents, and has a name.
#[verifier::external_body]
fn write_zstd(coder: &mut ZstdCoder, data: &[u8]) -> (out: Vec<u8>)
    ensures
        out@ == zstd_on_write(old(coder).level@, old(coder).given@, data@),
        final(coder).given@ == old(coder).given@.push(Given::Contents(data@)),
        final(coder).level@ == old(coder).level@,
{
    coder.state.0.write_all(data).unwrap();
    std::mem::take(coder.state.0.get_mut())
}

/// `flush` of `zstd::stream::write::Encoder`, and what it made the encoder put out, which is
/// taken from the vector. That depends on the level and on what the encoder was given
/// before, and has a name. How much of the contents a decoder can tell from what is out by
/// then is left unsaid.
#[verifier::external_body]
fn flush_zstd(coder: &mut ZstdCoder) -> (out: Vec<u8>)
    ensures
        out@ == zstd_on_flush(old(coder).level@, old(coder).given@),
        final(coder).given@ == old(coder).given@.push(Given::Flush),
        final(coder).level@ == old(coder).level@,
{
    coder.state.0.flush().unwrap();
    std::mem::take(coder.state.0.get_mut())
}

/// `zstd::stream::write::Encoder::finish`, and what it made the encoder put out. That
/// depends on the level and on what the encoder was given before, and has a name. A decoder
/// gets the contents back out of all that was put out.
#[verifier::external_body]
fn finish_zstd(coder: ZstdCoder) -> (out: Vec<u8>)
    ensures
        out@ == zstd_on_finish(coder.level@, coder.given@),
        zstd_outcome(Packing::Zstd(coder.level@).put_out(coder.given@) + out@) == (
            contents(coder.given@),
            None::<ErrorKind>,
        ),
{
    coder.state.0.finish().unwrap()
}

/// An encoder at work.
pub enum Encoder {
    Deflate(DeflateCoder),
    Bzip2(Bzip2Coder),
    Zstd(ZstdCoder),
}

impl Encoder {
    /// How this stores contents.
    pub closed spec fn packing(&self) -> Packing {
        match self {
            Encoder::Deflate(coder) => Packing::Deflated(coder.level@),
            Encoder::Bzip2(coder) => Packing::Bzip2(coder.level@),
            Encoder::Zstd(coder) => Packing::Zstd(coder.level@),
        }
    }

    /// What this was given.
    pub closed spec fn view(&self) -> Seq<Given> {
        match self {
            Encoder::Deflate(coder) => coder.given@,
            Encoder::Bzip2(coder) => coder.given@,
            Encoder::Zstd(coder) => coder.given@,
        }
    }

    /// An encoder that was given nothing.
    pub fn new(packing: Packing) -> (r: Option<Encoder>)
        requires
            packing.in_range(),
            !(packing is Streamed),
        ensures
            match r {
                Some(encoder) => {
                    &&& !(packing is Stored)
                    &&& encoder.packing() == packing
                    &&& encoder@ == Seq::<Given>::empty()
                },
                None => packing is Stored,
            },
    {
        match packing {
            Packing::Stored => None,
            Packing::Deflated(level) => Some(Encoder::Deflate(begin_deflate(level))),
            Packing::Bzip2(level) => Some(Encoder::Bzip2(begin_bzip2(level))),
            Packing::Zstd(level) => Some(Encoder::Zstd(begin_zstd(level))),
            Packing::Streamed(_) => vstd::pervasive::unreached(),
        }
    }

    /// Encodes contents, and returns what that puts out.
    pub fn write(&mut self, data: &[u8]) -> (out: Vec<u8>)
        ensures
            out@ == old(self).packing().on_given(old(self)@, Given::Contents(data@)),
            final(self).packing() == old(self).packing(),
            final(self)@ == old(self)@.push(Given::Contents(data@)),
    {
        match self {
            Encoder::Deflate(coder) => write_deflate(coder, data),
            Encoder::Bzip2(coder) => write_bzip2(coder, data),
            Encoder::Zstd(coder) => write_zstd(coder, data),
        }
    }

    /// Returns what was held back.
    pub fn flush(&mut self) -> (out: Vec<u8>)
        ensures
            out@ == old(self).packing().on_given(old(self)@, Given::Flush),
            final(self).packing() == old(self).packing(),
            final(self)@ == old(self)@.push(Given::Flush),
    {
        match self {
            Encoder::Deflate(coder) => flush_deflate(coder),
            Encoder::Bzip2(coder) => flush_bzip2(coder),
            Encoder::Zstd(coder) => flush_zstd(coder),
        }
    }

    /// Returns what comes at the end. A decoder gets the contents back out of all that was
    /// put out.
    pub fn finish(self) -> (out: Vec<u8>)
        ensures
            out@ == self.packing().on_finish(self@),
            decoded(self.packing().method(), self.packing().packed(self@)) == Ok::<
                Seq<u8>,
                ZipError,
            >(contents(self@)),
    {
        match self {
            Encoder::Deflate(coder) => finish_deflate(coder),
            Encoder::Bzip2(coder) => finish_bzip2(coder),
            Encoder::Zstd(coder) => finish_zstd(coder),
        }
    }
}

} // verus!
