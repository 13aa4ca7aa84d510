//! The decoders, each with what was asked of it.
//!
//! Nothing but the functions here that make and use a decoder has a hand in what it keeps of
//! what was asked of it.
use std::io::Read;

use vstd::prelude::*;

use crate::codec::{decode, decoded, decoder_error, decoder_failure, outcome};
use crate::compression::CompressionMethod;
use crate::result::{ErrorKind, ZipError, ZipResult};

verus! {

/// A source of bytes in memory.
#[verifier::external_type_specification]
#[verifier::external_body]
#[verifier::reject_recursive_types(T)]
pub struct ExCursor<T>(std::io::Cursor<T>);

/// A buffer in front of a source of bytes.
#[verifier::external_type_specification]
#[verifier::external_body]
#[verifier::reject_recursive_types(R)]
pub struct ExBufReader<R: ?Sized>(std::io::BufReader<R>);

/// A Deflate decoder at work.
#[verifier::external_type_specification]
#[verifier::external_body]
#[verifier::reject_recursive_types(R)]
pub struct ExDeflateDecoder<R>(flate2::read::DeflateDecoder<R>);

/// A BZIP2 decoder at work.
#[verifier::external_type_specification]
#[verifier::external_body]
#[verifier::reject_recursive_types(R)]
pub struct ExBzDecoder<R>(bzip2::read::BzDecoder<R>);

/// A Zstandard decoder at work.
#[verifier::external_type_specification]
#[verifier::external_body]
#[verifier::reject_recursive_types(R)]
pub struct ExZstdDecoder<'a, R>(zstd::stream::read::Decoder<'a, R>);

/// What a Deflate decoder of `packed` returns when up to `n` bytes are asked of it, after
/// so many were asked of it before, one time after the other.
pub uninterp spec fn inflate_read(packed: Seq<u8>, before: Seq<nat>, n: nat) -> Result<
    Seq<u8>,
    ErrorKind,
>;

/// What a BZIP2 decoder of `packed` returns when up to `n` bytes are asked of it, after so
/// many were asked of it before, one time after the other.
pub uninterp spec fn bunzip2_read(packed: Seq<u8>, before: Seq<nat>, n: nat) -> Result<
    Seq<u8>,
    ErrorKind,
>;

/// What a Zstandard decoder of `packed` returns when up to `n` bytes are asked of it, after
/// so many were asked of it before, one time after the other.
pub uninterp spec fn zstd_read(packed: Seq<u8>, before: Seq<nat>, n: nat) -> Result<
    Seq<u8>,
    ErrorKind,
>;

/// How many bytes are asked of a decoder at once, at most.
pub const MOST: usize = 0x7fff_ffff;

/// How many bytes are asked of a decoder where up to `n` are wanted.
pub open spec fn asked(n: nat) -> nat {
    if n < MOST {
        n
    } else {
        MOST as nat
    }
}

/// How far a decoder has got.
#[verifier::ext_equal]
pub ghost struct Decoding {
    /// The method.
    pub method: CompressionMethod,
    /// What is decoded.
    pub packed: Seq<u8>,
    /// How many bytes were asked for, each time.
    pub reads: Seq<nat>,
}

impl Decoding {
    /// A start.
    pub open spec fn begun(method: CompressionMethod, packed: Seq<u8>) -> Decoding {
        Decoding { method, packed, reads: Seq::empty() }
    }

    /// What is returned when up to `n` bytes are asked for.
    pub open spec fn got(self, n: nat) -> Result<Seq<u8>, ErrorKind> {
        match self.method {
            CompressionMethod::Bzip2 => bunzip2_read(self.packed, self.reads, n),
            CompressionMethod::Zstd => zstd_read(self.packed, self.reads, n),
            _ => inflate_read(self.packed, self.reads, n),
        }
    }

    /// This after `n` bytes were asked for.
    pub open spec fn after(self, n: nat) -> Decoding {
        Decoding { reads: self.reads.push(n), ..self }
    }

    /// What is returned when up to `n` bytes are wanted, and what that leaves.
    pub open spec fn read(self, n: nat) -> (ZipResult<Seq<u8>>, Decoding) {
        (
            match self.got(asked(n)) {
                Ok(out) => Ok(out),
                Err(kind) => Err(decoder_failure(self.method, kind)),
            },
            self.after(asked(n)),
        )
    }

    /// This without what was asked last.
    pub open spec fn earlier(self) -> Decoding {
        Decoding { reads: self.reads.drop_last(), ..self }
    }

    /// All that was returned.
    pub open spec fn seen(self) -> Seq<u8>
        decreases self.reads.len(),
    {
        if self.reads.len() == 0 {
            Seq::empty()
        } else {
            self.earlier().seen() + match self.earlier().got(self.reads.last()) {
                Ok(out) => out,
                Err(_) => Seq::empty(),
            }
        }
    }

    /// Whether nothing failed.
    pub open spec fn unfailed(self) -> bool
        decreases self.reads.len(),
    {
        self.reads.len() > 0 ==> self.earlier().unfailed() && self.earlier().got(self.reads.last())
            is Ok
    }

    /// Whether nothing was returned last.
    pub open spec fn ended(self) -> bool {
        self.reads.len() > 0 && (self.earlier().got(self.reads.last()) matches Ok(out) && out.len()
            == 0)
    }

    /// Whether a read of up to `n` bytes can return this: where the whole can be decoded and
    /// nothing failed, the next bytes of it; and nothing, once nothing failed, only where
    /// the whole can be decoded and was returned.
    pub open spec fn can_return(self, n: nat, r: Result<Seq<u8>, ErrorKind>) -> bool {
        let whole = outcome(self.method, self.packed);
        &&& r matches Ok(out) ==> out.len() <= n
        &&& whole.1 is None && self.unfailed() ==> (r matches Ok(out) && (self.seen()
            + out).is_prefix_of(whole.0))
        &&& self.unfailed() && (r matches Ok(out) && out.len() == 0) ==> whole == (
            self.seen(),
            None::<ErrorKind>,
        )
    }

    /// Whether `seen` was returned in all, nothing failed, and what was returned fits with
    /// what there is.
    pub open spec fn tells(self, packed: Seq<u8>, seen: Seq<u8>) -> bool {
        &&& self.packed == packed
        &&& self.unfailed()
        &&& self.seen() == seen
        &&& decoded(self.method, packed) matches Ok(plain) ==> seen.is_prefix_of(plain)
        &&& self.ended() ==> decoded(self.method, packed) == Ok::<Seq<u8>, ZipError>(seen)
    }
}

/// A Deflate decoder. What it returns is told by what it decodes and what was asked of it.
struct Inflating {
    state: flate2::read::DeflateDecoder<std::io::Cursor<Vec<u8>>>,
    packed: Ghost<Seq<u8>>,
    reads: Ghost<Seq<nat>>,
}

/// A BZIP2 decoder. What it returns is told by what it decodes and what was asked of it.
struct Bunzipping {
    state: bzip2::read::BzDecoder<std::io::Cursor<Vec<u8>>>,
    packed: Ghost<Seq<u8>>,
    reads: Ghost<Seq<nat>>,
}

/// A Zstandard decoder. What it returns is told by what it decodes and what was asked of it.
struct Unzstding {
    state: zstd::stream::read::Decoder<'static, std::io::BufReader<std::io::Cursor<Vec<u8>>>>,
    packed: Ghost<Seq<u8>>,
    reads: Ghost<Seq<nat>>,
}

impl Inflating {
    /// How far this has got.
    closed spec fn view(&self) -> Decoding {
        Decoding {
            method: CompressionMethod::Deflated,
            packed: self.packed@,
            reads: self.reads@,
        }
    }
}

impl Bunzipping {
    /// How far this has got.
    closed spec fn view(&self) -> Decoding {
        Decoding { method: CompressionMethod::Bzip2, packed: self.packed@, reads: self.reads@ }
    }
}

impl Unzstding {
    /// How far this has got.
    closed spec fn view(&self) -> Decoding {
        Decoding { method: CompressionMethod::Zstd, packed: self.packed@, reads: self.reads@ }
    }
}

/// What a read returned.
pub open spec fn returned(r: Result<Vec<u8>, ErrorKind>) -> Result<Seq<u8>, ErrorKind> {
    match r {
        Ok(out) => Ok(out@),
        Err(kind) => Err(kind),
    }
}

/// `flate2::read::DeflateDecoder::new`, on a vector: a decoder of which nothing was asked.
#[verifier::external_body]
fn begin_inflating(packed: Vec<u8>) -> (r: Inflating)
    ensures
        r@ == Decoding::begun(CompressionMethod::Deflated, packed@),
{
    let ghost kept = packed@;
    let state = flate2::read::DeflateDecoder::new(std::io::Cursor::new(packed));
    Inflating { state, packed: Ghost(kept), reads: Ghost(Seq::empty()) }
}

/// `bzip2::read::BzDecoder::new`, on a vector: a decoder of which nothing was asked.
#[verifier::external_body]
fn begin_bunzipping(packed: Vec<u8>) -> (r: Bunzipping)
    ensures
        r@ == Decoding::begun(CompressionMethod::Bzip2, packed@),
{
    let ghost kept = packed@;
    let state = bzip2::read::BzDecoder::new(std::io::Cursor::new(packed));
    Bunzipping { state, packed: Ghost(kept), reads: Ghost(Seq::empty()) }
}

/// `zstd::stream::read::Decoder::new`, on a vector: a decoder of which nothing was asked.
#[verifier::external_body]
fn begin_unzstding(packed: Vec<u8>) -> (r: Unzstding)
    ensures
        r@ == Decoding::begun(CompressionMethod::Zstd, packed@),
{
    let ghost kept = packed@;
    let state = zstd::stream::read::Decoder::new(std::io::Cursor::new(packed)).unwrap();
    Unzstding { state, packed: Ghost(kept), reads: Ghost(Seq::empty()) }
}

/// `read` of `flate2::read::DeflateDecoder`, into a buffer of `n` bytes: what was read, or
/// the kind of the error. That depends on what is decoded, on what was asked before and on
/// `n`, and has a name. Where the decoder gets through when it is read at once, the reads
/// return the same bytes one after the other, at least one as long as any are left; and
/// where nothing is left after reads that did not fail, it does get through, with what was
/// read. What the reads of other data return is left unsaid: it depends on `n`.
#[verifier::external_body]
fn read_inflating(d: &mut Inflating, n: usize) -> (r: Result<Vec<u8>, ErrorKind>)
    requires
        0 < n <= MOST,
    ensures
        returned(r) == inflate_read(old(d)@.packed, old(d)@.reads, n as nat),
        old(d)@.can_return(n as nat, returned(r)),
        final(d)@ == old(d)@.after(n as nat),
{
    let mut out = vec![0; n];
    match d.state.read(&mut out) {
        Ok(count) => {
            out.truncate(count);
            Ok(out)
        },
        Err(e) => match e.kind() {
            std::io::ErrorKind::UnexpectedEof => Err(ErrorKind::UnexpectedEof),
            std::io::ErrorKind::InvalidInput => Err(ErrorKind::InvalidInput),
            _ => Err(ErrorKind::Other),
        },
    }
}

/// `read` of `bzip2::read::BzDecoder`, into a buffer of `n` bytes: what was read, or
/// the kind of the error. That depends on what is decoded, on what was asked before and on
/// `n`, and has a name. Where the decoder gets through when it is read at once, the reads
/// return the same bytes one after the other, at least one as long as any are left; and
/// where nothing is left after reads that did not fail, it does get through, with what was
/// read. What the reads of other data return is left unsaid: it depends on `n`.
#[verifier::external_body]
fn read_bunzipping(d: &mut Bunzipping, n: usize) -> (r: Result<Vec<u8>, ErrorKind>)
    requires
        0 < n <= MOST,
    ensures
        returned(r) == bunzip2_read(old(d)@.packed, old(d)@.reads, n as nat),
        old(d)@.can_return(n as nat, returned(r)),
        final(d)@ == old(d)@.after(n as nat),
{
    let mut out = vec![0; n];
    match d.state.read(&mut out) {
        Ok(count) => {
            out.truncate(count);
            Ok(out)
        },
        Err(e) => match e.kind() {
            std::io::ErrorKind::UnexpectedEof => Err(ErrorKind::UnexpectedEof),
            std::io::ErrorKind::InvalidInput => Err(ErrorKind::InvalidInput),
            _ => Err(ErrorKind::Other),
        },
    }
}

/// `read` of `zstd::stream::read::Decoder`, into a buffer of `n` bytes: what was read, or
/// the kind of the error. That depends on what is decoded, on what was asked before and on
/// `n`, and has a name. Where the decoder gets through when it is read at once, the reads
/// return the same bytes one after the other, at least one as long as any are left; and
/// where nothing is left after reads that did not fail, it does get through, with what was
/// read. What the reads of other data return is left unsaid: it depends on `n`.
#[verifier::external_body]
fn read_unzstding(d: &mut Unzstding, n: usize) -> (r: Result<Vec<u8>, ErrorKind>)
    requires
        0 < n <= MOST,
    ensures
        returned(r) == zstd_read(old(d)@.packed, old(d)@.reads, n as nat),
        old(d)@.can_return(n as nat, returned(r)),
        final(d)@ == old(d)@.after(n as nat),
{
    let mut out = vec![0; n];
    match d.state.read(&mut out) {
        Ok(count) => {
            out.truncate(count);
            Ok(out)
        },
        Err(e) => match e.kind() {
            std::io::ErrorKind::UnexpectedEof => Err(ErrorKind::UnexpectedEof),
            std::io::ErrorKind::InvalidInput => Err(ErrorKind::InvalidInput),
            _ => Err(ErrorKind::Other),
        },
    }
}

/// A decoder at work.
enum State {
    /// None is made yet.
    Unmade(CompressionMethod, Vec<u8>),
    Inflating(Inflating),
    Bunzipping(Bunzipping),
    Unzstding(Unzstding),
}

/// A decoder of bytes in memory, made when it is first used.
pub struct Unpacker {
    state: State,
    spent: bool,
}

impl Unpacker {
    /// Whether nothing was asked of this.
    pub closed spec fn unused(&self) -> bool {
        self.state is Unmade
    }

    /// Whether all was decoded at once, so that nothing is left.
    pub closed spec fn spent(&self) -> bool {
        self.spent
    }

    /// How far this has got.
    pub closed spec fn view(&self) -> Decoding {
        match self.state {
            State::Unmade(method, packed) => Decoding::begun(method, packed@),
            State::Inflating(d) => d@,
            State::Bunzipping(d) => d@,
            State::Unzstding(d) => d@,
        }
    }

    /// Whether there is such a decoder.
    pub open spec fn usable(&self) -> bool {
        self@.method is Deflated || self@.method is Bzip2 || self@.method is Zstd
    }

    /// A decoder of which nothing was asked.
    pub fn new(method: CompressionMethod, packed: Vec<u8>) -> (r: Unpacker)
        ensures
            r.unused(),
            !r.spent(),
            r@ == Decoding::begun(method, packed@),
            r@.tells(packed@, Seq::empty()),
    {
        Unpacker { state: State::Unmade(method, packed), spent: false }
    }

    /// Reads up to `n` bytes, where all was not decoded at once.
    pub fn read(&mut self, n: usize) -> (r: ZipResult<Vec<u8>>)
        requires
            old(self).usable(),
            !old(self).spent(),
            n > 0,
        ensures
            final(self).usable(),
            !final(self).unused(),
            !final(self).spent(),
            final(self)@ == old(self)@.read(n as nat).1,
            match r {
                Ok(out) => old(self)@.read(n as nat).0 == Ok::<Seq<u8>, ZipError>(out@),
                Err(e) => old(self)@.read(n as nat).0 == Err::<Seq<u8>, ZipError>(e),
            },
            forall|packed: Seq<u8>, seen: Seq<u8>|
                r is Ok && #[trigger] old(self)@.tells(packed, seen) ==> final(self)@.tells(
                    packed,
                    seen + r->Ok_0@,
                ),
    {
        let n: usize = if n < MOST {
            n
        } else {
            MOST
        };
        let mut taken = State::Unmade(CompressionMethod::Stored, Vec::new());
        std::mem::swap(&mut self.state, &mut taken);
        let (got, state, method): (Result<Vec<u8>, ErrorKind>, State, CompressionMethod) =
            match taken {
            State::Unmade(method, packed) => match method {
                CompressionMethod::Bzip2 => {
                    let mut d = begin_bunzipping(packed);
                    let got = read_bunzipping(&mut d, n);
                    (got, State::Bunzipping(d), method)
                },
                CompressionMethod::Zstd => {
                    let mut d = begin_unzstding(packed);
                    let got = read_unzstding(&mut d, n);
                    (got, State::Unzstding(d), method)
                },
                _ => {
                    let mut d = begin_inflating(packed);
                    let got = read_inflating(&mut d, n);
                    (got, State::Inflating(d), method)
                },
            },
            State::Inflating(d) => {
                let mut d = d;
                let got = read_inflating(&mut d, n);
                (got, State::Inflating(d), CompressionMethod::Deflated)
            },
            State::Bunzipping(d) => {
                let mut d = d;
                let got = read_bunzipping(&mut d, n);
                (got, State::Bunzipping(d), CompressionMethod::Bzip2)
            },
            State::Unzstding(d) => {
                let mut d = d;
                let got = read_unzstding(&mut d, n);
                (got, State::Unzstding(d), CompressionMethod::Zstd)
            },
        };
        self.state = state;
        proof {
            assert(self@.earlier() =~= old(self)@);
            assert forall|packed: Seq<u8>, seen: Seq<u8>|
                got is Ok && #[trigger] old(self)@.tells(packed, seen) implies self@.tells(
                packed,
                seen + got->Ok_0@,
            ) by {
                if got->Ok_0@.len() == 0 {
                    assert(seen + got->Ok_0@ =~= seen);
                }
            }
        }
        match got {
            Ok(out) => Ok(out),
            Err(kind) => Err(decoder_error(method, kind)),
        }
    }

    /// Whether nothing was asked of this.
    pub fn is_unused(&self) -> (r: bool)
        ensures
            r == self.unused(),
    {
        matches!(self.state, State::Unmade(_, _))
    }

    /// Whether all was decoded at once.
    pub fn is_spent(&self) -> (r: bool)
        ensures
            r == self.spent(),
    {
        self.spent
    }

    /// Decodes all at once. Nothing must have been asked of this, and nothing is left, unless
    /// that fails.
    pub fn decode_all(&mut self) -> (r: ZipResult<Vec<u8>>)
        requires
            old(self).usable(),
            old(self).unused(),
            !old(self).spent(),
        ensures
            final(self)@ == old(self)@,
            final(self).unused(),
            final(self).spent() == (r is Ok),
            match r {
                Ok(out) => decoded(old(self)@.method, old(self)@.packed) == Ok::<
                    Seq<u8>,
                    ZipError,
                >(out@),
                Err(e) => decoded(old(self)@.method, old(self)@.packed) == Err::<
                    Seq<u8>,
                    ZipError,
                >(e),
            },
    {
        let r = match &self.state {
            State::Unmade(method, packed) => decode(*method, packed.as_slice()),
            _ => vstd::pervasive::unreached(),
        };
        self.spent = r.is_ok();
        r
    }
}

/// Bytes that are read up to where nothing comes come out as a decoder gets them that reads
/// them at once, in however many reads.
pub proof fn reads_are_the_whole(d: Decoding, packed: Seq<u8>, seen: Seq<u8>)
    requires
        d.tells(packed, seen),
        d.ended(),
    ensures
        decoded(d.method, packed) == Ok::<Seq<u8>, ZipError>(seen),
{
}

} // verus!
