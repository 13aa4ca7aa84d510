//! Where a writer puts the contents of a file: as they are, or through a
//! compressor.
use vstd::prelude::*;

use crate::bytes::stands_at;
use crate::codec::{
    bzip2_best, bzip2_default, bzip2_fast, decoded, deflate_best, deflate_default, deflate_none,
    zstd_default_level, zstd_level_range,
};
use crate::compression::CompressionMethod;
use crate::encoder::{contents, more_given, Encoder, Given};
use crate::result::{broken_pipe, broken_pipe_error, ZipError, ZipResult};
use crate::stream::{extended_keeps, extended_twice, Cursor, StreamState};

verus! {

/// The lowest level of Zstandard that can be asked for.
pub const ZSTD_LOWEST_LEVEL: i32 = -7;

/// A way to store contents, with the level of compression settled.
#[derive(Clone, Copy, Debug, PartialEq, Eq, Structural)]
pub enum Packing {
    Stored,
    Deflated(u32),
    Bzip2(u32),
    Zstd(i32),
    /// Deflate, step by step and with a buffer between the compressor and the stream.
    Streamed(u32),
}

impl Packing {
    /// The method that this is a way of.
    pub open spec fn method(self) -> CompressionMethod {
        match self {
            Packing::Stored => CompressionMethod::Stored,
            Packing::Deflated(_) => CompressionMethod::Deflated,
            Packing::Bzip2(_) => CompressionMethod::Bzip2,
            Packing::Zstd(_) => CompressionMethod::Zstd,
            Packing::Streamed(_) => CompressionMethod::Deflated,
        }
    }

    /// Whether the level is one that there is.
    pub open spec fn in_range(self) -> bool {
        match self {
            Packing::Stored => true,
            Packing::Deflated(level) => level <= 9,
            Packing::Bzip2(level) => 1 <= level <= 9,
            Packing::Zstd(level) => ZSTD_LOWEST_LEVEL <= level <= 22,
            Packing::Streamed(level) => level <= 9,
        }
    }

    /// This as a streaming writer does it: step by step, if it is Deflate.
    pub open spec fn streamed(self) -> Packing {
        match self {
            Packing::Deflated(level) => Packing::Streamed(level),
            _ => self,
        }
    }
}

/// Returns the value if it is in the range, both of whose ends are in it.
pub open spec fn clamped(value: i32, range: (i32, i32)) -> Option<i32> {
    if range.0 <= value <= range.1 {
        Some(value)
    } else {
        None
    }
}

/// Returns the value if it is in the range, both of whose ends are in it.
pub fn clamp_opt(value: i32, range: (i32, i32)) -> (r: Option<i32>)
    ensures
        r == clamped(value, range),
{
    if range.0 <= value && value <= range.1 {
        Some(value)
    } else {
        None
    }
}

/// The levels of Deflate.
pub fn deflate_compression_level_range() -> (range: (i32, i32))
    ensures
        range == (0i32, 9i32),
{
    (deflate_none() as i32, deflate_best() as i32)
}

/// The levels of BZIP2. It has no level of its own for zero, which stands for the
/// fastest one.
pub fn bzip2_compression_level_range() -> (range: (i32, i32))
    ensures
        range == (0i32, 9i32),
{
    (0, bzip2_best() as i32)
}

/// The levels of Zstandard, but for those that are faster than any that is of use.
pub fn zstd_compression_level_range() -> (range: (i32, i32))
    ensures
        range == (ZSTD_LOWEST_LEVEL, 22i32),
{
    let (min, max): (i32, i32) = zstd_level_range();
    (
        if min < ZSTD_LOWEST_LEVEL {
            ZSTD_LOWEST_LEVEL
        } else {
            min
        },
        max,
    )
}

/// The failure of a level that there is not.
pub open spec fn unsupported_level() -> ZipError {
    ZipError::UnsupportedArchive("Unsupported compression level")
}

/// The level that is asked for, or the one that is used when none is.
pub open spec fn level_or(level: Option<i32>, default: i32) -> i32 {
    match level {
        Some(level) => level,
        None => default,
    }
}

/// How contents are stored by a method and a level.
pub open spec fn packing_for(method: CompressionMethod, level: Option<i32>) -> ZipResult<Packing> {
    match method {
        CompressionMethod::Stored => if level is Some {
            Err(unsupported_level())
        } else {
            Ok(Packing::Stored)
        },
        CompressionMethod::Deflated => match clamped(level_or(level, 6), (0, 9)) {
            Some(level) => Ok(Packing::Deflated(level as u32)),
            None => Err(unsupported_level()),
        },
        CompressionMethod::Bzip2 => match clamped(level_or(level, 6), (0, 9)) {
            Some(level) => Ok(
                Packing::Bzip2(
                    if level == 0 {
                        1
                    } else {
                        level as u32
                    },
                ),
            ),
            None => Err(unsupported_level()),
        },
        CompressionMethod::AES => Err(
            ZipError::UnsupportedArchive("AES compression is not supported for writing"),
        ),
        CompressionMethod::Zstd => match clamped(level_or(level, 3), (ZSTD_LOWEST_LEVEL, 22)) {
            Some(level) => Ok(Packing::Zstd(level)),
            None => Err(unsupported_level()),
        },
        CompressionMethod::Unsupported(_) => Err(
            ZipError::UnsupportedArchive("Unsupported compression"),
        ),
    }
}

/// What a level asks for, checked against the levels that there are.
fn checked_level(level: Option<i32>, default: i32, range: (i32, i32)) -> (r: ZipResult<i32>)
    ensures
        match r {
            Ok(l) => clamped(level_or(level, default), range) == Some(l),
            Err(e) => clamped(level_or(level, default), range) is None && e == unsupported_level(),
        },
{
    let wanted: i32 = match level {
        Some(level) => level,
        None => default,
    };
    match clamp_opt(wanted, range) {
        Some(level) => Ok(level),
        None => Err(ZipError::UnsupportedArchive("Unsupported compression level")),
    }
}

/// A compressor at work.
pub struct Packer {
    sink: Cursor,
    encoder: Encoder,
    start: Ghost<StreamState>,
}

/// Where the contents of a file go.
pub enum GenericZipWriter {
    /// Nowhere: the archive is finished.
    Closed,
    /// Straight into the archive.
    Storer(Cursor),
    /// Through a Deflate compressor.
    Deflater(Packer),
    /// Through a BZIP2 compressor.
    Bzip2(Packer),
    /// Through a Zstandard compressor.
    Zstd(Packer),
}

/// What a [`GenericZipWriter`] is up to.
#[verifier::ext_equal]
pub ghost enum Sink {
    /// The archive is finished.
    Closed,
    /// Contents go straight into the archive.
    Plain(StreamState),
    /// Contents go through a compressor, which puts what it makes of them into a
    /// stream. This is the stream before the first of them, with what the compressor
    /// was given since.
    Packing(StreamState, Packing, Seq<Given>),
}

impl Sink {
    /// The archive as it is in the stream.
    pub open spec fn stream(self) -> StreamState {
        match self {
            Sink::Closed => StreamState { bytes: Seq::empty(), pos: 0 },
            Sink::Plain(s) => s,
            Sink::Packing(s, packing, given) => s.extended(packing.put_out(given)),
        }
    }

    /// The archive once all that was held back is in the stream.
    pub open spec fn ended(self) -> StreamState {
        match self {
            Sink::Packing(s, packing, given) => s.extended(packing.packed(given)),
            _ => self.stream(),
        }
    }

    /// Whether the parts fit together.
    pub open spec fn wf(self) -> bool {
        &&& self.stream().pos <= u64::MAX
        &&& self.stream().bytes.len() <= usize::MAX
        &&& self matches Sink::Packing(_, packing, _) ==> packing.in_range() && packing
            != Packing::Stored
    }

    /// This with a stream in place of the one it has, to which contents go in
    /// the given way.
    pub open spec fn opened(stream: StreamState, packing: Packing) -> Sink {
        match packing {
            Packing::Stored => Sink::Plain(stream),
            _ => Sink::Packing(stream, packing, Seq::empty()),
        }
    }

    /// Whether the contents can be got back out of what will be stored for them.
    pub open spec fn recoverable(self) -> bool {
        self matches Sink::Packing(_, packing, given) ==> decoded(
            packing.method(),
            packing.packed(given),
        ) == Ok::<Seq<u8>, ZipError>(contents(given))
    }

    /// This after more contents were written to it.
    pub open spec fn written(self, data: Seq<u8>) -> Sink {
        match self {
            Sink::Closed => self,
            Sink::Plain(s) => Sink::Plain(s.written(data)),
            Sink::Packing(s, packing, given) => Sink::Packing(
                s,
                packing,
                given.push(Given::Contents(data)),
            ),
        }
    }

    /// This after it was told to put what it holds back into the stream.
    pub open spec fn flushed(self) -> Sink {
        match self {
            Sink::Packing(s, packing, given) => Sink::Packing(s, packing, given.push(Given::Flush)),
            _ => self,
        }
    }
}

/// What a compressor does leaves what stands before the contents as it is, and no byte of
/// the stream goes away.
pub proof fn packing_keeps(s: StreamState, packing: Packing, given: Seq<Given>)
    ensures
        ({
            let now = Sink::Packing(s, packing, given).stream();
            let end = Sink::Packing(s, packing, given).ended();
            &&& s.bytes.len() <= now.bytes.len() <= end.bytes.len()
            &&& s.pos <= now.pos <= end.pos
            &&& s.pos <= s.bytes.len() ==> {
                &&& now.pos <= now.bytes.len()
                &&& end.pos <= end.bytes.len()
                &&& stands_at(end.bytes, s.pos as int, packing.packed(given))
            }
            &&& end == now.extended(packing.on_finish(given))
            &&& end.pos == s.pos + packing.packed(given).len()
            &&& forall|i: int|
                0 <= i < now.pos && i < now.bytes.len() ==> #[trigger] end.bytes[i] == now.bytes[i]
            &&& forall|i: int|
                0 <= i < s.pos && i < s.bytes.len() ==> #[trigger] now.bytes[i] == s.bytes[i]
            &&& forall|i: int|
                0 <= i < s.pos && i < s.bytes.len() ==> #[trigger] end.bytes[i] == s.bytes[i]
        }),
{
    let out = packing.put_out(given);
    let rest = packing.on_finish(given);
    extended_twice(s, out, rest);
    extended_keeps(s, out);
    extended_keeps(s, out + rest);
    extended_keeps(s.extended(out), rest);
}

/// What a compressor puts out when it is given more leaves what is in the stream as it is.
pub proof fn packing_goes_on(s: StreamState, packing: Packing, given: Seq<Given>, more: Given)
    ensures
        ({
            let now = Sink::Packing(s, packing, given).stream();
            let next = Sink::Packing(s, packing, given.push(more)).stream();
            &&& next == now.extended(packing.on_given(given, more))
            &&& now.bytes.len() <= next.bytes.len()
            &&& now.pos <= next.pos
            &&& s.pos <= s.bytes.len() ==> next.pos <= next.bytes.len()
            &&& forall|i: int|
                0 <= i < now.pos && i < now.bytes.len() ==> #[trigger] next.bytes[i]
                    == now.bytes[i]
        }),
{
    more_given(packing, given, more);
    extended_twice(s, packing.put_out(given), packing.on_given(given, more));
    extended_keeps(s, packing.put_out(given));
    extended_keeps(s.extended(packing.put_out(given)), packing.on_given(given, more));
}

impl GenericZipWriter {
    /// What this is up to.
    pub closed spec fn view(&self) -> Sink {
        match self {
            GenericZipWriter::Closed => Sink::Closed,
            GenericZipWriter::Storer(c) => Sink::Plain(c@),
            GenericZipWriter::Deflater(p) => p.state(),
            GenericZipWriter::Bzip2(p) => p.state(),
            GenericZipWriter::Zstd(p) => p.state(),
        }
    }

    /// How contents will be stored by a method and a level.
    pub fn prepare_next_writer(
        &self,
        compression: CompressionMethod,
        compression_level: Option<i32>,
    ) -> (r: ZipResult<Packing>)
        ensures
            self@ is Closed ==> r == Err::<Packing, ZipError>(
                broken_pipe("ZipWriter was already closed"),
            ),
            !(self@ is Closed) ==> r == packing_for(compression, compression_level),
            r matches Ok(packing) ==> packing.in_range() && packing.method() == compression && !(
            packing is Streamed),
    {
        if let GenericZipWriter::Closed = self {
            return Err(broken_pipe_error("ZipWriter was already closed"));
        }
        match compression {
            CompressionMethod::Stored => {
                if compression_level.is_some() {
                    Err(ZipError::UnsupportedArchive("Unsupported compression level"))
                } else {
                    Ok(Packing::Stored)
                }
            },
            CompressionMethod::Deflated => {
                match checked_level(
                    compression_level,
                    deflate_default() as i32,
                    deflate_compression_level_range(),
                ) {
                    Ok(level) => Ok(Packing::Deflated(level as u32)),
                    Err(e) => Err(e),
                }
            },
            CompressionMethod::Bzip2 => {
                match checked_level(
                    compression_level,
                    bzip2_default() as i32,
                    bzip2_compression_level_range(),
                ) {
                    Ok(level) => Ok(
                        Packing::Bzip2(
                            if level == 0 {
                                bzip2_fast()
                            } else {
                                level as u32
                            },
                        ),
                    ),
                    Err(e) => Err(e),
                }
            },
            CompressionMethod::AES => Err(
                ZipError::UnsupportedArchive("AES compression is not supported for writing"),
            ),
            CompressionMethod::Zstd => {
                match checked_level(
                    compression_level,
                    zstd_default_level(),
                    zstd_compression_level_range(),
                ) {
                    Ok(level) => Ok(Packing::Zstd(level)),
                    Err(e) => Err(e),
                }
            },
            CompressionMethod::Unsupported(_) => Err(
                ZipError::UnsupportedArchive("Unsupported compression"),
            ),
        }
    }

    /// Ends what was under way, and begins to store contents in the given way.
    /// The contents so far can be got back out of what is stored for them.
    pub fn switch_to(&mut self, packing: Packing) -> (r: ZipResult<()>)
        requires
            old(self)@.wf(),
            packing.in_range(),
            !(packing is Streamed),
        ensures
            old(self)@ is Closed ==> {
                &&& r == Err::<(), ZipError>(broken_pipe("ZipWriter was already closed"))
                &&& final(self)@ is Closed
            },
            !(old(self)@ is Closed) ==> {
                &&& r is Ok
                &&& final(self)@ == Sink::opened(old(self)@.ended(), packing)
                &&& final(self)@.wf()
            },
            old(self)@.recoverable(),
    {
        let mut taken = GenericZipWriter::Closed;
        std::mem::swap(self, &mut taken);
        let bare = match taken {
            GenericZipWriter::Closed => {
                return Err(broken_pipe_error("ZipWriter was already closed"));
            },
            GenericZipWriter::Storer(w) => w,
            GenericZipWriter::Deflater(w) => w.finish(),
            GenericZipWriter::Bzip2(w) => w.finish(),
            GenericZipWriter::Zstd(w) => w.finish(),
        };
        proof {
            bare.fits();
        }
        *self = match Encoder::new(packing) {
            None => GenericZipWriter::Storer(bare),
            Some(encoder) => {
                let packer = Packer::new(bare, encoder);
                match packing {
                    Packing::Bzip2(_) => GenericZipWriter::Bzip2(packer),
                    Packing::Zstd(_) => GenericZipWriter::Zstd(packer),
                    _ => GenericZipWriter::Deflater(packer),
                }
            },
        };
        Ok(())
    }

    /// Takes in contents.
    pub fn write(&mut self, data: &[u8])
        requires
            old(self)@.wf(),
            !(old(self)@ is Closed),
        ensures
            final(self)@ == old(self)@.written(data@),
            final(self)@.wf(),
    {
        let mut taken = GenericZipWriter::Closed;
        std::mem::swap(self, &mut taken);
        *self = match taken {
            GenericZipWriter::Closed => GenericZipWriter::Closed,
            GenericZipWriter::Storer(w) => {
                let mut w = w;
                w.write_all(data);
                proof {
                    w.fits();
                }
                GenericZipWriter::Storer(w)
            },
            GenericZipWriter::Deflater(w) => GenericZipWriter::Deflater(w.write(data)),
            GenericZipWriter::Bzip2(w) => GenericZipWriter::Bzip2(w.write(data)),
            GenericZipWriter::Zstd(w) => GenericZipWriter::Zstd(w.write(data)),
        };
    }

    /// Puts what a compressor holds back into the stream.
    pub fn flush(&mut self)
        requires
            old(self)@.wf(),
        ensures
            final(self)@ == old(self)@.flushed(),
            final(self)@.wf(),
    {
        let mut taken = GenericZipWriter::Closed;
        std::mem::swap(self, &mut taken);
        *self = match taken {
            GenericZipWriter::Deflater(w) => GenericZipWriter::Deflater(w.flush()),
            GenericZipWriter::Bzip2(w) => GenericZipWriter::Bzip2(w.flush()),
            GenericZipWriter::Zstd(w) => GenericZipWriter::Zstd(w.flush()),
            other => other,
        };
    }

    /// The bytes of the archive as they are in the stream, unless it is finished.
    pub fn get_ref(&self) -> (r: Option<&Vec<u8>>)
        ensures
            match r {
                Some(b) => !(self@ is Closed) && b@ == self@.stream().bytes,
                None => self@ is Closed,
            },
    {
        match self {
            GenericZipWriter::Closed => None,
            GenericZipWriter::Storer(w) => Some(w.get_ref()),
            GenericZipWriter::Deflater(w) => Some(w.get_ref()),
            GenericZipWriter::Bzip2(w) => Some(w.get_ref()),
            GenericZipWriter::Zstd(w) => Some(w.get_ref()),
        }
    }

    /// Whether the archive is finished.
    pub fn is_closed(&self) -> (r: bool)
        ensures
            r == (self@ is Closed),
    {
        matches!(self, GenericZipWriter::Closed)
    }

    /// Where the archive stands, if contents go straight into it.
    pub fn plain_position(&self) -> (r: Option<u64>)
        ensures
            match self@ {
                Sink::Plain(s) => r matches Some(pos) && pos == s.pos,
                _ => r is None,
            },
    {
        match self {
            GenericZipWriter::Storer(stream) => Some(stream.stream_position()),
            _ => None,
        }
    }

    /// A writer whose archive is finished.
    pub fn closed() -> (r: GenericZipWriter)
        ensures
            r@ == Sink::Closed,
    {
        GenericZipWriter::Closed
    }

    /// A writer that puts contents straight into the archive.
    pub fn storer(stream: Cursor) -> (r: GenericZipWriter)
        ensures
            r@ == Sink::Plain(stream@),
    {
        GenericZipWriter::Storer(stream)
    }

    /// Takes the stream out, which must not have anything held back from it,
    /// and leaves this closed.
    pub fn unwrap(&mut self) -> (r: Cursor)
        requires
            old(self)@ is Plain,
        ensures
            old(self)@ == Sink::Plain(r@),
            final(self)@ is Closed,
    {
        let mut taken = GenericZipWriter::Closed;
        std::mem::swap(self, &mut taken);
        match taken {
            GenericZipWriter::Storer(w) => w,
            _ => vstd::pervasive::unreached(),
        }
    }
}

impl Packer {
    /// The stream holds what the compressor put out, from where it began.
    #[verifier::type_invariant]
    closed spec fn placed(self) -> bool {
        &&& self.sink@ == self.start@.extended(self.encoder.packing().put_out(self.encoder@))
        &&& self.encoder.packing() != Packing::Stored
    }

    /// What this is up to.
    closed spec fn state(self) -> Sink {
        Sink::Packing(self.start@, self.encoder.packing(), self.encoder@)
    }

    /// A compressor that is to put what it makes where a stream stands.
    fn new(sink: Cursor, encoder: Encoder) -> (r: Packer)
        requires
            encoder.packing() != Packing::Stored,
            encoder@ == Seq::<Given>::empty(),
        ensures
            r.state() == Sink::Packing(sink@, encoder.packing(), Seq::empty()),
            r.sink@ == sink@,
    {
        let ghost start = sink@;
        Packer { sink, encoder, start: Ghost(start) }
    }

    /// The bytes of the archive as they are in the stream.
    fn get_ref(&self) -> (r: &Vec<u8>)
        ensures
            r@ == self.state().stream().bytes,
    {
        proof {
            use_type_invariant(self);
        }
        self.sink.get_ref()
    }

    /// Ends the compression, and puts the rest of what was held back into the archive.
    fn finish(self) -> (r: Cursor)
        ensures
            r@ == self.state().ended(),
            self.state().recoverable(),
    {
        proof {
            use_type_invariant(&self);
            packing_keeps(self.start@, self.encoder.packing(), self.encoder@);
        }
        let rest = self.encoder.finish();
        let mut sink = self.sink;
        sink.extend(rest.as_slice());
        sink
    }

    /// Compresses contents.
    fn write(self, data: &[u8]) -> (r: Packer)
        ensures
            r.state() == self.state().written(data@),
            self.state().wf() ==> r.state().wf(),
    {
        proof {
            use_type_invariant(&self);
            packing_goes_on(
                self.start@,
                self.encoder.packing(),
                self.encoder@,
                Given::Contents(data@),
            );
        }
        let mut encoder = self.encoder;
        let out = encoder.write(data);
        let mut sink = self.sink;
        sink.extend(out.as_slice());
        proof {
            sink.fits();
        }
        Packer { sink, encoder, start: self.start }
    }

    /// Puts what is held back into the archive.
    fn flush(self) -> (r: Packer)
        ensures
            r.state() == self.state().flushed(),
            self.state().wf() ==> r.state().wf(),
    {
        proof {
            use_type_invariant(&self);
            packing_goes_on(
                self.start@,
                self.encoder.packing(),
                self.encoder@,
                Given::Flush,
            );
        }
        let mut encoder = self.encoder;
        let out = encoder.flush();
        let mut sink = self.sink;
        sink.extend(out.as_slice());
        proof {
            sink.fits();
        }
        Packer { sink, encoder, start: self.start }
    }
}

/// Which levels of compression there are, and what they come to: none can be asked for where
/// contents are stored as they are; Deflate has those from zero to nine, of which the default is
/// six; so has BZIP2, but that zero is as one; Zstandard has those from seven below zero to twenty
/// two, of which the default is three. There is no other method.
pub proof fn levels_come_to(method: CompressionMethod, level: Option<i32>)
    ensures
        ({
            let r = packing_for(method, level);
            &&& r matches Ok(packing) ==> packing.method() == method && packing.in_range()
            &&& method is Stored ==> (r is Ok <==> level is None)
            &&& method is Deflated && level is None ==> r == Ok::<Packing, ZipError>(
                Packing::Deflated(6),
            )
            &&& method is Deflated && level is Some ==> (r matches Ok(packing) ==> packing
                == Packing::Deflated(level->0 as u32)) && (r is Ok <==> 0 <= level->0 <= 9)
            &&& method is Bzip2 && level is None ==> r == Ok::<Packing, ZipError>(
                Packing::Bzip2(6),
            )
            &&& method is Bzip2 && level is Some ==> (r is Ok <==> 0 <= level->0 <= 9)
            &&& method is Bzip2 && level is Some && level->0 > 0 ==> (r matches Ok(packing)
                ==> packing == Packing::Bzip2(level->0 as u32))
            &&& method is Bzip2 && level == Some(0i32) ==> r == packing_for(method, Some(1))
            &&& method is Zstd && level is None ==> r == Ok::<Packing, ZipError>(Packing::Zstd(3))
            &&& method is Zstd && level is Some ==> (r matches Ok(packing) ==> packing
                == Packing::Zstd(level->0)) && (r is Ok <==> -7 <= level->0 <= 22)
            &&& method is AES || method is Unsupported ==> r is Err
        }),
{
}

} // verus!
