//! Helper module to compute a CRC32 checksum
use vstd::prelude::*;

use crate::codec::{corrupt, decoded, unpack_deflated, unpacked};
use crate::compression::CompressionMethod;
use crate::crc32::{crc32_of, Crc32};
use crate::decoder::{Decoding, Unpacker};
use crate::result::{other, other_error, ZipError, ZipResult};
use crate::stream::{vec_fits, Cursor, Readable, Root};
use crate::tokio::buf_reader::BufReader;
use crate::tokio::combinators::Limiter;
use crate::tokio::stream_impls::deflate::{Inflater, Inflow, Reader};
use crate::tokio::WrappedPin;

verus! {

/// The size of the buffer from which packed bytes are taken, and of the pieces in which a
/// reader is read to its end.
pub const PIECE: usize = 32768;

/// What is left for a reader.
#[verifier::ext_equal]
pub ghost enum Left {
    /// These bytes.
    Bytes(Seq<u8>),
    /// What comes out of these bytes, of which none was taken yet.
    Whole(Seq<u8>),
    /// What comes out of bytes, some of which were taken.
    Packed(Inflow),
    /// What comes out of a decoder of which nothing was asked yet.
    Coded(Decoding),
    /// What comes out of a decoder of which something was asked.
    Decoding(Decoding),
}

impl Left {
    /// A start with bytes of which none was taken yet.
    pub open spec fn begun(packed: Seq<u8>) -> Inflow {
        Inflow {
            steps: Seq::empty(),
            buffered: Seq::empty(),
            rest: packed,
            capacity: PIECE as nat,
        }
    }

    /// What a read of up to `n` bytes returns, and what it leaves.
    pub open spec fn read(self, n: nat) -> (ZipResult<Seq<u8>>, Left) {
        match self {
            Left::Bytes(bytes) => {
                let count = if n < bytes.len() {
                    n as int
                } else {
                    bytes.len() as int
                };
                (Ok(bytes.take(count)), Left::Bytes(bytes.skip(count)))
            },
            Left::Whole(packed) => {
                let (r, inflow) = Left::begun(packed).read(n);
                (r, Left::Packed(inflow))
            },
            Left::Packed(inflow) => {
                let (r, next) = inflow.read(n);
                (r, Left::Packed(next))
            },
            Left::Coded(decoding) | Left::Decoding(decoding) => {
                let (r, next) = decoding.read(n);
                (r, Left::Decoding(next))
            },
        }
    }
}

/// Something that a reader gets its bytes from.
pub trait Feed: Sized {
    /// What is left.
    spec fn left(&self) -> Left;

    /// What stays the same: the stream below, and what position it comes to when all of it
    /// is read.
    spec fn origin(&self) -> (Root, nat);

    /// Whether the parts fit together.
    spec fn ready(&self) -> bool;

    /// How the bytes are stored.
    spec fn method(&self) -> CompressionMethod;

    /// Whether `seen` is what was got so far out of all of `packed`.
    spec fn tells(&self, packed: Seq<u8>, seen: Seq<u8>) -> bool;

    /// Reads up to `n` bytes.
    fn feed(&mut self, n: usize) -> (r: ZipResult<Vec<u8>>)
        requires
            old(self).ready(),
            n > 0,
        ensures
            final(self).ready(),
            final(self).origin() == old(self).origin(),
            final(self).method() == old(self).method(),
            final(self).left() == old(self).left().read(n as nat).1,
            match r {
                Ok(out) => old(self).left().read(n as nat).0 == Ok::<Seq<u8>, ZipError>(out@),
                Err(e) => old(self).left().read(n as nat).0 == Err::<Seq<u8>, ZipError>(e),
            },
            forall|packed: Seq<u8>, seen: Seq<u8>|
                r is Ok && #[trigger] old(self).tells(packed, seen) ==> final(self).tells(
                    packed,
                    seen + r->Ok_0@,
                ),
    ;
}

/// Reads from a stream as it is.
fn feed_plain<R: Readable>(stream: &mut R, n: usize) -> (out: Vec<u8>)
    requires
        old(stream).ready(),
    ensures
        final(stream).ready(),
        final(stream).root() == old(stream).root(),
        final(stream).position() == old(stream).position() + out@.len(),
        out@ + final(stream).rest() == old(stream).rest(),
        Left::Bytes(final(stream).rest()) == Left::Bytes(old(stream).rest()).read(n as nat).1,
        Left::Bytes(old(stream).rest()).read(n as nat).0 == Ok::<Seq<u8>, ZipError>(out@),
        forall|seen: Seq<u8>| #[trigger]
            (seen + out@) + final(stream).rest() == seen + old(stream).rest(),
{
    let out = stream.read_some(n);
    proof {
        let was = old(stream).rest();
        let count = out@.len() as int;
        assert(out@ =~= was.take(count));
        assert(stream.rest() =~= was.skip(count));
        assert forall|seen: Seq<u8>| #[trigger] (seen + out@) + stream.rest() == seen + was by {
            assert((seen + out@) + stream.rest() =~= seen + was);
        }
    }
    out
}

impl Feed for Cursor {
    open spec fn left(&self) -> Left {
        Left::Bytes(self.rest())
    }

    open spec fn origin(&self) -> (Root, nat) {
        (self.root(), self.position() + self.rest().len())
    }

    open spec fn method(&self) -> CompressionMethod {
        CompressionMethod::Stored
    }

    open spec fn ready(&self) -> bool {
        true
    }

    open spec fn tells(&self, packed: Seq<u8>, seen: Seq<u8>) -> bool {
        packed == seen + self.rest()
    }

    fn feed(&mut self, n: usize) -> (r: ZipResult<Vec<u8>>) {
        Ok(feed_plain(self, n))
    }
}

impl Feed for Limiter<Cursor> {
    open spec fn left(&self) -> Left {
        Left::Bytes(self.rest())
    }

    open spec fn origin(&self) -> (Root, nat) {
        (self.root(), self.position() + self.rest().len())
    }

    open spec fn method(&self) -> CompressionMethod {
        CompressionMethod::Stored
    }

    open spec fn ready(&self) -> bool {
        self.wf()
    }

    open spec fn tells(&self, packed: Seq<u8>, seen: Seq<u8>) -> bool {
        packed == seen + self.rest()
    }

    fn feed(&mut self, n: usize) -> (r: ZipResult<Vec<u8>>) {
        Ok(feed_plain(self, n))
    }
}

impl<S: Readable> Feed for Reader<Inflater, BufReader<S>> {
    open spec fn left(&self) -> Left {
        if self.codec().unused() {
            Left::Whole(self.wrapped().rest())
        } else {
            Left::Packed(self.inflow())
        }
    }

    open spec fn origin(&self) -> (Root, nat) {
        let below = self.wrapped().reader();
        (below.root(), below.position() + below.rest().len())
    }

    open spec fn method(&self) -> CompressionMethod {
        CompressionMethod::Deflated
    }

    open spec fn ready(&self) -> bool {
        &&& self.wrapped().ready()
        &&& self.codec().unused() ==> {
            &&& self.wrapped()@.len() == 0
            &&& self.wrapped().spec_capacity() == PIECE
            &&& self.codec()@.len() == 0
        }
    }

    open spec fn tells(&self, packed: Seq<u8>, seen: Seq<u8>) -> bool {
        self.inflow().tells(packed, seen)
    }

    fn feed(&mut self, n: usize) -> (r: ZipResult<Vec<u8>>) {
        proof {
            if self.codec().unused() {
                assert(self.wrapped().rest() =~= self.wrapped().reader().rest());
                assert(self.inflow() =~= Left::begun(self.wrapped().rest()));
            }
        }
        self.read(n)
    }
}

/// Bytes that come out of a stream of those that Deflate packed.
pub fn inflating<S: Readable>(s: S) -> (r: Reader<Inflater, BufReader<S>>)
    requires
        s.ready(),
    ensures
        r.ready(),
        r.left() == Left::Whole(s.rest()),
        r.origin() == (s.root(), s.position() + s.rest().len()),
        r.wrapped().reader() == s,
        r.tells(s.rest(), Seq::empty()),
{
    let r = Reader::with_state(Inflater::new(), BufReader::with_capacity(PIECE, s));
    proof {
        assert(r.wrapped()@ =~= Seq::empty());
        assert(r.wrapped().rest() =~= s.rest());
        assert(r.inflow().whole() =~= s.rest());
    }
    r
}

impl Feed for Unpacker {
    open spec fn left(&self) -> Left {
        if self.spent() {
            Left::Bytes(Seq::empty())
        } else if self.unused() {
            Left::Coded(self@)
        } else {
            Left::Decoding(self@)
        }
    }

    open spec fn origin(&self) -> (Root, nat) {
        (Root { bytes: self@.packed, first: 0, limit: None }, self@.packed.len())
    }

    open spec fn method(&self) -> CompressionMethod {
        self@.method
    }

    open spec fn ready(&self) -> bool {
        self.usable()
    }

    open spec fn tells(&self, packed: Seq<u8>, seen: Seq<u8>) -> bool {
        if self.spent() {
            decoded(self@.method, packed) == Ok::<Seq<u8>, ZipError>(seen)
        } else {
            self@.tells(packed, seen)
        }
    }

    fn feed(&mut self, n: usize) -> (r: ZipResult<Vec<u8>>) {
        if self.is_spent() {
            let nothing: Vec<u8> = Vec::new();
            proof {
                assert(nothing@ =~= Seq::<u8>::empty().take(0));
                assert(Seq::<u8>::empty().skip(0) =~= Seq::<u8>::empty());
                assert forall|seen: Seq<u8>| #[trigger] (seen + nothing@) == seen by {
                    assert(seen + nothing@ =~= seen);
                }
            }
            return Ok(nothing);
        }
        self.read(n)
    }
}

/// What a read returned.
pub open spec fn viewed(r: ZipResult<Vec<u8>>) -> ZipResult<Seq<u8>> {
    match r {
        Ok(out) => Ok(out@),
        Err(e) => Err(e),
    }
}

/// Reader that validates the CRC32 when it reaches the EOF.
pub struct Crc32Reader<R> {
    inner: R,
    hasher: Crc32,
    check: u32,
    ae2_encrypted: bool,
}

/// What a [`Crc32Reader`] has read, has left, and looks for.
#[verifier::ext_equal]
pub ghost struct Checked {
    pub left: Left,
    pub seen: Seq<u8>,
    pub check: u32,
    pub ae2_encrypted: bool,
}

impl Checked {
    /// Whether the check passes.
    pub open spec fn passes(self) -> bool {
        self.ae2_encrypted || self.check == crc32_of(self.seen)
    }

    /// What a read of up to `n` bytes returns, and what it leaves.
    pub open spec fn read(self, n: nat) -> (ZipResult<Seq<u8>>, Checked) {
        if n == 0 {
            (Ok(Seq::empty()), self)
        } else {
            match self.left.read(n) {
                (Err(e), left) => (Err(e), Checked { left, ..self }),
                (Ok(out), left) => if out.len() == 0 {
                    (
                        if self.passes() {
                            Ok(out)
                        } else {
                            Err(other("Invalid checksum"))
                        },
                        Checked { left, ..self },
                    )
                } else {
                    (Ok(out), Checked { left, seen: self.seen + out, ..self })
                },
            }
        }
    }

    /// What `plain` amounts to if it is all that is left.
    pub open spec fn amounts(self, plain: Seq<u8>) -> ZipResult<Seq<u8>> {
        if self.ae2_encrypted || self.check == crc32_of(self.seen + plain) {
            Ok(plain)
        } else {
            Err(other("Invalid checksum"))
        }
    }

    /// What reads of `n` bytes each return together, the first `k` of them and one more, or
    /// those up to the first that returns nothing or fails; and what they leave.
    pub open spec fn drained(self, n: nat, k: nat) -> (ZipResult<Seq<u8>>, Checked)
        decreases k,
    {
        match self.read(n) {
            (Err(e), next) => (Err(e), next),
            (Ok(out), next) => if out.len() == 0 || k == 0 {
                (Ok(out), next)
            } else {
                match next.drained(n, (k - 1) as nat) {
                    (Err(e), last) => (Err(e), last),
                    (Ok(more), last) => (Ok(out + more), last),
                }
            },
        }
    }

    /// Whether one of the first `k` reads of `n` bytes each and one more returns nothing or
    /// fails.
    pub open spec fn stops(self, n: nat, k: nat) -> bool
        decreases k,
    {
        match self.read(n) {
            (Err(_), _) => true,
            (Ok(out), next) => out.len() == 0 || (k > 0 && next.stops(n, (k - 1) as nat)),
        }
    }

    /// Whether this is what reads of pieces up to the end return together, and leave.
    pub open spec fn drains(self, r: ZipResult<Seq<u8>>, after: Checked) -> bool {
        exists|k: nat| #[trigger] self.stops(PIECE as nat, k) && self.drained(PIECE as nat, k) == (
            r,
            after,
        )
    }

    /// What there is to be read in all: the rest, if its checksum is the expected one. Of
    /// packed bytes some of which were taken, it is what reads of pieces up to the end
    /// return together.
    pub open spec fn rest(self) -> ZipResult<Seq<u8>> {
        match self.left {
            Left::Bytes(bytes) => self.amounts(bytes),
            Left::Whole(packed) => match unpacked(CompressionMethod::Deflated, packed) {
                Some(plain) => self.amounts(plain),
                None => Err(corrupt(CompressionMethod::Deflated)),
            },
            Left::Coded(decoding) => match decoded(decoding.method, decoding.packed) {
                Ok(plain) => self.amounts(plain),
                Err(e) => Err(e),
            },
            Left::Packed(_) | Left::Decoding(_) => self.drained(
                PIECE as nat,
                choose|k: nat| #[trigger] self.stops(PIECE as nat, k),
            ).0,
        }
    }
}

/// Reads up to the end return the same, whatever bound there is on their number.
proof fn drained_alike(c: Checked, n: nat, k: nat, m: nat)
    requires
        c.stops(n, k),
        c.stops(n, m),
    ensures
        c.drained(n, k) == c.drained(n, m),
    decreases k,
{
    if let (Ok(out), next) = c.read(n) {
        if out.len() > 0 {
            drained_alike(next, n, (k - 1) as nat, (m - 1) as nat);
        }
    }
}

/// Reads of pieces up to the end return all of the bytes that are left.
proof fn bytes_drain(c: Checked, k: nat)
    requires
        c.left is Bytes,
        c.stops(PIECE as nat, k),
    ensures
        c.drained(PIECE as nat, k).0 == c.rest(),
    decreases k,
{
    let bytes = c.left->Bytes_0;
    let (got, next) = c.read(PIECE as nat);
    if bytes.len() == 0 {
        assert(c.seen + bytes =~= c.seen);
        assert(bytes.take(0) =~= bytes);
    } else {
        let out = got->Ok_0;
        assert(out.len() > 0);
        let more = next.left->Bytes_0;
        bytes_drain(next, (k - 1) as nat);
        assert(next.seen + more =~= c.seen + bytes) by {
            assert(out + more =~= bytes);
        }
        assert(out + more =~= bytes);
    }
}

impl<R: Feed> Crc32Reader<R> {
    /// What this has read, has left, and looks for.
    pub closed spec fn view(&self) -> Checked {
        Checked {
            left: self.inner.left(),
            seen: self.hasher@,
            check: self.check,
            ae2_encrypted: self.ae2_encrypted,
        }
    }

    /// Whether the parts fit together.
    pub open spec fn ready(&self) -> bool {
        self.wrapped().ready()
    }

    /// What is left for this is what is left below.
    pub proof fn left_below(&self)
        ensures
            self@.left == self.wrapped().left(),
    {
    }

    /// Get a new Crc32Reader which checks the inner reader against checksum.
    /// The check is disabled if `ae2_encrypted == true`.
    pub fn new(inner: R, checksum: u32, ae2_encrypted: bool) -> (r: Self)
        ensures
            r@ == (Checked {
                left: inner.left(),
                seen: Seq::empty(),
                check: checksum,
                ae2_encrypted,
            }),
            r.wrapped() == inner,
    {
        Crc32Reader { inner, hasher: Crc32::new(), check: checksum, ae2_encrypted }
    }

    /// Reads up to `n` bytes. At the end, checks the checksum of all that was
    /// read.
    pub fn read(&mut self, n: usize) -> (r: ZipResult<Vec<u8>>)
        requires
            old(self).ready(),
        ensures
            final(self).ready(),
            final(self).wrapped().origin() == old(self).wrapped().origin(),
            final(self).wrapped().method() == old(self).wrapped().method(),
            final(self)@ == old(self)@.read(n as nat).1,
            final(self)@.left == final(self).wrapped().left(),
            match r {
                Ok(out) => old(self)@.read(n as nat).0 == Ok::<Seq<u8>, ZipError>(out@),
                Err(e) => old(self)@.read(n as nat).0 == Err::<Seq<u8>, ZipError>(e),
            },
            forall|packed: Seq<u8>|
                r is Ok && #[trigger] old(self).wrapped().tells(packed, old(self)@.seen)
                    ==> final(self).wrapped().tells(packed, final(self)@.seen),
    {
        if n == 0 {
            let nothing: Vec<u8> = Vec::new();
            assert(nothing@ =~= Seq::empty());
            return Ok(nothing);
        }
        let chunk = match self.inner.feed(n) {
            Err(e) => {
                return Err(e);
            },
            Ok(chunk) => chunk,
        };
        if chunk.len() == 0 {
            assert(self@.seen + chunk@ =~= self@.seen);
            if !self.ae2_encrypted && self.check != self.hasher.value() {
                return Err(other_error("Invalid checksum"));
            }
            return Ok(chunk);
        }
        self.hasher.update(chunk.as_slice());
        Ok(chunk)
    }

    /// Reads all that is left, and checks the checksum. Packed bytes must be such that some
    /// were taken.
    pub fn read_pieces(&mut self) -> (r: ZipResult<Vec<u8>>)
        requires
            old(self).ready(),
            !(old(self)@.left is Whole),
            !(old(self)@.left is Coded),
        ensures
            final(self).ready(),
            final(self).wrapped().origin() == old(self).wrapped().origin(),
            final(self).wrapped().method() == old(self).wrapped().method(),
            match r {
                Ok(out) => old(self)@.rest() == Ok::<Seq<u8>, ZipError>(out@),
                Err(e) => old(self)@.rest() == Err::<Seq<u8>, ZipError>(e),
            },
    {
        let ghost first = self@;
        let r = self.drain_pieces();
        proof {
            let result = viewed(r);
            let after = self@;
            let k = choose|k: nat| #[trigger]
                first.stops(PIECE as nat, k) && first.drained(PIECE as nat, k) == (result, after);
            if first.left is Bytes {
                bytes_drain(first, k);
            } else {
                let m = choose|k: nat| #[trigger] first.stops(PIECE as nat, k);
                drained_alike(first, PIECE as nat, k, m);
            }
        }
        r
    }

    /// Reads all that is left piece by piece, and checks the checksum.
    fn drain_pieces(&mut self) -> (r: ZipResult<Vec<u8>>)
        requires
            old(self).ready(),
        ensures
            final(self).ready(),
            final(self).wrapped().origin() == old(self).wrapped().origin(),
            final(self).wrapped().method() == old(self).wrapped().method(),
            old(self)@.drains(viewed(r), final(self)@),
    {
        let ghost first = self@;
        let ghost mut k: nat = 0;
        let mut all: Vec<u8> = Vec::new();
        loop
            invariant
                self.ready(),
                self.wrapped().origin() == old(self).wrapped().origin(),
                self.wrapped().method() == old(self).wrapped().method(),
                first == old(self)@,
                forall|m: nat| #[trigger]
                    self@.stops(PIECE as nat, m) ==> first.stops(PIECE as nat, k + m),
                forall|m: nat|
                    #![trigger self@.drained(PIECE as nat, m)]
                    first.drained(PIECE as nat, k + m) == (match self@.drained(PIECE as nat, m) {
                        (Err(e), last) => (Err(e), last),
                        (Ok(more), last) => (Ok(all@ + more), last),
                    }),
            decreases usize::MAX - all@.len(),
        {
            let ghost before = self@;
            let ghost was = all@;
            match self.read(PIECE) {
                Err(e) => {
                    proof {
                        assert(before.stops(PIECE as nat, 0));
                        assert(before.drained(PIECE as nat, 0) == (
                            Err::<Seq<u8>, ZipError>(e),
                            self@,
                        ));
                        assert(first.stops(PIECE as nat, k + 0));
                    }
                    return Err(e);
                },
                Ok(mut out) => {
                    if out.len() == 0 {
                        proof {
                            assert(before.stops(PIECE as nat, 0));
                            assert(before.drained(PIECE as nat, 0) == (
                                Ok::<Seq<u8>, ZipError>(out@),
                                self@,
                            ));
                            assert(was + out@ =~= was);
                            assert(first.stops(PIECE as nat, k + 0));
                        }
                        return Ok(all);
                    }
                    let ghost more = out@;
                    all.append(&mut out);
                    proof {
                        vec_fits(all);
                        assert(all@ =~= was + more);
                        let now = self@;
                        assert forall|m: nat| #[trigger]
                            now.stops(PIECE as nat, m) implies first.stops(
                            PIECE as nat,
                            k + 1 + m,
                        ) by {
                            assert(before.stops(PIECE as nat, m + 1));
                            assert(k + (m + 1) == k + 1 + m);
                        }
                        assert forall|m: nat|
                            #![trigger now.drained(PIECE as nat, m)]
                            first.drained(PIECE as nat, k + 1 + m) == (match now.drained(
                                PIECE as nat,
                                m,
                            ) {
                                (Err(e), last) => (Err(e), last),
                                (Ok(rest), last) => (Ok(all@ + rest), last),
                            }) by {
                            let d = before.drained(PIECE as nat, m + 1);
                            assert(k + (m + 1) == k + 1 + m);
                            if let (Ok(rest), last) = now.drained(PIECE as nat, m) {
                                assert(was + (more + rest) =~= all@ + rest);
                            }
                        }
                        k = k + 1;
                    }
                },
            }
        }
    }
}

impl<R> WrappedPin<R> for Crc32Reader<R> {
    closed spec fn wrapped(&self) -> R {
        self.inner
    }

    fn unwrap_inner_pin(self) -> (r: R) {
        self.inner
    }
}

impl Crc32Reader<Cursor> {
    /// Reads all that is left, and checks the checksum.
    pub fn read_to_end(&mut self) -> (r: ZipResult<Vec<u8>>)
        ensures
            match r {
                Ok(out) => old(self)@.rest() == Ok::<Seq<u8>, ZipError>(out@),
                Err(e) => old(self)@.rest() == Err::<Seq<u8>, ZipError>(e),
            },
    {
        self.read_pieces()
    }
}

impl Crc32Reader<Unpacker> {
    /// Reads all that is left, and checks the checksum. Where nothing was read yet, all is
    /// decoded at once.
    pub fn read_to_end(&mut self) -> (r: ZipResult<Vec<u8>>)
        requires
            old(self).ready(),
        ensures
            final(self).ready(),
            match r {
                Ok(out) => old(self)@.rest() == Ok::<Seq<u8>, ZipError>(out@),
                Err(e) => old(self)@.rest() == Err::<Seq<u8>, ZipError>(e),
            },
            final(self).wrapped().method() == old(self).wrapped().method(),
            old(self)@.left is Coded && r is Ok ==> final(self)@ == (Checked {
                left: Left::Bytes(Seq::empty()),
                seen: old(self)@.seen + r->Ok_0@,
                ..old(self)@
            }),
    {
        if !self.inner.is_unused() || self.inner.is_spent() {
            return self.read_pieces();
        }
        let plain = match self.inner.decode_all() {
            Ok(plain) => plain,
            Err(e) => {
                return Err(e);
            },
        };
        self.hasher.update(plain.as_slice());
        if !self.ae2_encrypted && self.check != self.hasher.value() {
            return Err(other_error("Invalid checksum"));
        }
        Ok(plain)
    }
}

impl<S: Readable> Crc32Reader<Reader<Inflater, BufReader<S>>> {
    /// Reads all that is left, and checks the checksum. Where nothing was read yet, all is
    /// unpacked at once.
    pub fn read_to_end(&mut self) -> (r: ZipResult<Vec<u8>>)
        requires
            old(self).ready(),
        ensures
            final(self).ready(),
            final(self).wrapped().origin() == old(self).wrapped().origin(),
            final(self).wrapped().method() == old(self).wrapped().method(),
            match r {
                Ok(out) => old(self)@.rest() == Ok::<Seq<u8>, ZipError>(out@),
                Err(e) => old(self)@.rest() == Err::<Seq<u8>, ZipError>(e),
            },
    {
        if !self.inner.is_unused() {
            return self.read_pieces();
        }
        let packed = self.inner.read_packed();
        let plain = match unpack_deflated(packed.as_slice()) {
            Ok(plain) => plain,
            Err(e) => {
                return Err(e);
            },
        };
        self.hasher.update(plain.as_slice());
        if !self.ae2_encrypted && self.check != self.hasher.value() {
            return Err(other_error("Invalid checksum"));
        }
        Ok(plain)
    }
}

/// What is read comes from below as it is, and counts for the checksum. Where nothing is left, the
/// read fails if the checksum of all that was read is not the one that is looked for, unless it is
/// not to be looked at.
pub proof fn reads_are_checked(c: Checked, n: nat)
    requires
        n > 0,
    ensures
        ({
            let (r, next) = c.read(n);
            let (below, left) = c.left.read(n);
            &&& next.left == left
            &&& next.check == c.check && next.ae2_encrypted == c.ae2_encrypted
            &&& below is Err ==> r == below && next.seen == c.seen
            &&& below matches Ok(out) ==> out.len() > 0 ==> r == below && next.seen == c.seen + out
            &&& below matches Ok(out) ==> out.len() == 0 ==> next.seen == c.seen && (r is Ok
                <==> c.ae2_encrypted || crc32_of(c.seen) == c.check)
            &&& below matches Ok(out) ==> out.len() == 0 ==> (r matches Ok(o) ==> o.len() == 0)
        }),
{
}

/// Bytes that are at hand are read in their order, as many as are asked for or as there are.
pub proof fn bytes_are_read_in_order(bytes: Seq<u8>, n: nat)
    ensures
        ({
            let (r, left) = Left::Bytes(bytes).read(n);
            &&& r is Ok && left is Bytes
            &&& r->Ok_0 + left->Bytes_0 == bytes
            &&& r->Ok_0.len() <= n
            &&& r->Ok_0.len() == n || left->Bytes_0.len() == 0
        }),
{
    let (r, left) = Left::Bytes(bytes).read(n);
    assert(r->Ok_0 + left->Bytes_0 =~= bytes);
}

/// What is left in all is what is at hand, if the checksum of all that was read and of that is the
/// one that is looked for, or is not to be looked at.
pub proof fn rest_is_checked(c: Checked)
    requires
        c.left is Bytes,
    ensures
        ({
            let bytes = c.left->Bytes_0;
            &&& c.rest() is Ok <==> c.ae2_encrypted || crc32_of(c.seen + bytes) == c.check
            &&& c.rest() is Ok ==> c.rest()->Ok_0 == bytes
        }),
{
}

} // verus!
