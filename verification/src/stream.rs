//! A seekable stream of bytes in memory.
use vstd::prelude::*;

use crate::bytes::stands_at;
use crate::result::{ErrorKind, IoError, ZipError, ZipResult};

verus! {

/// Where to seek to.
#[derive(Clone, Copy, Debug, PartialEq, Eq, Structural)]
pub enum SeekFrom {
    /// That many bytes from the start.
    Start(u64),
    /// That many bytes from the end.
    End(i64),
    /// That many bytes from where the stream stands.
    Current(i64),
}

/// `b` with `part` written over what stands at `pos`, and beyond the end where
/// `part` does not fit. Where `pos` is beyond the end, zeros come between.
pub open spec fn overlay(b: Seq<u8>, pos: int, part: Seq<u8>) -> Seq<u8> {
    if pos > b.len() {
        b + Seq::new((pos - b.len()) as nat, |i: int| 0u8) + part
    } else if pos + part.len() >= b.len() {
        b.take(pos) + part
    } else {
        b.take(pos) + part + b.skip(pos + part.len())
    }
}

/// What an overlay leaves and what it puts in place.
pub proof fn overlay_facts(b: Seq<u8>, pos: int, part: Seq<u8>)
    requires
        0 <= pos,
    ensures
        overlay(b, pos, part).len() == if pos + part.len() >= b.len() {
            (pos + part.len()) as nat
        } else {
            b.len()
        },
        forall|i: int| 0 <= i < pos && i < b.len() ==> #[trigger] overlay(b, pos, part)[i] == b[i],
        forall|i: int|
            pos <= i < pos + part.len() ==> #[trigger] overlay(b, pos, part)[i] == part[i - pos],
        forall|i: int|
            pos + part.len() <= i < b.len() ==> #[trigger] overlay(b, pos, part)[i] == b[i],
        stands_at(overlay(b, pos, part), pos, part),
{
    let r = overlay(b, pos, part);
    assert(r.subrange(pos, pos + part.len()) =~= part);
}

/// To write two parts one after the other is to write them together.
pub proof fn overlay_twice(b: Seq<u8>, pos: int, first: Seq<u8>, second: Seq<u8>)
    requires
        0 <= pos,
    ensures
        overlay(overlay(b, pos, first), pos + first.len(), second) == overlay(
            b,
            pos,
            first + second,
        ),
{
    overlay_facts(b, pos, first);
    overlay_facts(overlay(b, pos, first), pos + first.len(), second);
    overlay_facts(b, pos, first + second);
    assert(overlay(overlay(b, pos, first), pos + first.len(), second) =~= overlay(
        b,
        pos,
        first + second,
    ));
}

/// The failure of a seek to a position that there is not.
pub open spec fn bad_seek() -> ZipError {
    ZipError::Io(
        IoError::Simple(
            ErrorKind::InvalidInput,
            "invalid seek to a negative or overflowing position",
        ),
    )
}

/// A seekable stream of bytes in memory.
#[derive(Debug)]
pub struct Cursor {
    bytes: Vec<u8>,
    pos: u64,
}

/// What a [`Cursor`] holds, and where it stands.
#[verifier::ext_equal]
pub ghost struct StreamState {
    pub bytes: Seq<u8>,
    pub pos: nat,
}

impl StreamState {
    /// The position that a seek leads to.
    pub open spec fn target(self, to: SeekFrom) -> int {
        match to {
            SeekFrom::Start(n) => n as int,
            SeekFrom::End(n) => self.bytes.len() + n,
            SeekFrom::Current(n) => self.pos + n,
        }
    }

    /// How many of `n` bytes there are to be read.
    pub open spec fn available(self, n: int) -> int {
        if self.pos >= self.bytes.len() {
            0
        } else if self.pos + n > self.bytes.len() {
            self.bytes.len() - self.pos
        } else {
            n
        }
    }

    /// The stream after `part` was written where it stands.
    pub open spec fn written(self, part: Seq<u8>) -> StreamState {
        StreamState { bytes: overlay(self.bytes, self.pos as int, part), pos: self.pos + part.len() }
    }

    /// The stream after `part` was written where it stands, if there is anything to write.
    pub open spec fn extended(self, part: Seq<u8>) -> StreamState {
        if part.len() == 0 {
            self
        } else {
            self.written(part)
        }
    }
}

/// To write two parts one after the other, if there is anything to write, is to write them
/// together.
pub proof fn extended_twice(s: StreamState, first: Seq<u8>, second: Seq<u8>)
    ensures
        s.extended(first).extended(second) == s.extended(first + second),
{
    overlay_twice(s.bytes, s.pos as int, first, second);
    if first.len() == 0 {
        assert(first + second =~= second);
    }
    if second.len() == 0 {
        assert(first + second =~= first);
    }
}

/// What stands before where a stream stands stays when more is written, and no byte of it
/// goes away.
pub proof fn extended_keeps(s: StreamState, part: Seq<u8>)
    ensures
        ({
            let t = s.extended(part);
            &&& s.bytes.len() <= t.bytes.len()
            &&& t.pos == s.pos + part.len()
            &&& s.pos <= s.bytes.len() ==> t.pos <= t.bytes.len() && stands_at(
                t.bytes,
                s.pos as int,
                part,
            )
            &&& forall|i: int|
                0 <= i < s.pos && i < s.bytes.len() ==> #[trigger] t.bytes[i] == s.bytes[i]
        }),
{
    overlay_facts(s.bytes, s.pos as int, part);
    if part.len() == 0 && s.pos <= s.bytes.len() {
        assert(s.bytes.subrange(s.pos as int, s.pos as int) =~= part);
    }
}

/// A vector has no more elements than can be counted.
pub proof fn vec_fits<T>(v: Vec<T>)
    ensures
        v@.len() <= usize::MAX,
{
    assert(v.len() == v@.len());
}

impl Cursor {
    /// The bytes can be counted, and the position is one that there is.
    pub proof fn fits(&self)
        ensures
            self@.pos <= u64::MAX,
            self@.bytes.len() <= usize::MAX,
    {
        vec_fits(self.bytes);
    }

    /// What this holds, and where it stands.
    pub closed spec fn view(&self) -> StreamState {
        StreamState { bytes: self.bytes@, pos: self.pos as nat }
    }

    /// A stream over the given bytes that stands at its start.
    pub fn new(bytes: Vec<u8>) -> (c: Cursor)
        ensures
            c@ == (StreamState { bytes: bytes@, pos: 0 }),
    {
        Cursor { bytes, pos: 0 }
    }

    /// A stream with the same bytes that stands at the same position.
    pub fn duplicate(&self) -> (c: Cursor)
        ensures
            c@ == self@,
    {
        let bytes = self.bytes.clone();
        assert(bytes@ =~= self.bytes@);
        Cursor { bytes, pos: self.pos }
    }

    /// The bytes of the stream.
    pub fn get_ref(&self) -> (b: &Vec<u8>)
        ensures
            b@ == self@.bytes,
    {
        &self.bytes
    }

    /// The bytes of the stream.
    pub fn into_inner(self) -> (b: Vec<u8>)
        ensures
            b@ == self@.bytes,
    {
        self.bytes
    }

    /// Where the stream stands.
    pub fn stream_position(&self) -> (pos: u64)
        ensures
            pos == self@.pos,
    {
        self.pos
    }

    /// The number of bytes of the stream.
    pub fn len(&self) -> (n: usize)
        ensures
            n == self@.bytes.len(),
    {
        self.bytes.len()
    }

    /// Moves to a position, which may be beyond the end.
    pub fn seek(&mut self, to: SeekFrom) -> (r: ZipResult<u64>)
        ensures
            final(self)@.bytes == old(self)@.bytes,
            match r {
                Ok(pos) => {
                    &&& 0 <= old(self)@.target(to) <= u64::MAX
                    &&& final(self)@.pos == old(self)@.target(to)
                    &&& pos == final(self)@.pos
                },
                Err(e) => {
                    &&& !(0 <= old(self)@.target(to) <= u64::MAX)
                    &&& final(self)@ == old(self)@
                    &&& e == bad_seek()
                },
            },
    {
        let target: i128 = match to {
            SeekFrom::Start(n) => n as i128,
            SeekFrom::End(n) => self.bytes.len() as i128 + n as i128,
            SeekFrom::Current(n) => self.pos as i128 + n as i128,
        };
        if target < 0 || target > u64::MAX as i128 {
            Err(
                ZipError::Io(
                    IoError::Simple(
                        ErrorKind::InvalidInput,
                        "invalid seek to a negative or overflowing position",
                    ),
                ),
            )
        } else {
            self.pos = target as u64;
            Ok(self.pos)
        }
    }

    /// Moves to a position, which may be beyond the end.
    pub fn seek_start(&mut self, pos: u64)
        ensures
            final(self)@ == (StreamState { bytes: old(self)@.bytes, pos: pos as nat }),
    {
        self.pos = pos;
    }

    /// Reads up to `n` bytes.
    pub fn read(&mut self, n: usize) -> (out: Vec<u8>)
        ensures
            final(self)@.bytes == old(self)@.bytes,
            final(self)@.pos == old(self)@.pos + out@.len(),
            out@.len() == old(self)@.available(n as int),
            out@.len() > 0 ==> out@ == old(self)@.bytes.subrange(
                old(self)@.pos as int,
                (old(self)@.pos + out@.len()) as int,
            ),
    {
        if self.pos >= self.bytes.len() as u64 {
            return Vec::new();
        }
        let start: usize = self.pos as usize;
        let left: usize = self.bytes.len() - start;
        let count: usize = if n > left {
            left
        } else {
            n
        };
        let out = vstd::slice::slice_to_vec(
            vstd::slice::slice_subrange(self.bytes.as_slice(), start, start + count),
        );
        self.pos = self.pos + count as u64;
        out
    }

    /// Writes where the stream stands.
    pub fn write_all(&mut self, part: &[u8])
        ensures
            final(self)@ == old(self)@.written(part@),
    {
        let ghost before = self@;
        while (self.bytes.len() as u64) < self.pos
            invariant
                self.pos == before.pos,
                before.bytes.len() <= self.bytes@.len(),
                self.bytes@.len() <= before.pos || self.bytes@ == before.bytes,
                self.bytes@ == before.bytes + Seq::new(
                    (self.bytes@.len() - before.bytes.len()) as nat,
                    |i: int| 0u8,
                ),
            decreases self.pos - self.bytes@.len(),
        {
            self.bytes.push(0);
        }
        assert(self.pos <= self.bytes.len());
        let start: usize = self.pos as usize;
        let mut i: usize = 0;
        proof {
            overlay_facts(before.bytes, before.pos as int, part@.take(0));
            assert(overlay(before.bytes, before.pos as int, part@.take(0)) =~= self.bytes@);
        }
        while i < part.len()
            invariant
                i <= part.len(),
                before.pos == start,
                start + i <= self.bytes.len(),
                self.bytes@ == overlay(before.bytes, before.pos as int, part@.take(i as int)),
                self.pos == before.pos,
            decreases part.len() - i,
        {
            proof {
                overlay_facts(before.bytes, before.pos as int, part@.take(i as int));
                overlay_facts(before.bytes, before.pos as int, part@.take(i + 1));
            }
            if start + i < self.bytes.len() {
                self.bytes.set(start + i, part[i]);
            } else {
                self.bytes.push(part[i]);
            }
            assert(self.bytes@ =~= overlay(before.bytes, before.pos as int, part@.take(i + 1)));
            i += 1;
        }
        assert(part@.take(part@.len() as int) == part@);
        self.pos = (start + i) as u64;
    }

    /// Writes where the stream stands, if there is anything to write.
    pub fn extend(&mut self, part: &[u8])
        ensures
            final(self)@ == old(self)@.extended(part@),
    {
        if part.len() > 0 {
            self.write_all(part);
        }
    }
}

/// What stays the same of a stream when bytes are read from it: its bytes, and which of
/// them may be read.
#[verifier::ext_equal]
pub ghost struct Root {
    pub bytes: Seq<u8>,
    pub first: int,
    pub limit: Option<nat>,
}

/// Something that bytes are read from.
pub trait Readable: Sized {
    /// The bytes that are left.
    spec fn rest(&self) -> Seq<u8>;

    /// What stays the same.
    spec fn root(&self) -> Root;

    /// Where the underlying stream stands.
    spec fn position(&self) -> nat;

    /// Whether the parts fit together.
    spec fn ready(&self) -> bool;

    /// Reads up to `n` bytes, as many as there are.
    fn read_some(&mut self, n: usize) -> (out: Vec<u8>)
        requires
            old(self).ready(),
        ensures
            final(self).ready(),
            final(self).root() == old(self).root(),
            final(self).position() == old(self).position() + out@.len(),
            out@ + final(self).rest() == old(self).rest(),
            out@.len() == if n < old(self).rest().len() {
                n as nat
            } else {
                old(self).rest().len()
            },
    ;

    /// Reads all that is left.
    fn read_all(&mut self) -> (out: Vec<u8>)
        requires
            old(self).ready(),
        ensures
            final(self).ready(),
            final(self).root() == old(self).root(),
            final(self).position() == old(self).position() + out@.len(),
            out@ == old(self).rest(),
            final(self).rest() == Seq::<u8>::empty(),
    ;
}

impl Readable for Cursor {
    open spec fn rest(&self) -> Seq<u8> {
        if self@.pos < self@.bytes.len() {
            self@.bytes.skip(self@.pos as int)
        } else {
            Seq::empty()
        }
    }

    open spec fn root(&self) -> Root {
        Root { bytes: self@.bytes, first: 0, limit: None }
    }

    open spec fn position(&self) -> nat {
        self@.pos
    }

    open spec fn ready(&self) -> bool {
        true
    }

    fn read_some(&mut self, n: usize) -> (out: Vec<u8>) {
        let out = self.read(n);
        assert(out@ + self.rest() =~= old(self).rest());
        out
    }

    fn read_all(&mut self) -> (out: Vec<u8>) {
        let n: usize = self.len();
        let out = self.read_some(n);
        assert(out@ =~= old(self).rest());
        assert(self.rest() =~= Seq::empty());
        out
    }
}

/// Where seeks lead: from the start, by as much as is asked for; from the end and from where the
/// stream stands, as much further along, or back. What there is to be read is what comes after
/// where the stream stands, and no more than was asked for.
pub proof fn seeks_and_reads(s: StreamState, n: u64, d: i64, k: int)
    requires
        0 <= k,
    ensures
        s.target(SeekFrom::Start(n)) == n,
        s.target(SeekFrom::End(d)) - s.bytes.len() == d,
        s.target(SeekFrom::Current(d)) - s.pos == d,
        0 <= s.available(k) <= k,
        s.pos <= s.bytes.len() ==> s.pos + s.available(k) <= s.bytes.len(),
        s.pos >= s.bytes.len() ==> s.available(k) == 0,
        s.available(k) < k && s.pos <= s.bytes.len() ==> s.pos + s.available(k) == s.bytes.len(),
{
}

} // verus!
