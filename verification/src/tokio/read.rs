//! Reading archives, where what is read may be shared and streamed.
use std::ops::Range;
use vstd::prelude::*;

use crate::bytes::{u16_at, u32_at};
use crate::codec::{corrupt, unpacked};
use crate::compression::CompressionMethod;
use crate::crc32::crc32_of;
use crate::path::is_enclosed;
use crate::read::{
    archive_of, contents_of, data_start_at, find_data_start, limited, records, take_limited,
    ArchiveRecord, Directory,
};
use crate::result::{other, ZipError, ZipResult};
use crate::stream::{Cursor, Readable};
use crate::tokio::buf_reader::{followed, BufReader};
use crate::tokio::combinators::Limiter;
use crate::tokio::crc32::{inflating, Checked, Crc32Reader, Feed, Left};
use crate::tokio::index::Names;
use crate::tokio::stream_impls::deflate::{Inflater, Inflow, Reader};
use crate::tokio::stream_impls::state::inflated_in;
use crate::tokio::write::{all_moved, moved, too_far};
use crate::tokio::WrappedPin;
use crate::types::{FileRecord, ZipFileData};

verus! {

/// Whether no two files have the same name.
pub open spec fn distinct_names(files: Seq<FileRecord>) -> bool {
    forall|i: int, j: int|
        0 <= i < j < files.len() ==> (#[trigger] files[i]).file_name != (
        #[trigger] files[j]).file_name
}

/// The number of the file of a name.
pub open spec fn number_of(files: Seq<FileRecord>, name: Seq<char>, i: int) -> bool {
    0 <= i < files.len() && files[i].file_name == name
}

/// Whether each name of a file has the number of that file, and no other name
/// has any.
pub open spec fn numbers_files(names: Map<Seq<char>, usize>, files: Seq<FileRecord>) -> bool {
    &&& forall|name: Seq<char>, i: int| #[trigger]
        number_of(files, name, i) ==> names.contains_key(name) && names[name] == i
    &&& forall|name: Seq<char>| #[trigger]
        names.contains_key(name) ==> exists|i: int| #[trigger] number_of(files, name, i)
}

/// Gives each name its number, unless a name occurs twice.
fn number_names(files: &Vec<ZipFileData>) -> (r: Option<Names>)
    ensures
        match r {
            Some(names) => distinct_names(records(files@)) && numbers_files(
                names@,
                records(files@),
            ),
            None => !distinct_names(records(files@)),
        },
{
    let mut names = Names::with_capacity(files.len());
    let mut i: usize = 0;
    let ghost all = records(files@);
    while i < files.len()
        invariant
            i <= files.len(),
            all == records(files@),
            numbers_files(names@, all.take(i as int)),
            distinct_names(all.take(i as int)),
        decreases files.len() - i,
    {
        let ghost before = names@;
        let ghost shorter = all.take(i as int);
        assert(all[i as int] == files@[i as int]@);
        if names.insert(files[i].file_name.clone(), i).is_some() {
            proof {
                let j = choose|j: int| #[trigger]
                    number_of(shorter, all[i as int].file_name, j);
                assert(all[j].file_name == shorter[j].file_name);
                assert(!distinct_names(all));
            }
            return None;
        }
        proof {
            let longer = all.take(i + 1);
            assert(forall|j: int| 0 <= j < i ==> #[trigger] longer[j] == shorter[j]);
            assert forall|a: int, b: int| 0 <= a < b < i + 1 implies (
            #[trigger] longer[a]).file_name != (#[trigger] longer[b]).file_name by {
                if b < i {
                    assert(shorter[a].file_name != shorter[b].file_name);
                } else {
                    assert(number_of(shorter, shorter[a].file_name, a));
                }
            }
            assert forall|name: Seq<char>, j: int| #[trigger]
                number_of(longer, name, j) implies names@.contains_key(name) && names@[name]
                == j by {
                if j < i {
                    assert(number_of(shorter, name, j));
                    assert(longer[j].file_name != longer[i as int].file_name);
                }
            }
            assert forall|name: Seq<char>| #[trigger] names@.contains_key(name) implies exists|
                j: int,
            | #[trigger] number_of(longer, name, j) by {
                if name == all[i as int].file_name {
                    assert(number_of(longer, name, i as int));
                } else {
                    assert(before.contains_key(name));
                    let j = choose|j: int| #[trigger] number_of(shorter, name, j);
                    assert(number_of(longer, name, j));
                }
            }
        }
        i += 1;
    }
    assert(all.take(all.len() as int) =~= all);
    Some(names)
}

/// What an archive, or a part of it, tells of its entries.
pub trait SharedData {
    /// The entries.
    spec fn entries(&self) -> Seq<FileRecord>;

    /// Where the entries are.
    spec fn spec_content_range(&self) -> (u64, u64);

    /// The comment of the archive.
    spec fn spec_comment(&self) -> Seq<u8>;

    /// How many entries there are.
    fn len(&self) -> (n: usize)
        ensures
            n == self.entries().len(),
    {
        self.contiguous_entries().len()
    }

    /// Whether there are no entries.
    fn is_empty(&self) -> (r: bool)
        ensures
            r == (self.entries().len() == 0),
    {
        self.len() == 0
    }

    /// Where the entries are.
    fn content_range(&self) -> (r: Range<u64>)
        ensures
            (r.start, r.end) == self.spec_content_range(),
    ;

    /// The comment of the archive.
    fn comment(&self) -> (r: &[u8])
        ensures
            r@ == self.spec_comment(),
    ;

    /// The entries, in the order of their headers.
    fn contiguous_entries(&self) -> (r: &[ZipFileData])
        ensures
            records(r@) == self.entries(),
    ;
}

/// What an archive says of itself, without the means to read any of it.
pub struct Shared {
    files: Vec<ZipFileData>,
    names: Names,
    offset: u64,
    directory_start: u64,
    comment: Vec<u8>,
}

impl SharedData for Shared {
    open spec fn entries(&self) -> Seq<FileRecord> {
        self@.files
    }

    open spec fn spec_content_range(&self) -> (u64, u64) {
        (self@.offset, self@.directory_start)
    }

    open spec fn spec_comment(&self) -> Seq<u8> {
        self@.comment
    }

    fn content_range(&self) -> (r: Range<u64>) {
        Range { start: self.offset(), end: self.directory_start() }
    }

    fn comment(&self) -> (r: &[u8]) {
        self.comment.as_slice()
    }

    fn contiguous_entries(&self) -> (r: &[ZipFileData]) {
        let r = self.files.as_slice();
        assert(self.entries() == self@.files);
        assert(records(r@) =~= self@.files);
        r
    }
}

impl Shared {
    #[verifier::type_invariant]
    spec fn holds(self) -> bool {
        &&& distinct_names(records(self.files@))
        &&& numbers_files(self.names@, records(self.files@))
    }

    /// What the archive says of itself.
    pub closed spec fn view(&self) -> ArchiveRecord {
        ArchiveRecord {
            files: records(self.files@),
            offset: self.offset,
            directory_start: self.directory_start,
            comment: self.comment@,
        }
    }

    /// How far everything is shifted from where the end record places it.
    pub fn offset(&self) -> (r: u64)
        ensures
            r == self@.offset,
    {
        self.offset
    }

    /// Where the central headers start.
    pub fn directory_start(&self) -> (r: u64)
        ensures
            r == self@.directory_start,
    {
        self.directory_start
    }

    /// The names of the files, in the order of their headers.
    pub fn file_names(&self) -> (names: Vec<&str>)
        ensures
            names@.len() == self@.files.len(),
            forall|i: int|
                0 <= i < names@.len() ==> (#[trigger] names@[i])@ == self@.files[i].file_name,
    {
        let mut names: Vec<&str> = Vec::new();
        let mut i: usize = 0;
        while i < self.files.len()
            invariant
                i <= self.files.len(),
                names@.len() == i,
                self@.files == records(self.files@),
                forall|j: int| 0 <= j < i ==> (#[trigger] names@[j])@ == self@.files[j].file_name,
            decreases self.files.len() - i,
        {
            names.push(self.files[i].file_name.as_str());
            i += 1;
        }
        names
    }

    /// The number of the file of a name.
    pub fn index_of(&self, name: &str) -> (r: Option<usize>)
        ensures
            match r {
                Some(i) => number_of(self@.files, name@, i as int),
                None => forall|i: int| !#[trigger] number_of(self@.files, name@, i),
            },
    {
        proof {
            use_type_invariant(self);
        }
        self.names.get(name)
    }

    /// What is shared of an archive, unless two of its files have the same name.
    pub fn from_directory(directory: Directory) -> (r: Option<Shared>)
        ensures
            match r {
                Some(shared) => shared@ == directory@ && distinct_names(directory@.files),
                None => !distinct_names(directory@.files),
            },
    {
        match number_names(&directory.files) {
            None => None,
            Some(names) => Some(
                Shared {
                    files: directory.files,
                    names,
                    offset: directory.offset,
                    directory_start: directory.directory_start,
                    comment: directory.comment,
                },
            ),
        }
    }

    /// Reads what an archive says of itself, and hands the reader back. No two
    /// files of the archive may have the same name.
    pub fn parse(reader: Cursor) -> (r: ZipResult<(Shared, Cursor)>)
        requires
            archive_of(reader@.bytes, false) matches Ok(archive) ==> distinct_names(archive.files),
        ensures
            match r {
                Ok((shared, back)) => {
                    &&& archive_of(reader@.bytes, false) == Ok::<ArchiveRecord, ZipError>(shared@)
                    &&& back == reader
                },
                Err(e) => archive_of(reader@.bytes, false) == Err::<ArchiveRecord, ZipError>(e),
            },
    {
        match Directory::load(reader.get_ref().as_slice(), false) {
            Err(e) => Err(e),
            Ok(directory) => match Shared::from_directory(directory) {
                Some(shared) => Ok((shared, reader)),
                None => vstd::pervasive::unreached(),
            },
        }
    }

    /// Reads what an archive says of itself; `None`, if two of its files have the
    /// same name.
    pub fn parse_checked(reader: Cursor) -> (r: ZipResult<Option<(Shared, Cursor)>>)
        ensures
            match r {
                Ok(Some((shared, back))) => {
                    &&& archive_of(reader@.bytes, false) == Ok::<ArchiveRecord, ZipError>(shared@)
                    &&& distinct_names(shared@.files)
                    &&& back == reader
                },
                Ok(None) => archive_of(reader@.bytes, false) matches Ok(archive)
                    && !distinct_names(archive.files),
                Err(e) => archive_of(reader@.bytes, false) == Err::<ArchiveRecord, ZipError>(e),
            },
    {
        match Directory::load(reader.get_ref().as_slice(), false) {
            Err(e) => Err(e),
            Ok(directory) => match Shared::from_directory(directory) {
                Some(shared) => Ok(Some((shared, reader))),
                None => Ok(None),
            },
        }
    }
}

/// Reads all that a limited stream still has.
pub fn drain(s: &mut Limiter<Cursor>) -> (out: Vec<u8>)
    requires
        old(s).wf(),
    ensures
        final(s).wf(),
        out@ == old(s).rest(),
        final(s).max_len == old(s).max_len,
        final(s).source_stream@.bytes == old(s).source_stream@.bytes,
        final(s).source_stream@.pos == old(s).source_stream@.pos + out@.len(),
{
    let n: usize = s.remaining_len();
    let out = s.read(n);
    assert(out@ =~= old(s).rest());
    out
}

/// Seeks to the contents of a file, and notes where they begin. What is read
/// then ends where the contents do.
pub fn find_content(data: &mut ZipFileData, reader: Cursor) -> (r: ZipResult<Limiter<Cursor>>)
    ensures
        match r {
            Ok(stream) => {
                &&& data_start_at(reader@.bytes, old(data)@.header_start as int) == Ok::<
                    int,
                    ZipError,
                >(stream.source_stream@.pos as int)
                &&& stream.wf()
                &&& stream.source_stream@.bytes == reader@.bytes
                &&& stream.max_len == old(data)@.compressed_size as usize
                &&& stream.internal_pos == 0
                &&& final(data)@ == (FileRecord {
                    data_start: stream.source_stream@.pos as u64,
                    ..old(data)@
                })
            },
            Err(e) => {
                &&& data_start_at(reader@.bytes, old(data)@.header_start as int) == Err::<
                    int,
                    ZipError,
                >(e)
                &&& final(data)@ == old(data)@
            },
        },
{
    let mut reader = reader;
    match find_data_start(reader.get_ref().as_slice(), data.header_start) {
        Err(e) => Err(e),
        Ok(data_start) => {
            data.data_start = data_start;
            reader.seek_start(data_start);
            Ok(Limiter::take(reader, #[verifier::truncate] (data.compressed_size as usize)))
        },
    }
}

/// Something that reads the contents of a file, given a stream of the bytes that
/// are stored for it.
pub trait ReaderWrapper<S>: Sized {
    /// Whether this can read the contents of a file.
    spec fn accepts(data: FileRecord, s: S) -> bool;

    /// What it is to be made for a file.
    spec fn made(data: FileRecord, s: S, r: Self) -> bool;

    /// Reads the contents of a file.
    fn construct(data: &ZipFileData, s: S) -> (r: Self)
        requires
            Self::accepts(data@, s),
        ensures
            Self::made(data@, s, r),
    ;
}

/// Reads bytes as they are.
pub struct StoredReader<S> {
    reader: Crc32Reader<S>,
}

impl<S: Feed> StoredReader<S> {
    /// What was read and what is left.
    pub closed spec fn state(&self) -> Checked {
        self.reader@
    }

    /// Whether the parts fit together.
    pub open spec fn ready(&self) -> bool {
        self.wrapped().ready()
    }

    /// Reads up to `n` bytes.
    pub fn read(&mut self, n: usize) -> (r: ZipResult<Vec<u8>>)
        requires
            old(self).ready(),
        ensures
            final(self).ready(),
            final(self).state() == old(self).state().read(n as nat).1,
            final(self).wrapped().origin() == old(self).wrapped().origin(),
            final(self).wrapped().left() == final(self).state().left,
            match r {
                Ok(out) => old(self).state().read(n as nat).0 == Ok::<Seq<u8>, ZipError>(out@),
                Err(e) => old(self).state().read(n as nat).0 == Err::<Seq<u8>, ZipError>(e),
            },
    {
        self.reader.read(n)
    }

    /// Reads all that is left, and checks the checksum.
    pub fn read_to_end(&mut self) -> (r: ZipResult<Vec<u8>>)
        requires
            old(self).ready(),
            old(self).state().left is Bytes,
        ensures
            final(self).ready(),
            final(self).wrapped().origin() == old(self).wrapped().origin(),
            match r {
                Ok(out) => old(self).state().rest() == Ok::<Seq<u8>, ZipError>(out@),
                Err(e) => old(self).state().rest() == Err::<Seq<u8>, ZipError>(e),
            },
    {
        self.reader.read_pieces()
    }
}

impl<S> WrappedPin<S> for StoredReader<S> {
    closed spec fn wrapped(&self) -> S {
        self.reader.wrapped()
    }

    fn unwrap_inner_pin(self) -> (r: S) {
        self.reader.unwrap_inner_pin()
    }
}

impl ReaderWrapper<Limiter<Cursor>> for StoredReader<Limiter<Cursor>> {
    open spec fn accepts(data: FileRecord, s: Limiter<Cursor>) -> bool {
        s.wf()
    }

    open spec fn made(data: FileRecord, s: Limiter<Cursor>, r: Self) -> bool {
        &&& r.ready()
        &&& r.state() == (Checked {
            left: Left::Bytes(s.rest()),
            seen: Seq::empty(),
            check: data.crc32,
            ae2_encrypted: false,
        })
        &&& r.wrapped() == s
    }

    fn construct(data: &ZipFileData, s: Limiter<Cursor>) -> (r: Self) {
        StoredReader { reader: Crc32Reader::new(s, data.crc32, false) }
    }
}

/// Reads bytes that Deflate packed.
pub struct DeflateReader<S> {
    reader: Crc32Reader<Reader<Inflater, BufReader<S>>>,
}

impl<S: Readable> DeflateReader<S> {
    /// What was read and what is left.
    pub closed spec fn state(&self) -> Checked {
        self.reader@
    }

    /// Whether the parts fit together.
    pub closed spec fn ready(&self) -> bool {
        self.reader.ready()
    }

    /// Whether what was read so far comes from all of `packed`.
    pub closed spec fn tells(&self, packed: Seq<u8>) -> bool {
        self.reader.wrapped().tells(packed, self.reader@.seen)
    }

    /// Reads up to `n` bytes.
    pub fn read(&mut self, n: usize) -> (r: ZipResult<Vec<u8>>)
        requires
            old(self).ready(),
        ensures
            final(self).ready(),
            final(self).state() == old(self).state().read(n as nat).1,
            followed(old(self).wrapped(), final(self).wrapped()),
            final(self).state().left is Whole || final(self).state().left is Packed,
            final(self).state().left matches Left::Packed(inflow) ==> final(self).wrapped().rest()
                == inflow.rest,
            match r {
                Ok(out) => old(self).state().read(n as nat).0 == Ok::<Seq<u8>, ZipError>(out@),
                Err(e) => old(self).state().read(n as nat).0 == Err::<Seq<u8>, ZipError>(e),
            },
            forall|packed: Seq<u8>|
                r is Ok && #[trigger] old(self).tells(packed) ==> final(self).tells(packed),
    {
        self.reader.read(n)
    }

    /// Reads all that is left, and checks the checksum.
    pub fn read_to_end(&mut self) -> (r: ZipResult<Vec<u8>>)
        requires
            old(self).ready(),
        ensures
            final(self).ready(),
            followed(old(self).wrapped(), final(self).wrapped()),
            match r {
                Ok(out) => old(self).state().rest() == Ok::<Seq<u8>, ZipError>(out@),
                Err(e) => old(self).state().rest() == Err::<Seq<u8>, ZipError>(e),
            },
    {
        self.reader.read_to_end()
    }
}

impl<S> WrappedPin<S> for DeflateReader<S> {
    closed spec fn wrapped(&self) -> S {
        self.reader.wrapped().wrapped().reader()
    }

    fn unwrap_inner_pin(self) -> (r: S) {
        self.reader.unwrap_inner_pin().unwrap_inner_pin().unwrap_inner_pin()
    }
}

impl ReaderWrapper<Limiter<Cursor>> for DeflateReader<Limiter<Cursor>> {
    open spec fn accepts(data: FileRecord, s: Limiter<Cursor>) -> bool {
        s.wf()
    }

    open spec fn made(data: FileRecord, s: Limiter<Cursor>, r: Self) -> bool {
        &&& r.ready()
        &&& r.tells(s.rest())
        &&& r.state() == (Checked {
            left: Left::Whole(s.rest()),
            seen: Seq::empty(),
            check: data.crc32,
            ae2_encrypted: false,
        })
        &&& r.wrapped() == s
    }

    fn construct(data: &ZipFileData, s: Limiter<Cursor>) -> (r: Self) {
        DeflateReader { reader: Crc32Reader::new(inflating(s), data.crc32, false) }
    }
}

/// Reads the contents of a file, by the way in which they are stored.
pub enum ZipFileWrappedReader<S> {
    Stored(StoredReader<S>),
    Deflated(DeflateReader<S>),
}

impl ZipFileWrappedReader<Limiter<Cursor>> {
    /// What was read and what is left.
    pub open spec fn state(&self) -> Checked {
        match self {
            ZipFileWrappedReader::Stored(r) => r.state(),
            ZipFileWrappedReader::Deflated(r) => r.state(),
        }
    }

    /// Whether the parts fit together.
    pub open spec fn ready(&self) -> bool {
        match self {
            ZipFileWrappedReader::Stored(r) => r.ready() && r.state().left is Bytes,
            ZipFileWrappedReader::Deflated(r) => r.ready(),
        }
    }

    /// Whether what was read so far comes from all of `packed`.
    pub open spec fn tells(&self, packed: Seq<u8>) -> bool {
        match self {
            ZipFileWrappedReader::Stored(r) => r.state().left matches Left::Bytes(left)
                && r.state().seen + left == packed,
            ZipFileWrappedReader::Deflated(r) => r.tells(packed),
        }
    }

    /// The stream of the bytes that are stored.
    pub open spec fn stream(&self) -> Limiter<Cursor> {
        match self {
            ZipFileWrappedReader::Stored(r) => r.wrapped(),
            ZipFileWrappedReader::Deflated(r) => r.wrapped(),
        }
    }

    /// Reads up to `n` bytes.
    pub fn read(&mut self, n: usize) -> (r: ZipResult<Vec<u8>>)
        requires
            old(self).ready(),
        ensures
            final(self).ready(),
            final(self).state() == old(self).state().read(n as nat).1,
            followed(old(self).stream(), final(self).stream()),
            match final(self).state().left {
                Left::Bytes(left) => final(self).stream().rest() == left,
                Left::Packed(inflow) => final(self).stream().rest() == inflow.rest,
                _ => true,
            },
            match r {
                Ok(out) => old(self).state().read(n as nat).0 == Ok::<Seq<u8>, ZipError>(out@),
                Err(e) => old(self).state().read(n as nat).0 == Err::<Seq<u8>, ZipError>(e),
            },
            forall|packed: Seq<u8>|
                r is Ok && #[trigger] old(self).tells(packed) ==> final(self).tells(packed),
    {
        match self {
            ZipFileWrappedReader::Stored(r) => {
                let ghost was = r.state();
                let got = r.read(n);
                proof {
                    let bytes = was.left->Bytes_0;
                    assert(bytes.take(0) + bytes.skip(0) =~= bytes);
                    if got is Ok {
                        let left = r.state().left->Bytes_0;
                        assert(r.state().seen + left =~= was.seen + bytes);
                    }
                }
                got
            },
            ZipFileWrappedReader::Deflated(r) => r.read(n),
        }
    }

    /// Reads all that is left, and checks the checksum.
    pub fn read_to_end(&mut self) -> (r: ZipResult<Vec<u8>>)
        requires
            old(self).ready(),
        ensures
            followed(old(self).stream(), final(self).stream()),
            match r {
                Ok(out) => old(self).state().rest() == Ok::<Seq<u8>, ZipError>(out@),
                Err(e) => old(self).state().rest() == Err::<Seq<u8>, ZipError>(e),
            },
    {
        match self {
            ZipFileWrappedReader::Stored(r) => r.read_to_end(),
            ZipFileWrappedReader::Deflated(r) => r.read_to_end(),
        }
    }
}

impl WrappedPin<Cursor> for ZipFileWrappedReader<Limiter<Cursor>> {
    open spec fn wrapped(&self) -> Cursor {
        self.stream().source_stream
    }

    fn unwrap_inner_pin(self) -> (r: Cursor) {
        match self {
            ZipFileWrappedReader::Stored(r) => r.unwrap_inner_pin().unwrap_inner_pin(),
            ZipFileWrappedReader::Deflated(r) => r.unwrap_inner_pin().unwrap_inner_pin(),
        }
    }
}

impl ReaderWrapper<Limiter<Cursor>> for ZipFileWrappedReader<Limiter<Cursor>> {
    open spec fn accepts(data: FileRecord, s: Limiter<Cursor>) -> bool {
        s.wf() && (data.compression_method is Stored || data.compression_method is Deflated)
    }

    open spec fn made(data: FileRecord, s: Limiter<Cursor>, r: Self) -> bool {
        &&& r is Stored <==> data.compression_method is Stored
        &&& r.ready()
        &&& r.tells(s.rest())
        &&& r.state().rest() == streamed_contents_of(data, s.rest())
        &&& r.state().seen.len() == 0
        &&& !(r.state().left is Packed)
        &&& r.stream() == s
    }

    fn construct(data: &ZipFileData, s: Limiter<Cursor>) -> (r: Self) {
        let ghost packed = s.rest();
        proof {
            assert(Seq::<u8>::empty() + packed =~= packed);
            if let Some(plain) = unpacked(data@.compression_method, packed) {
                assert(Seq::<u8>::empty() + plain =~= plain);
            }
        }
        match data.compression_method {
            CompressionMethod::Stored => ZipFileWrappedReader::Stored(
                StoredReader::construct(data, s),
            ),
            CompressionMethod::Deflated => ZipFileWrappedReader::Deflated(
                DeflateReader::construct(data, s),
            ),
            _ => vstd::pervasive::unreached(),
        }
    }
}

/// What the contents of a file are, given the bytes that are stored for it. That a Deflate
/// stream ends too early is not minded: the checksum tells.
pub open spec fn streamed_contents_of(f: FileRecord, packed: Seq<u8>) -> ZipResult<Seq<u8>> {
    match unpacked(f.compression_method, packed) {
        None => Err(corrupt(f.compression_method)),
        Some(plain) => if crc32_of(plain) == f.crc32 {
            Ok(plain)
        } else {
            Err(other("Invalid checksum"))
        },
    }
}

/// Contents that can be read as a whole stream come out the same where an early end is not
/// minded.
pub proof fn whole_streams_read_alike(f: FileRecord, packed: Seq<u8>)
    requires
        contents_of(f, packed) is Ok,
    ensures
        streamed_contents_of(f, packed) == contents_of(f, packed),
{
}

/// Packed bytes that are read up to the end of their stream, and hold nothing more, come
/// out as a decoder gets them, in however many reads.
pub proof fn pieces_are_the_contents(inflow: Inflow, packed: Seq<u8>, seen: Seq<u8>)
    requires
        inflow.tells(packed, seen),
        inflow.ended(),
        inflow.buffered.len() == 0,
        inflow.rest.len() == 0,
    ensures
        unpacked(CompressionMethod::Deflated, packed) == Some(seen),
{
    assert(inflow.whole() =~= inflated_in(inflow.steps));
}

/// An archive in which the place of the contents of a file is noted.
pub open spec fn data_start_noted(archive: ArchiveRecord, i: int, data_start: u64) -> ArchiveRecord {
    ArchiveRecord {
        files: archive.files.update(i, FileRecord { data_start, ..archive.files[i] }),
        ..archive
    }
}

impl Shared {
    /// A copy of what is known of a file.
    fn entry(&self, i: usize) -> (r: ZipFileData)
        requires
            i < self@.files.len(),
        ensures
            r@ == self@.files[i as int],
    {
        self.files[i].clone()
    }

    /// Notes where the contents of a file begin.
    fn note_data_start(&mut self, i: usize, data: &ZipFileData)
        requires
            i < old(self)@.files.len(),
            data@ == (FileRecord {
                data_start: data@.data_start,
                ..old(self)@.files[i as int]
            }),
        ensures
            final(self)@ == data_start_noted(old(self)@, i as int, data@.data_start),
    {
        proof {
            use_type_invariant(&*self);
        }
        let mut files: Vec<ZipFileData> = Vec::new();
        let mut j: usize = 0;
        let ghost noted = data_start_noted(self@, i as int, data@.data_start).files;
        while j < self.files.len()
            invariant
                j <= self.files.len(),
                i < self.files.len(),
                data@ == noted[i as int],
                noted == records(self.files@).update(i as int, data@),
                records(files@) == noted.take(j as int),
            decreases self.files.len() - j,
        {
            let ghost before = records(files@);
            if j == i {
                files.push(data.clone());
            } else {
                files.push(self.files[j].clone());
            }
            assert(records(files@) =~= before.push(noted[j as int]));
            assert(noted.take(j + 1) =~= noted.take(j as int).push(noted[j as int]));
            j += 1;
        }
        proof {
            assert(noted.take(noted.len() as int) =~= noted);
            let was = records(self.files@);
            assert(forall|a: int|
                0 <= a < noted.len() ==> (#[trigger] noted[a]).file_name == was[a].file_name);
            assert(forall|name: Seq<char>, a: int| #[trigger]
                number_of(noted, name, a) ==> number_of(was, name, a));
            assert forall|name: Seq<char>| #[trigger] self.names@.contains_key(
                name,
            ) implies exists|a: int| #[trigger] number_of(noted, name, a) by {
                let a = choose|a: int| #[trigger] number_of(was, name, a);
                assert(number_of(noted, name, a));
            }
        }
        self.files = files;
    }
}

/// A file of an archive that is being read.
pub struct ZipFile<R> {
    data: ZipFileData,
    wrapped_reader: R,
}

impl<R> ZipFile<R> {
    /// What the archive says of the file.
    pub closed spec fn view(&self) -> FileRecord {
        self.data@
    }

    /// What the file is read by.
    pub closed spec fn reader(&self) -> R {
        self.wrapped_reader
    }

    /// The name, if it leads to a place below the one it starts from.
    pub fn name(&self) -> (r: ZipResult<&str>)
        ensures
            match r {
                Ok(name) => is_enclosed(self@.file_name) && name@ == self@.file_name,
                Err(e) => !is_enclosed(self@.file_name) && e == ZipError::InvalidArchive(
                    "Invalid file path",
                ),
            },
    {
        match self.data.enclosed_name() {
            Some(name) => Ok(name),
            None => Err(ZipError::InvalidArchive("Invalid file path")),
        }
    }

    /// What the archive says of the file.
    pub fn data(&self) -> (r: &ZipFileData)
        ensures
            r@ == self@,
    {
        &self.data
    }

    /// What the file is read by.
    pub fn reader_mut(&mut self) -> (r: &mut R)
        ensures
            *r == old(self).reader(),
            final(self).reader() == *final(r),
            final(self)@ == old(self)@,
    {
        &mut self.wrapped_reader
    }

    /// Reads the contents of the file, instead of the bytes that are stored for
    /// it.
    pub fn decode_stream<T: ReaderWrapper<R>>(self) -> (r: ZipFile<T>)
        requires
            T::accepts(self@, self.reader()),
        ensures
            r@ == self@,
            T::made(self@, self.reader(), r.reader()),
    {
        let wrapped_reader = T::construct(&self.data, self.wrapped_reader);
        ZipFile { data: self.data, wrapped_reader }
    }
}

/// Whether a request for the bytes that are stored for a file is answered by
/// these.
pub open spec fn raw_found(b: Seq<u8>, f: FileRecord, file: ZipFile<Limiter<Cursor>>) -> bool {
    let s = file.reader();
    &&& data_start_at(b, f.header_start as int) == Ok::<int, ZipError>(s.source_stream@.pos as int)
    &&& file@ == (FileRecord { data_start: s.source_stream@.pos as u64, ..f })
    &&& s.wf()
    &&& s.source_stream@.bytes == b
    &&& s.max_len == f.compressed_size as usize
    &&& s.internal_pos == 0
}

/// Whether a request for the contents of a file is answered by these.
pub open spec fn decoded_found(
    b: Seq<u8>,
    f: FileRecord,
    file: ZipFile<ZipFileWrappedReader<Limiter<Cursor>>>,
) -> bool {
    let start = file@.data_start as int;
    &&& data_start_at(b, f.header_start as int) == Ok::<int, ZipError>(start)
    &&& file@ == (FileRecord { data_start: file@.data_start, ..f })
    &&& file.reader().state().rest() == streamed_contents_of(
        f,
        limited(b, start, (f.compressed_size as usize) as int),
    )
    &&& file.reader().state().seen.len() == 0
    &&& !(file.reader().state().left is Packed)
    &&& file.reader().ready()
    &&& file.reader().tells(limited(b, start, (f.compressed_size as usize) as int))
    &&& file.reader().wrapped()@.bytes == b
    &&& file.reader().wrapped()@.pos == start
}

/// An archive that files are read from, one at a time.
pub struct ZipArchive {
    reader: Option<Cursor>,
    shared: Shared,
}

impl WrappedPin<Cursor> for ZipArchive {
    open spec fn wrapped(&self) -> Cursor {
        self.reader()->0
    }

    /// There must be no file that is still being read.
    open spec fn unwrappable(&self) -> bool {
        self.reader() is Some
    }

    fn unwrap_inner_pin(self) -> (r: Cursor) {
        self.reader.unwrap()
    }
}

impl ZipArchive {
    /// What the archive says of itself.
    pub closed spec fn view(&self) -> ArchiveRecord {
        self.shared@
    }

    /// What the archive is read by, unless a file has it.
    pub closed spec fn reader(&self) -> Option<Cursor> {
        self.reader
    }

    /// Opens an archive, no two of whose files may have the same name.
    pub fn new(reader: Cursor) -> (r: ZipResult<ZipArchive>)
        requires
            archive_of(reader@.bytes, false) matches Ok(archive) ==> distinct_names(archive.files),
        ensures
            match r {
                Ok(archive) => {
                    &&& archive_of(reader@.bytes, false) == Ok::<ArchiveRecord, ZipError>(archive@)
                    &&& archive.reader() == Some(reader)
                },
                Err(e) => archive_of(reader@.bytes, false) == Err::<ArchiveRecord, ZipError>(e),
            },
    {
        match Shared::parse(reader) {
            Ok((shared, reader)) => Ok(ZipArchive { reader: Some(reader), shared }),
            Err(e) => Err(e),
        }
    }

    /// Opens an archive; `None`, if two of its files have the same name.
    pub fn new_checked(reader: Cursor) -> (r: ZipResult<Option<ZipArchive>>)
        ensures
            match r {
                Ok(Some(archive)) => {
                    &&& archive_of(reader@.bytes, false) == Ok::<ArchiveRecord, ZipError>(archive@)
                    &&& distinct_names(archive@.files)
                    &&& archive.reader() == Some(reader)
                },
                Ok(None) => archive_of(reader@.bytes, false) matches Ok(archive)
                    && !distinct_names(archive.files),
                Err(e) => archive_of(reader@.bytes, false) == Err::<ArchiveRecord, ZipError>(e),
            },
    {
        match Shared::parse_checked(reader) {
            Ok(Some((shared, reader))) => Ok(Some(ZipArchive { reader: Some(reader), shared })),
            Ok(None) => Ok(None),
            Err(e) => Err(e),
        }
    }

    /// An archive that was just written. It must have entries, no two of the same
    /// name.
    pub fn from_finalized_writer(
        files: Vec<ZipFileData>,
        comment: Vec<u8>,
        reader: Cursor,
        directory_start: u64,
    ) -> (r: ZipResult<ZipArchive>)
        requires
            distinct_names(records(files@)),
        ensures
            files@.len() == 0 ==> r == Err::<ZipArchive, ZipError>(
                ZipError::InvalidArchive("attempt to finalize empty zip writer into readable"),
            ),
            files@.len() > 0 ==> {
                &&& r matches Ok(archive)
                &&& archive@ == (ArchiveRecord {
                    files: records(files@),
                    offset: files@[0]@.header_start,
                    directory_start,
                    comment: comment@,
                })
                &&& archive.reader() == Some(reader)
            },
    {
        if files.len() == 0 {
            return Err(
                ZipError::InvalidArchive("attempt to finalize empty zip writer into readable"),
            );
        }
        // This is where the whole archive starts.
        let offset: u64 = files[0].header_start;
        match Shared::from_directory(Directory { files, offset, directory_start, comment }) {
            Some(shared) => Ok(ZipArchive { reader: Some(reader), shared }),
            None => vstd::pervasive::unreached(),
        }
    }

    /// Copies all that comes before the central headers into a stream. Returns the
    /// entries, as they are there.
    pub fn merge_contents(&mut self, writer: &mut Cursor) -> (r: ZipResult<Vec<ZipFileData>>)
        requires
            old(self).reader() is Some,
        ensures
            final(self)@ == old(self)@,
            final(self).reader() is Some,
            final(self).reader()->0@.bytes == old(self).reader()->0@.bytes,
            match r {
                Err(e) => {
                    &&& all_moved(old(self)@.files, old(writer)@.pos as u64) is None
                    &&& e == too_far()
                    &&& final(writer)@ == old(writer)@
                },
                Ok(files) => {
                    &&& all_moved(old(self)@.files, old(writer)@.pos as u64) == Some(
                        records(files@),
                    )
                    &&& forall|i: int|
                        0 <= i < files@.len() ==> (#[trigger] files@[i])@.last_modified_time.fits()
                    &&& final(writer)@ == if old(self)@.files.len() == 0 {
                        old(writer)@
                    } else {
                        old(writer)@.written(
                            limited(
                                old(self).reader()->0@.bytes,
                                0,
                                old(self)@.directory_start as int,
                            ),
                        )
                    }
                },
            },
    {
        let files = self.shared.contiguous_entries();
        let by: u64 = writer.stream_position();
        let mut new_files: Vec<ZipFileData> = Vec::new();
        let ghost all = self@.files;
        let mut i: usize = 0;
        assert(records(new_files@) =~= Seq::<FileRecord>::empty());
        assert(all.take(0) =~= Seq::<FileRecord>::empty());
        while i < files.len()
            invariant
                i <= files.len(),
                records(files@) == all,
                all == old(self)@.files,
                by == old(writer)@.pos,
                self@ == old(self)@,
                self.reader() == old(self).reader(),
                old(self).reader() is Some,
                writer@ == old(writer)@,
                all_moved(all.take(i as int), by) == Some(records(new_files@)),
                forall|j: int|
                    0 <= j < new_files@.len() ==> (
                    #[trigger] new_files@[j])@.last_modified_time.fits(),
            decreases files.len() - i,
        {
            let mut file = files[i].clone();
            let ghost before = records(new_files@);
            proof {
                assert(file@ == all[i as int]);
                assert(all.take(i + 1).drop_last() =~= all.take(i as int));
                assert(all.take(i + 1).last() == all[i as int]);
                if moved(all[i as int], by) is None {
                    not_all_moved(all, by, i as int);
                }
            }
            match (file.header_start.checked_add(by), file.data_start.checked_add(by)) {
                (Some(header_start), Some(data_start)) => {
                    file.header_start = header_start;
                    if file.data_start != 0 {
                        file.data_start = data_start;
                    }
                    file.central_header_start = 0;
                },
                _ => {
                    return Err(
                        ZipError::InvalidArchive(
                            "new header start from merge would have been too large",
                        ),
                    );
                },
            }
            let ghost f = file@;
            assert(moved(all[i as int], by) == Some(f));
            new_files.push(file);
            assert(records(new_files@) =~= before.push(f));
            i += 1;
        }
        assert(all.take(all.len() as int) =~= all);
        if files.len() == 0 {
            return Ok(new_files);
        }
        let reader = self.reader.take().unwrap();
        let contents = take_limited(
            reader.get_ref().as_slice(),
            0,
            self.shared.directory_start(),
        );
        writer.write_all(contents.as_slice());
        self.reader = Some(reader);
        Ok(new_files)
    }

    /// What is shared of the archive.
    pub fn shared(&self) -> (r: &Shared)
        ensures
            r@ == self@,
    {
        &self.shared
    }

    /// What is shared of the archive, which can no longer be read then.
    pub fn into_shared(self) -> (r: Shared)
        ensures
            r@ == self@,
    {
        self.shared
    }

    /// The bytes that are stored for a file, by its number. The file has the
    /// reader until it is given back; where its header is not as it should be,
    /// the reader is lost.
    pub fn by_index_raw(&mut self, index: usize) -> (r: ZipResult<ZipFile<Limiter<Cursor>>>)
        requires
            old(self).reader() is Some,
        ensures
            index >= old(self)@.files.len() ==> {
                &&& r == Err::<ZipFile<Limiter<Cursor>>, ZipError>(ZipError::FileNotFound)
                &&& final(self)@ == old(self)@
                &&& final(self).reader() == old(self).reader()
            },
            index < old(self)@.files.len() ==> {
                let b = old(self).reader()->0@.bytes;
                let f = old(self)@.files[index as int];
                &&& final(self).reader() is None
                &&& match r {
                    Ok(file) => {
                        &&& raw_found(b, f, file)
                        &&& final(self)@ == data_start_noted(
                            old(self)@,
                            index as int,
                            file@.data_start,
                        )
                    },
                    Err(e) => {
                        &&& data_start_at(b, f.header_start as int) == Err::<int, ZipError>(e)
                        &&& final(self)@ == old(self)@
                    },
                }
            },
    {
        if index >= self.shared.len() {
            return Err(ZipError::FileNotFound);
        }
        let mut data = self.shared.entry(index);
        let reader = self.reader.take().unwrap();
        match find_content(&mut data, reader) {
            Err(e) => Err(e),
            Ok(wrapped_reader) => {
                self.shared.note_data_start(index, &data);
                Ok(ZipFile { data, wrapped_reader })
            },
        }
    }

    /// The contents of a file, by its number. They must be stored as they are or
    /// packed with Deflate.
    pub fn by_index(&mut self, index: usize) -> (r: ZipResult<
        ZipFile<ZipFileWrappedReader<Limiter<Cursor>>>,
    >)
        requires
            old(self).reader() is Some,
            index < old(self)@.files.len() ==> streamable(old(self)@.files[index as int]),
        ensures
            index >= old(self)@.files.len() ==> {
                &&& r == Err::<ZipFile<ZipFileWrappedReader<Limiter<Cursor>>>, ZipError>(
                    ZipError::FileNotFound,
                )
                &&& final(self)@ == old(self)@
                &&& final(self).reader() == old(self).reader()
            },
            index < old(self)@.files.len() ==> answered(*old(self), index as int, r, *final(self)),
    {
        match self.by_index_raw(index) {
            Ok(raw) => Ok(raw.decode_stream()),
            Err(e) => Err(e),
        }
    }

    /// The contents of a file, by its name. They must be stored as they are or
    /// packed with Deflate.
    pub fn by_name(&mut self, name: &str) -> (r: ZipResult<
        ZipFile<ZipFileWrappedReader<Limiter<Cursor>>>,
    >)
        requires
            old(self).reader() is Some,
            forall|i: int| #[trigger]
                number_of(old(self)@.files, name@, i) ==> streamable(old(self)@.files[i]),
        ensures
            (forall|i: int| !#[trigger] number_of(old(self)@.files, name@, i)) ==> {
                &&& r == Err::<ZipFile<ZipFileWrappedReader<Limiter<Cursor>>>, ZipError>(
                    ZipError::FileNotFound,
                )
                &&& final(self)@ == old(self)@
                &&& final(self).reader() == old(self).reader()
            },
            (exists|i: int| #[trigger] number_of(old(self)@.files, name@, i)) ==> exists|i: int|
                #[trigger] number_of(old(self)@.files, name@, i) && answered(
                    *old(self),
                    i,
                    r,
                    *final(self),
                ),
    {
        match self.shared.index_of(name) {
            None => Err(ZipError::FileNotFound),
            Some(index) => self.by_index(index),
        }
    }

    /// Gives back the reader that a file has.
    pub fn give_back<R: WrappedPin<Cursor>>(&mut self, file: ZipFile<R>)
        requires
            file.reader().unwrappable(),
        ensures
            final(self)@ == old(self)@,
            final(self).reader() == Some(file.reader().wrapped()),
    {
        self.reader = Some(file.wrapped_reader.unwrap_inner_pin());
    }
}

/// Where one entry would be too far away, not all can be moved.
proof fn not_all_moved(files: Seq<FileRecord>, by: u64, i: int)
    requires
        0 <= i < files.len(),
        moved(files[i], by) is None,
    ensures
        all_moved(files, by) is None,
    decreases files.len(),
{
    if i < files.len() - 1 {
        not_all_moved(files.drop_last(), by, i);
    }
}

/// Whether the contents of a file can be streamed.
pub open spec fn streamable(f: FileRecord) -> bool {
    f.compression_method is Stored || f.compression_method is Deflated
}

/// What a request for the contents of a file of an archive is answered, and what
/// it leaves.
pub open spec fn answered(
    before: ZipArchive,
    index: int,
    r: ZipResult<ZipFile<ZipFileWrappedReader<Limiter<Cursor>>>>,
    after: ZipArchive,
) -> bool {
    let b = before.reader()->0@.bytes;
    let f = before@.files[index];
    &&& after.reader() is None
    &&& match r {
        Ok(file) => {
            &&& decoded_found(b, f, file)
            &&& after@ == data_start_noted(before@, index, file@.data_start)
        },
        Err(e) => {
            &&& data_start_at(b, f.header_start as int) == Err::<int, ZipError>(e)
            &&& after@ == before@
        },
    }
}

/// Contents that are read are those whose checksum is the one of the entry, and no others: where
/// they are stored as they are, they are the bytes that are stored.
pub proof fn streamed_contents_are_checked(f: FileRecord, packed: Seq<u8>)
    ensures
        streamed_contents_of(f, packed) matches Ok(plain) ==> crc32_of(plain) == f.crc32,
        f.compression_method is Stored && crc32_of(packed) == f.crc32 ==> streamed_contents_of(
            f,
            packed,
        ) == Ok::<Seq<u8>, ZipError>(packed),
        f.compression_method is Stored && crc32_of(packed) != f.crc32 ==> streamed_contents_of(
            f,
            packed,
        ) is Err,
{
}

/// To note where the contents of a file begin changes nothing else.
pub proof fn noted_and_nothing_else(archive: ArchiveRecord, i: int, data_start: u64)
    requires
        0 <= i < archive.files.len(),
    ensures
        ({
            let next = data_start_noted(archive, i, data_start);
            &&& next.comment == archive.comment
            &&& next.offset == archive.offset
            &&& next.directory_start == archive.directory_start
            &&& next.files.len() == archive.files.len()
            &&& next.files[i].data_start == data_start
            &&& next.files[i] == (FileRecord { data_start, ..archive.files[i] })
            &&& forall|j: int|
                0 <= j < archive.files.len() && j != i ==> #[trigger] next.files[j]
                    == archive.files[j]
        }),
{
}

/// The bytes that a file is answered with are those that follow its local header, as many as its
/// entry tells or as there are.
pub proof fn raw_answer_says(b: Seq<u8>, f: FileRecord, file: ZipFile<Limiter<Cursor>>)
    requires
        raw_found(b, f, file),
    ensures
        ({
            let start = f.header_start + 30 + u16_at(b, f.header_start + 26) + u16_at(
                b,
                f.header_start + 28,
            );
            &&& u32_at(b, f.header_start as int) == 0x04034b50
            &&& file@.data_start == start
            &&& file@ == (FileRecord { data_start: file@.data_start, ..f })
            &&& file.reader().rest() == limited(b, start, (f.compressed_size as usize) as int)
        }),
{
    let s = file.reader();
    assert(s.rest() =~= limited(b, s.source_stream@.pos as int, s.max_len as int));
}

/// What is shared of an archive tells its entries, its comment, and where its entries are: from
/// where the archive starts to its central headers.
pub proof fn shared_says(shared: Shared)
    ensures
        shared.entries() == shared@.files,
        shared.spec_comment() == shared@.comment,
        shared.spec_content_range().0 == shared@.offset,
        shared.spec_content_range().1 == shared@.directory_start,
{
}

/// The contents that a file is answered with are those of its entry, which stays as it is but that
/// where they begin is noted: the bytes that follow its local header, unpacked and checked.
pub proof fn answer_says(
    b: Seq<u8>,
    f: FileRecord,
    file: ZipFile<ZipFileWrappedReader<Limiter<Cursor>>>,
)
    requires
        decoded_found(b, f, file),
    ensures
        ({
            let start = f.header_start + 30 + u16_at(b, f.header_start + 26) + u16_at(
                b,
                f.header_start + 28,
            );
            let packed = limited(b, start, (f.compressed_size as usize) as int);
            &&& u32_at(b, f.header_start as int) == 0x04034b50
            &&& file@ == (FileRecord { data_start: start as u64, ..f })
            &&& file.reader().state().rest() == streamed_contents_of(f, packed)
            &&& file.reader().state().rest() matches Ok(contents) ==> crc32_of(contents) == f.crc32
        }),
{
}

} // verus!
