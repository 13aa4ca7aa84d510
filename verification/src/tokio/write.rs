//! Writing archives, where an archive can be read right after it was written, and
//! others can be merged into it.
use vstd::prelude::*;
use vstd::utf8::encode_utf8;

use crate::bytes::{put_u16, put_u32, u16_bytes, u32_bytes};
use crate::codec::deflate_default;
use crate::compression::CompressionMethod;
use crate::crc32::Crc32;
use crate::encoder::{contents, more_given, Given};
use crate::header::{
    cap, extra_data_flaw, header_lengths, local_patched, not_large,
    validate_extra_data, write_central_zip64_extra_field, write_local_file_header,
};
use crate::read::{archive_of, archive_times_fit, limited, records, ArchiveRecord, Directory};
use crate::result::{other, other_error, ZipError, ZipResult};
use crate::sink::{
    clamp_opt, deflate_compression_level_range, packing_for, packing_goes_on, packing_keeps,
    Packing, Sink,
};
use crate::spec::{CENTRAL_DIRECTORY_HEADER_SIGNATURE, ZIP64_BYTES_THR};
use crate::stream::{vec_fits, Cursor, StreamState};
use crate::text::chars_of;
use crate::tokio::buf_writer::BufWriter;
use crate::tokio::outflow::{balanced, Outflow};
use crate::tokio::read::{distinct_names, ZipArchive};
use crate::tokio::stream_impls::deflate::{Compressor, Writer};
use crate::tokio::stream_impls::state::{taken_in, unended};
use crate::tokio::WrappedPin;
use crate::types::{FileRecord, ZipFileData};
use crate::write::{
    central_headers, directory_end, make_padding, new_entry, new_file_data, no_raw_values,
    padding, typed, write_directory_end, FileOptions, Step, WriterState, ZipRawValues,
};

verus! {

broadcast use crate::bytes::group_byte_lengths;

/// Writes bytes as they are.
#[derive(Debug)]
pub struct StoredWriter<S> {
    inner: S,
}

impl<S> StoredWriter<S> {
    /// A writer into a stream.
    pub fn new(inner: S) -> (r: Self)
        ensures
            r.wrapped() == inner,
    {
        StoredWriter { inner }
    }
}

impl<S> WrappedPin<S> for StoredWriter<S> {
    closed spec fn wrapped(&self) -> S {
        self.inner
    }

    fn unwrap_inner_pin(self) -> (r: S) {
        self.inner
    }
}

impl StoredWriter<Cursor> {
    /// Writes bytes.
    pub fn write_all(&mut self, data: &[u8])
        ensures
            final(self).wrapped()@ == old(self).wrapped()@.written(data@),
    {
        self.inner.write_all(data);
    }
}

/// Writes bytes packed with Deflate, through a compressor with a buffer behind it.
pub struct DeflatedWriter<S> {
    inner: Writer<Compressor, BufWriter<S>>,
    start: Ghost<StreamState>,
    given: Ghost<Seq<Given>>,
}

impl<S> WrappedPin<S> for DeflatedWriter<S> {
    closed spec fn wrapped(&self) -> S {
        self.inner.wrapped().writer()
    }

    fn unwrap_inner_pin(self) -> (r: S) {
        self.inner.unwrap_inner_pin().into_inner()
    }
}

impl DeflatedWriter<Cursor> {
    /// How contents are stored.
    spec fn packing(&self) -> Packing {
        Packing::Streamed(self.inner.outflow().level)
    }

    /// What this is up to.
    pub closed spec fn state(&self) -> Sink {
        Sink::Packing(self.start@, self.packing(), self.given@)
    }

    /// Whether the parts fit together.
    pub closed spec fn wf(&self) -> bool {
        let f = self.inner.outflow();
        &&& self.inner.flowing()
        &&& unended(f.steps)
        &&& f == Outflow::of(f.level, self.given@).anew()
        &&& self.wrapped()@ == self.state().stream()
        &&& balanced(f, self.packing().put_out(self.given@))
        &&& taken_in(f.level, f.steps) == contents(self.given@)
    }

    /// A writer into a stream, with a level of compression.
    pub fn new(level: u32, inner: Cursor) -> (r: Self)
        requires
            level <= 9,
        ensures
            r.wf(),
            r.state() == Sink::Packing(inner@, Packing::Streamed(level), Seq::empty()),
    {
        let ghost start = inner@;
        let r = DeflatedWriter {
            inner: Writer::with_state(Compressor::new(level), BufWriter::new(inner)),
            start: Ghost(start),
            given: Ghost(Seq::empty()),
        };
        assert(r.inner.outflow() =~= Outflow::fresh(level));
        assert(r.inner.outflow() =~= Outflow::fresh(level).anew());
        assert(Seq::<u8>::empty() + Seq::<u8>::empty() =~= Seq::<u8>::empty());
        r
    }

    /// What this is after more was given.
    proof fn went_on(before: Self, more: Given, now: Self)
        requires
            before.wf(),
            now.inner.went(before.inner, before.inner.outflow().given(more)),
            unended(now.inner.outflow().steps),
            taken_in(now.inner.outflow().level, now.inner.outflow().steps) == taken_in(
                before.inner.outflow().level,
                before.inner.outflow().steps,
            ) + match more {
                Given::Contents(data) => data,
                Given::Flush => Seq::empty(),
            },
            now.start == before.start,
            now.given@ == before.given@.push(more),
            now.inner.outflow().level == before.inner.outflow().level,
        ensures
            now.wf(),
            now.state() == Sink::Packing(before.start@, before.packing(), before.given@.push(more)),
            before.state().wf() ==> now.state().wf(),
    {
        let level = before.inner.outflow().level;
        let of = Outflow::of(level, before.given@);
        let f = before.inner.outflow().given(more);
        assert(of.anew().anew() =~= of.anew());
        assert(f == of.given(more));
        assert(now.given@.drop_last() =~= before.given@);
        assert(f == Outflow::of(level, now.given@));
        more_given(before.packing(), before.given@, more);
        packing_goes_on(before.start@, before.packing(), before.given@, more);
        assert(balanced(f, before.packing().put_out(before.given@) + f.gone));
        now.wrapped().fits();
    }

    /// Writes bytes.
    pub fn write_all(&mut self, data: &[u8])
        requires
            old(self).wf(),
        ensures
            final(self).wf(),
            final(self).state() == old(self).state().written(data@),
            old(self).state().wf() ==> final(self).state().wf(),
    {
        let ghost before = *self;
        self.inner.take_in(data);
        self.given = Ghost(self.given@.push(Given::Contents(data@)));
        proof {
            Self::went_on(before, Given::Contents(data@), *self);
        }
    }

    /// Puts what is held back into the stream.
    pub fn flush(&mut self)
        requires
            old(self).wf(),
        ensures
            final(self).wf(),
            final(self).state() == old(self).state().flushed(),
            old(self).state().wf() ==> final(self).state().wf(),
    {
        let ghost before = *self;
        self.inner.flush_out();
        self.given = Ghost(self.given@.push(Given::Flush));
        proof {
            let f = before.inner.outflow();
            let taken = taken_in(f.level, f.steps);
            assert(taken + Seq::<u8>::empty() =~= taken);
            Self::went_on(before, Given::Flush, *self);
        }
    }

    /// The bytes of the stream.
    pub fn get_ref(&self) -> (r: &Vec<u8>)
        requires
            self.wf(),
        ensures
            r@ == self.state().stream().bytes,
    {
        self.inner.get_ref().get_ref().get_ref()
    }

    /// Puts the rest of what was held back into the stream, from which all can be got back.
    pub fn shutdown(self) -> (r: Cursor)
        requires
            self.wf(),
        ensures
            r@ == self.state().ended(),
            self.state().recoverable(),
    {
        let mut inner = self.inner;
        inner.finish_out();
        proof {
            let packing = self.packing();
            let of = Outflow::of(self.inner.outflow().level, self.given@);
            let f = self.inner.outflow().finished();
            assert(of.anew().anew() =~= of.anew());
            packing_keeps(self.start@, packing, self.given@);
            assert(balanced(f, packing.put_out(self.given@) + f.gone));
            assert(packing.packed(self.given@) + f.held =~= packing.packed(self.given@));
        }
        inner.unwrap_inner_pin().into_inner()
    }
}

/// Writes the contents of a file, in the way in which they are stored.
pub enum ZipFileWrappedWriter<S> {
    Stored(StoredWriter<S>),
    Deflated(DeflatedWriter<S>),
}

impl<S> WrappedPin<S> for ZipFileWrappedWriter<S> {
    open spec fn wrapped(&self) -> S {
        match self {
            ZipFileWrappedWriter::Stored(w) => w.wrapped(),
            ZipFileWrappedWriter::Deflated(w) => w.wrapped(),
        }
    }

    fn unwrap_inner_pin(self) -> (r: S) {
        match self {
            ZipFileWrappedWriter::Stored(w) => w.unwrap_inner_pin(),
            ZipFileWrappedWriter::Deflated(w) => w.unwrap_inner_pin(),
        }
    }
}

/// Where contents go: nowhere, or to the file that is being written.
pub enum InnerWriter {
    NoActiveFile(Cursor),
    FileWriter(ZipFileWrappedWriter<Cursor>),
}

impl InnerWriter {
    /// What this is up to.
    pub open spec fn view(&self) -> Sink {
        match self {
            InnerWriter::NoActiveFile(c) => Sink::Plain(c@),
            InnerWriter::FileWriter(ZipFileWrappedWriter::Stored(w)) => Sink::Plain(w.wrapped()@),
            InnerWriter::FileWriter(ZipFileWrappedWriter::Deflated(w)) => w.state(),
        }
    }

    /// Whether the parts fit together.
    pub open spec fn wf(&self) -> bool {
        &&& self@.wf()
        &&& self matches InnerWriter::FileWriter(ZipFileWrappedWriter::Deflated(w)) ==> w.wf()
    }

    /// How contents are stored by a method and a level. The method must be one that
    /// can be streamed.
    pub fn try_wrap_writer(
        compression: CompressionMethod,
        compression_level: Option<i32>,
    ) -> (r: ZipResult<Packing>)
        requires
            compression is Stored || compression is Deflated,
        ensures
            r == packing_for(compression, compression_level),
            r matches Ok(packing) ==> packing.in_range() && packing.method() == compression,
    {
        match compression {
            CompressionMethod::Stored => {
                if compression_level.is_some() {
                    return Err(ZipError::UnsupportedArchive("Unsupported compression level"));
                }
                Ok(Packing::Stored)
            },
            _ => {
                let wanted: i32 = match compression_level {
                    Some(level) => level,
                    None => deflate_default() as i32,
                };
                match clamp_opt(wanted, deflate_compression_level_range()) {
                    Some(level) => Ok(Packing::Deflated(level as u32)),
                    None => Err(ZipError::UnsupportedArchive("Unsupported compression level")),
                }
            },
        }
    }

    /// Begins to write contents, in the given way.
    fn wrap(&mut self, packing: Packing)
        requires
            *old(self) is NoActiveFile,
            old(self).wf(),
            packing is Stored || packing is Deflated,
            packing.in_range(),
        ensures
            *final(self) is FileWriter,
            final(self)@ == Sink::opened(old(self)@.stream(), packing.streamed()),
            final(self).wf(),
    {
        let mut taken = InnerWriter::NoActiveFile(Cursor::new(Vec::new()));
        std::mem::swap(self, &mut taken);
        let bare = match taken {
            InnerWriter::NoActiveFile(c) => c,
            _ => vstd::pervasive::unreached(),
        };
        *self = InnerWriter::FileWriter(
            match packing {
                Packing::Deflated(level) => ZipFileWrappedWriter::Deflated(
                    DeflatedWriter::new(level, bare),
                ),
                _ => ZipFileWrappedWriter::Stored(StoredWriter::new(bare)),
            },
        );
    }

    /// Ends what is being written, and puts what was held back into the stream.
    fn shutdown(&mut self)
        requires
            old(self).wf(),
        ensures
            *final(self) is NoActiveFile,
            final(self)@ == Sink::Plain(old(self)@.ended()),
            final(self).wf(),
            old(self)@.recoverable(),
    {
        let mut taken = InnerWriter::NoActiveFile(Cursor::new(Vec::new()));
        std::mem::swap(self, &mut taken);
        let bare = match taken {
            InnerWriter::NoActiveFile(c) => c,
            InnerWriter::FileWriter(ZipFileWrappedWriter::Stored(w)) => w.unwrap_inner_pin(),
            InnerWriter::FileWriter(ZipFileWrappedWriter::Deflated(w)) => w.shutdown(),
        };
        proof {
            bare.fits();
        }
        *self = InnerWriter::NoActiveFile(bare);
    }

    /// Takes in contents.
    fn write_all(&mut self, data: &[u8])
        requires
            *old(self) is FileWriter,
            old(self).wf(),
        ensures
            *final(self) is FileWriter,
            final(self)@ == old(self)@.written(data@),
            final(self).wf(),
    {
        match self {
            InnerWriter::NoActiveFile(_) => {},
            InnerWriter::FileWriter(ZipFileWrappedWriter::Stored(w)) => {
                w.write_all(data);
                proof {
                    w.inner.fits();
                }
            },
            InnerWriter::FileWriter(ZipFileWrappedWriter::Deflated(w)) => w.write_all(data),
        }
    }

    /// Puts what is held back into the stream.
    fn flush(&mut self)
        requires
            old(self).wf(),
        ensures
            *final(self) is FileWriter <==> *old(self) is FileWriter,
            final(self)@ == old(self)@.flushed(),
            final(self).wf(),
    {
        if let InnerWriter::FileWriter(ZipFileWrappedWriter::Deflated(w)) = self {
            w.flush();
        }
    }
}

/// Where there is no encryption and no extra data, the central header is the one that
/// the other writer makes.
pub proof fn plain_headers_agree(f: FileRecord)
    requires
        !f.encrypted,
        f.extra_field.len() == 0,
    ensures
        f.central_header(true) == f.central_header(false),
{
    reveal(FileRecord::central_fixed);
    reveal(FileRecord::central_header);
}

/// Writes the checksum and the sizes into the local header. Where a size is too large
/// for its place, writes nothing, but has moved to that place.
fn update_local_file_header(writer: &mut Cursor, file: &ZipFileData) -> (r: ZipResult<()>)
    requires
        file@.header_start + 30 + file@.name_bytes().len() + file@.local_zip64_len() <= u64::MAX,
    ensures
        !file@.large_file && file@.compressed_size > ZIP64_BYTES_THR ==> {
            &&& r == Err::<(), ZipError>(not_large())
            &&& final(writer)@ == (StreamState {
                bytes: old(writer)@.bytes,
                pos: (file@.header_start + 14) as nat,
            })
        },
        file@.large_file || file@.compressed_size <= ZIP64_BYTES_THR ==> {
            &&& r is Ok
            &&& final(writer)@.bytes == local_patched(old(writer)@.bytes, file@)
        },
{
    writer.seek_start(file.header_start + 14);
    // check compressed size as well as it can also be slightly larger than uncompressed size
    if !file.large_file && file.compressed_size > ZIP64_BYTES_THR {
        return Err(other_error("Large file option has not been set"));
    }
    crate::header::update_local_file_header(writer, file)
}

/// Appends the central header. The length in it does not count the extra data that
/// follows the ZIP64 record.
pub fn write_central_directory_header(out: &mut Vec<u8>, file: &ZipFileData)
    ensures
        final(out)@ == old(out)@ + file@.central_header(true),
{
    reveal(FileRecord::central_fixed);
    reveal(FileRecord::central_header);
    let mut zip64_extra_field: Vec<u8> = Vec::new();
    let zip64_extra_field_length: u16 = write_central_zip64_extra_field(
        &mut zip64_extra_field,
        file,
    );
    assert(zip64_extra_field@ =~= file@.central_zip64());
    let mut record: Vec<u8> = Vec::new();
    put_u32(&mut record, CENTRAL_DIRECTORY_HEADER_SIGNATURE);
    assert(record@ =~= u32_bytes(CENTRAL_DIRECTORY_HEADER_SIGNATURE));
    let version_made_by: u16 = file.system.to_u16() * 256 + file.version_made_by as u16;
    put_u16(&mut record, version_made_by);
    put_u16(&mut record, file.version_needed());
    let unicode: u16 = if !file.file_name.as_str().is_ascii() {
        2048
    } else {
        0
    };
    let encrypted: u16 = if file.encrypted {
        1
    } else {
        0
    };
    put_u16(&mut record, unicode + encrypted);
    put_u16(&mut record, file.compression_method.to_u16());
    put_u16(&mut record, file.last_modified_time.timepart());
    put_u16(&mut record, file.last_modified_time.datepart());
    put_u32(&mut record, file.crc32);
    put_u32(&mut record, cap(file.compressed_size));
    put_u32(&mut record, cap(file.uncompressed_size));
    put_u16(&mut record, file.file_name.as_str().as_bytes().len() as u16);
    put_u16(&mut record, zip64_extra_field_length);
    put_u16(&mut record, 0);
    put_u16(&mut record, 0);
    put_u16(&mut record, 0);
    put_u32(&mut record, file.external_attributes);
    put_u32(&mut record, cap(file.header_start));
    assert(record@ == file@.central_fixed(true));
    record.extend_from_slice(file.file_name.as_str().as_bytes());
    record.append(&mut zip64_extra_field);
    record.extend_from_slice(file.extra_field.as_slice());
    assert(record@ == file@.central_header(true));
    out.append(&mut record);
}

/// The name of a directory: it ends with a slash.
pub open spec fn slashed(name: Seq<char>) -> Seq<char> {
    if name.len() > 0 && name.last() == '/' {
        name
    } else {
        name.push('/')
    }
}

/// The options of a file, with a type in its permissions.
pub open spec fn as_file(options: FileOptions) -> FileOptions {
    FileOptions {
        permissions: Some(
            (match options.permissions {
                Some(mode) => mode,
                None => 0o644u32,
            }) | 0o100000,
        ),
        ..options
    }
}

/// An entry of an archive that is merged into another, at a position of it; `None`,
/// if it would be too far away.
pub open spec fn moved(f: FileRecord, by: u64) -> Option<FileRecord> {
    if f.header_start + by > u64::MAX || f.data_start + by > u64::MAX {
        None
    } else {
        Some(
            FileRecord {
                header_start: (f.header_start + by) as u64,
                data_start: if f.data_start == 0 {
                    0
                } else {
                    (f.data_start + by) as u64
                },
                central_header_start: 0,
                ..f
            },
        )
    }
}

/// Entries of an archive that is merged into another.
pub open spec fn all_moved(files: Seq<FileRecord>, by: u64) -> Option<Seq<FileRecord>>
    decreases files.len(),
{
    if files.len() == 0 {
        Some(Seq::empty())
    } else {
        match (all_moved(files.drop_last(), by), moved(files.last(), by)) {
            (Some(before), Some(f)) => Some(before.push(f)),
            _ => None,
        }
    }
}

/// The failure of a merge that leads too far.
pub open spec fn too_far() -> ZipError {
    ZipError::InvalidArchive("new header start from merge would have been too large")
}

impl WriterState {
    /// Whether the contents of a file are being written.
    pub open spec fn active(self) -> bool {
        self.writing_to_file && self.open() && !self.in_local_extra() && self.endable()
    }

    /// Whether the last entry is under way: its contents are being written, or are all
    /// written and the entry is yet to be ended.
    pub open spec fn under_way(self) -> bool {
        self.open() && !self.in_local_extra() && self.endable()
    }

    /// Whether the parts of the state of a streaming writer fit together.
    pub open spec fn streaming(self) -> bool {
        &&& self.sink.wf()
        &&& !(self.sink is Closed)
        &&& self.names == Map::<Seq<char>, usize>::empty()
        &&& self.files.len() <= usize::MAX
        &&& forall|i: int|
            0 <= i < self.files.len() ==> (#[trigger] self.files[i]).last_modified_time.fits()
        &&& self.writing_to_extra_field ==> self.writing_to_file && self.open()
        &&& self.writing_to_central_extra_field_only ==> self.writing_to_extra_field
        &&& self.sink is Packing ==> self.active()
        &&& self.writing_to_file ==> self.files.len() > 0 || self.writing_raw
        &&& self.open() ==> {
            let f = self.files.last();
            &&& !f.large_file
            &&& f.compression_method is Stored || f.compression_method is Deflated
            &&& f.header_start + 30 + f.name_bytes().len() <= f.data_start
            &&& f.data_start == self.start
            &&& self.in_local_extra() ==> self.sink is Plain && self.sink.stream().pos == self.start
                && self.bytes_written == 0
            &&& match self.sink {
                Sink::Packing(s, _, given) => s.pos == self.start && contents(given).len()
                    == self.bytes_written,
                _ => self.endable() ==> self.start + self.bytes_written
                    <= self.sink.stream().pos,
            }
        }
    }

    /// The end of extra data and the start of contents. Where the level of
    /// compression is not one that there is, the extra data is in the local header
    /// nevertheless.
    pub open spec fn streamed_extra_ended(self) -> Step<u64> {
        let f = self.files.last();
        if !self.writing_to_extra_field {
            (self, Err(other("Not writing to extra field")))
        } else if extra_data_flaw(f.extra_field) is Some {
            (self, Err(extra_data_flaw(f.extra_field)->0))
        } else if self.writing_to_central_extra_field_only {
            (
                WriterState {
                    writing_to_extra_field: false,
                    writing_to_central_extra_field_only: false,
                    ..self
                },
                Ok(f.data_start),
            )
        } else {
            let w = self.extra_field_written();
            match packing_for(f.compression_method, f.compression_level) {
                Err(e) => (w, Err(e)),
                Ok(packing) => (
                    WriterState {
                        sink: Sink::opened(w.sink.stream(), packing.streamed()),
                        writing_to_extra_field: false,
                        ..w
                    },
                    Ok(w.start),
                ),
            }
        }
    }

    /// This with no extra data under way.
    pub open spec fn streamed_past_extra(self) -> WriterState {
        if self.writing_to_extra_field {
            self.streamed_extra_ended().0
        } else {
            self
        }
    }

    /// The end of the last entry, no extra data being under way. Where the entry turns
    /// out to be too large, nothing is written, but the stream is left in its local
    /// header.
    pub open spec fn streamed_contents_ended(self) -> Step<()> {
        match self.contents_ended() {
            (w, Err(e)) => (
                WriterState {
                    sink: Sink::Plain(
                        StreamState {
                            bytes: self.sink.ended().bytes,
                            pos: (self.files.last().header_start + 14) as nat,
                        },
                    ),
                    ..w
                },
                Err(e),
            ),
            (w, Ok(_)) => (w, Ok(())),
        }
    }

    /// The end of the last entry.
    pub open spec fn streamed_finished(self) -> Step<()> {
        if self.writing_to_extra_field {
            match self.streamed_extra_ended() {
                (w, Err(e)) => (w, Err(e)),
                (w, Ok(_)) => w.streamed_contents_ended(),
            }
        } else {
            self.streamed_contents_ended()
        }
    }

    /// A new entry after the end of the last one.
    pub open spec fn streamed_entry(self, name: Seq<char>, options: FileOptions) -> Step<()> {
        match self.streamed_finished() {
            (w, Err(e)) => (w, Err(e)),
            (w, Ok(_)) => {
                let s = w.sink.stream();
                let f = new_entry(name, options, no_raw_values(), s.pos as u64);
                let t = s.written(f.local_header());
                (
                    WriterState {
                        sink: Sink::Plain(t),
                        files: w.files.push(FileRecord { data_start: t.pos as u64, ..f }),
                        contents: Seq::empty(),
                        start: t.pos as u64,
                        bytes_written: 0,
                        writing_raw: false,
                        ..w
                    },
                    Ok(()),
                )
            },
        }
    }

    /// A new entry whose contents are to be written. Where the level of compression
    /// is not one that there is, the entry is there nevertheless.
    pub open spec fn streamed_file(self, name: Seq<char>, options: FileOptions) -> Step<()> {
        match self.streamed_entry(name, options) {
            (w, Err(e)) => (w, Err(e)),
            (w, Ok(_)) => match packing_for(options.compression_method, options.compression_level) {
                Err(e) => (w, Err(e)),
                Ok(packing) => (
                    WriterState {
                        sink: Sink::opened(w.sink.stream(), packing.streamed()),
                        writing_to_file: true,
                        ..w
                    },
                    Ok(()),
                ),
            },
        }
    }

    /// A new entry that is a directory.
    pub open spec fn streamed_directory(self, name: Seq<char>, options: FileOptions) -> Step<()> {
        self.streamed_entry(slashed(name), typed(options, 0o755, 0o40000))
    }

    /// A new entry that is a symbolic link, whose target is its contents.
    pub open spec fn streamed_symlink(
        self,
        name: Seq<char>,
        target: Seq<u8>,
        options: FileOptions,
    ) -> Step<()> {
        match self.streamed_entry(name, typed(options, 0o777, 0o120000)) {
            (w, Err(e)) => (w, Err(e)),
            (w, Ok(_)) => match (WriterState { writing_to_file: true, ..w }).streamed_data(target) {
                (w, Err(e)) => (w, Err(e)),
                (w, Ok(_)) => (WriterState { writing_to_file: false, ..w }, Ok(())),
            },
        }
    }

    /// A new entry whose extra data is to be written.
    pub open spec fn streamed_extra_started(self, name: Seq<char>, options: FileOptions) -> Step<
        u64,
    > {
        match self.streamed_entry(name, options) {
            (w, Err(e)) => (w, Err(e)),
            (w, Ok(_)) => (
                WriterState { writing_to_file: true, writing_to_extra_field: true, ..w },
                Ok(w.files.last().data_start),
            ),
        }
    }

    /// The end of the extra data that is also in the local header.
    pub open spec fn streamed_local_extra_ended(self) -> Step<u64> {
        match self.streamed_extra_ended() {
            (w, Err(e)) => (w, Err(e)),
            (w, Ok(start)) => (
                WriterState {
                    writing_to_extra_field: true,
                    writing_to_central_extra_field_only: true,
                    ..w.with_last(FileRecord { extra_field: Seq::empty(), ..w.files.last() })
                },
                Ok(start),
            ),
        }
    }

    /// A new entry whose data begins at a multiple of `align`.
    pub open spec fn streamed_aligned(
        self,
        name: Seq<char>,
        options: FileOptions,
        align: u16,
    ) -> Step<u64> {
        match self.streamed_extra_started(name, options) {
            (w, Err(e)) => (w, Err(e)),
            (w, Ok(start)) => {
                let padded = if align > 1 && start as int % align as int != 0 {
                    w.streamed_data(
                        padding(start as int, align as int),
                    ).0.streamed_local_extra_ended()
                } else {
                    (w, Ok(start))
                };
                match padded {
                    (w, Err(e)) => (w, Err(e)),
                    (w, Ok(_)) => match w.streamed_extra_ended() {
                        (w, Err(e)) => (w, Err(e)),
                        (w, Ok(end)) => (w, Ok((end - start) as u64)),
                    },
                }
            },
        }
    }

    /// More contents, or more extra data of the local header. There is no extra data of
    /// the central header alone: what is written after that of the local header is
    /// contents.
    pub open spec fn streamed_data(self, data: Seq<u8>) -> Step<()> {
        let f = self.files.last();
        if data.len() == 0 {
            (self, Ok(()))
        } else if !self.writing_to_file {
            (self, Err(other("No file has been started")))
        } else if self.in_local_extra() {
            (self.with_last(FileRecord { extra_field: f.extra_field + data, ..f }), Ok(()))
        } else {
            let w = WriterState {
                sink: self.sink.written(data),
                contents: self.contents + data,
                bytes_written: (self.bytes_written + data.len()) as u64,
                ..self
            };
            (
                w,
                if w.bytes_written > ZIP64_BYTES_THR {
                    Err(not_large())
                } else {
                    Ok(())
                },
            )
        }
    }

    /// This after what a compressor holds back was put into the stream.
    pub open spec fn streamed_flush(self) -> Step<()> {
        (WriterState { sink: self.sink.flushed(), ..self }, Ok(()))
    }

    /// The entries of another archive, with what is stored for them, given all that
    /// comes before its central headers.
    pub open spec fn streamed_merge(self, files: Seq<FileRecord>, before: Seq<u8>) -> Step<()> {
        match self.streamed_finished() {
            (w, Err(e)) => (w, Err(e)),
            (w, Ok(_)) => {
                let w = WriterState { writing_to_file: true, writing_raw: true, ..w };
                let s = w.sink.stream();
                match all_moved(files, s.pos as u64) {
                    None => (w, Err(too_far())),
                    Some(more) => if files.len() == 0 {
                        (w, Ok(()))
                    } else {
                        (
                            WriterState {
                                sink: Sink::Plain(s.written(before)),
                                files: w.files + more,
                                ..w
                            },
                            Ok(()),
                        )
                    },
                }
            },
        }
    }

    /// The end of the archive. Returns where the central headers start.
    pub open spec fn streamed_end(self) -> Step<u64> {
        match self.streamed_finished() {
            (w, Err(e)) => (w, Err(e)),
            (w, Ok(_)) => {
                let s = w.sink.stream();
                let headers = central_headers(w.files, true);
                let end = directory_end(w.files.len(), s.pos, headers.len(), w.comment);
                (
                    WriterState { sink: Sink::Plain(s.written(headers).written(end)), ..w },
                    Ok(s.pos as u64),
                )
            },
        }
    }
}

/// An archive that is being written.
pub struct ZipWriter {
    inner: InnerWriter,
    files: Vec<ZipFileData>,
    hasher: Crc32,
    start: u64,
    bytes_written: u64,
    writing_to_file: bool,
    writing_to_extra_field: bool,
    writing_to_central_extra_field_only: bool,
    writing_raw: bool,
    comment: Vec<u8>,
}

impl WrappedPin<Cursor> for ZipWriter {
    /// The stream, without what is held back from it.
    closed spec fn wrapped(&self) -> Cursor {
        match self.inner {
            InnerWriter::NoActiveFile(c) => c,
            InnerWriter::FileWriter(w) => w.wrapped(),
        }
    }

    fn unwrap_inner_pin(self) -> (r: Cursor)
        ensures
            self.wf() ==> r@ == self@.sink.stream(),
    {
        match self.inner {
            InnerWriter::NoActiveFile(c) => c,
            InnerWriter::FileWriter(w) => w.unwrap_inner_pin(),
        }
    }
}

impl ZipWriter {
    /// How far this has got.
    pub closed spec fn view(&self) -> WriterState {
        WriterState {
            sink: self.inner@,
            files: records(self.files@),
            names: Map::empty(),
            contents: self.hasher@,
            start: self.start,
            bytes_written: self.bytes_written,
            writing_to_file: self.writing_to_file,
            writing_to_extra_field: self.writing_to_extra_field,
            writing_to_central_extra_field_only: self.writing_to_central_extra_field_only,
            writing_raw: self.writing_raw,
            comment: self.comment@,
        }
    }

    /// Whether the parts of this fit together.
    pub closed spec fn wf(&self) -> bool {
        &&& self@.streaming()
        &&& self.inner.wf()
        &&& self.inner is FileWriter <==> self@.active()
    }

    /// A new archive in a stream.
    pub fn new(inner: Cursor) -> (r: Self)
        ensures
            r.wf(),
            r@ == WriterState::fresh(inner@),
    {
        proof {
            inner.fits();
        }
        let r = ZipWriter {
            inner: InnerWriter::NoActiveFile(inner),
            files: Vec::new(),
            hasher: Crc32::new(),
            start: 0,
            bytes_written: 0,
            writing_to_file: false,
            writing_to_extra_field: false,
            writing_to_central_extra_field_only: false,
            writing_raw: false,
            comment: Vec::new(),
        };
        assert(r@ =~= WriterState::fresh(inner@));
        r
    }

    /// Makes an archive ready for append: what comes next is written over its
    /// central headers.
    pub fn new_append(readwriter: Cursor) -> (r: ZipResult<Self>)
        ensures
            match r {
                Ok(w) => {
                    &&& w.wf()
                    &&& archive_of(readwriter@.bytes, true) matches Ok(archive)
                    &&& w@ == (WriterState {
                        names: Map::empty(),
                        ..WriterState::appended(readwriter@, archive)
                    })
                    &&& w@.files == archive.files
                    &&& w@.comment == archive.comment
                },
                Err(e) => archive_of(readwriter@.bytes, true) == Err::<ArchiveRecord, ZipError>(e),
            },
    {
        let directory = match Directory::load(readwriter.get_ref().as_slice(), true) {
            Ok(directory) => directory,
            Err(e) => {
                return Err(e);
            },
        };
        let ghost archive = directory@;
        let n: usize = directory.files.len();
        proof {
            archive_times_fit(readwriter@.bytes, true);
        }
        let mut stream = readwriter;
        stream.seek_start(directory.directory_start);
        proof {
            stream.fits();
        }
        let w = ZipWriter {
            inner: InnerWriter::NoActiveFile(stream),
            files: directory.files,
            hasher: Crc32::new(),
            start: 0,
            bytes_written: 0,
            writing_to_file: false,
            writing_to_extra_field: false,
            writing_to_central_extra_field_only: false,
            writing_raw: true,  // avoid recomputing the last file's header
            comment: directory.comment,
        };
        assert(w@ =~= (WriterState {
            names: Map::empty(),
            ..WriterState::appended(readwriter@, archive)
        }));
        Ok(w)
    }

    /// Sets the comment of the archive.
    pub fn set_raw_comment(&mut self, comment: Vec<u8>)
        requires
            old(self).wf(),
        ensures
            final(self).wf(),
            final(self)@ == (WriterState { comment: comment@, ..old(self)@ }),
    {
        self.comment = comment;
    }

    /// Sets the comment of the archive.
    pub fn set_comment(&mut self, comment: &str)
        requires
            old(self).wf(),
        ensures
            final(self).wf(),
            final(self)@ == (WriterState { comment: encode_utf8(comment@), ..old(self)@ }),
    {
        self.set_raw_comment(vstd::slice::slice_to_vec(comment.as_bytes()));
    }

    /// Whether the last entry can be ended, so that another one can follow or the archive
    /// can be ended. It can unless an attempt to end it has found it too large.
    pub fn is_endable(&self) -> (r: bool)
        requires
            self.wf(),
        ensures
            r == self@.endable(),
    {
        match &self.inner {
            InnerWriter::NoActiveFile(stream) => self.writing_raw || self.files.len() == 0
                || self.start <= stream.stream_position(),
            InnerWriter::FileWriter(_) => true,
        }
    }

    /// Replaces the last entry.
    fn set_last(&mut self, file: ZipFileData)
        requires
            old(self)@.files.len() > 0,
        ensures
            final(self)@ == old(self)@.with_last(file@),
            final(self).inner == old(self).inner,
    {
        let ghost before = self@;
        let ghost f = file@;
        self.files.pop();
        self.files.push(file);
        assert(self@.files =~= before.files.drop_last().push(f));
        assert(self@ =~= before.with_last(f));
    }

    /// A copy of the last entry.
    fn last(&self) -> (r: ZipFileData)
        requires
            self@.files.len() > 0,
        ensures
            r@ == self@.files.last(),
    {
        self.files[self.files.len() - 1].clone()
    }

    /// Puts the extra data of the last entry into its local header.
    fn write_extra_field(&mut self)
        requires
            old(self).wf(),
            old(self)@.in_local_extra(),
            extra_data_flaw(old(self)@.files.last().extra_field) is None,
        ensures
            final(self).wf(),
            final(self)@ == old(self)@.extra_field_written(),
            final(self)@.start == old(self)@.start + old(self)@.files.last().extra_field.len(),
    {
        let ghost before = self@;
        let mut file = self.last();
        let ghost f = file@;
        let header_start: u64 = file.header_start;
        let extra_len: u16 = file.extra_field.len() as u16;
        match &mut self.inner {
            InnerWriter::FileWriter(_) => vstd::pervasive::unreached(),
            InnerWriter::NoActiveFile(inner) => {
                inner.write_all(file.extra_field.as_slice());
                let header_end: u64 = inner.stream_position();
                inner.seek_start(header_start + 28);
                let mut length: Vec<u8> = Vec::new();
                put_u16(&mut length, extra_len);
                assert(length@ =~= u16_bytes(f.local_extra_len()));
                inner.write_all(length.as_slice());
                inner.seek_start(header_end);
                proof {
                    inner.fits();
                }
                file.data_start = header_end;
                self.start = header_end;
            },
        }
        self.set_last(file);
        assert(self@ =~= before.extra_field_written());
    }

    /// Ends extra data and starts contents. Returns where they start.
    pub fn end_extra_data(&mut self) -> (r: ZipResult<u64>)
        requires
            old(self).wf(),
        ensures
            final(self).wf(),
            (final(self)@, r) == old(self)@.streamed_extra_ended(),
            r matches Ok(start) ==> start == final(self)@.start && start == old(self)@.start
                + if old(self)@.in_local_extra() {
                old(self)@.files.last().extra_field.len() as int
            } else {
                0
            },
            old(self)@.endable() ==> final(self)@.endable(),
    {
        if !self.writing_to_extra_field {
            return Err(other_error("Not writing to extra field"));
        }
        let file = self.last();
        if let Err(e) = validate_extra_data(&file) {
            return Err(e);
        }
        if !self.writing_to_central_extra_field_only {
            self.write_extra_field();
            match InnerWriter::try_wrap_writer(file.compression_method, file.compression_level) {
                Err(e) => {
                    return Err(e);
                },
                Ok(packing) => {
                    self.inner.wrap(packing);
                },
            }
        }
        self.writing_to_extra_field = false;
        self.writing_to_central_extra_field_only = false;
        let data_start: u64 = self.last().data_start;
        assert(self@ =~= old(self)@.streamed_extra_ended().0);
        Ok(data_start)
    }

    /// Ends the last entry, no extra data being under way.
    fn finish_contents(&mut self) -> (r: ZipResult<()>)
        requires
            old(self).wf(),
            old(self)@.endable(),
            !old(self)@.writing_to_extra_field,
        ensures
            (final(self)@, r) == old(self)@.streamed_contents_ended(),
            final(self).wf(),
            r is Ok ==> {
                &&& final(self).inner is NoActiveFile
                &&& !final(self)@.open()
                &&& !final(self)@.writing_to_file
            },
            old(self)@.sink.recoverable(),
            r != Err::<(), ZipError>(not_large()) ==> final(self)@.endable(),
    {
        let ghost before = self@;
        self.inner.shutdown();
        if self.writing_raw || self.files.len() == 0 {
            self.writing_to_file = false;
            self.writing_raw = true;
            assert(self@ =~= before.streamed_contents_ended().0);
            return Ok(());
        }
        let mut file = self.last();
        file.crc32 = self.hasher.value();
        file.uncompressed_size = self.bytes_written;
        let mut r: ZipResult<()> = Ok(());
        match &mut self.inner {
            InnerWriter::FileWriter(_) => vstd::pervasive::unreached(),
            InnerWriter::NoActiveFile(inner) => {
                let file_end: u64 = inner.stream_position();
                file.compressed_size = file_end - self.start;
                r = update_local_file_header(inner, &file);
                if r.is_ok() {
                    inner.seek_start(file_end);
                }
                proof {
                    inner.fits();
                }
            },
        }
        let ghost f = file@;
        self.set_last(file);
        assert(f =~= before.completed(before.sink.ended().pos));
        if let Err(e) = r {
            assert(self@ =~= before.streamed_contents_ended().0);
            return Err(e);
        }
        self.writing_to_file = false;
        self.writing_raw = true;
        assert(self@ =~= before.streamed_contents_ended().0);
        Ok(())
    }

    /// Ends the last entry.
    fn finish_file(&mut self) -> (r: ZipResult<()>)
        requires
            old(self).wf(),
            old(self)@.endable(),
        ensures
            final(self).wf(),
            (final(self)@, r) == old(self)@.streamed_finished(),
            old(self)@.streamed_finished().1 is Ok ==> old(
                self,
            )@.streamed_past_extra().sink.recoverable(),
            r is Ok ==> {
                &&& final(self).inner is NoActiveFile
                &&& !final(self)@.open()
                &&& !final(self)@.writing_to_file
            },
            r != Err::<(), ZipError>(not_large()) ==> final(self)@.endable(),
    {
        if self.writing_to_extra_field {
            // Implicitly ends the extra data of empty files.
            if let Err(e) = self.end_extra_data() {
                return Err(e);
            }
        }
        self.finish_contents()
    }

    /// Begins a new entry.
    fn start_entry(&mut self, name: &str, options: FileOptions) -> (r: ZipResult<()>)
        requires
            old(self).wf(),
            old(self)@.endable(),
            !options.large_file,
            options.compression_method is Stored || options.compression_method is Deflated,
        ensures
            final(self).wf(),
            (final(self)@, r) == old(self)@.streamed_entry(name@, options),
            old(self)@.streamed_finished().1 is Ok ==> old(
                self,
            )@.streamed_past_extra().sink.recoverable(),
            r is Ok ==> {
                &&& final(self).inner is NoActiveFile
                &&& final(self)@.open()
                &&& !final(self)@.writing_to_file
                &&& final(self)@.sink.stream().pos == final(self)@.start
            },
            r != Err::<(), ZipError>(not_large()) ==> final(self)@.endable(),
    {
        if let Err(e) = self.finish_file() {
            return Err(e);
        }
        let ghost before = self@;
        let raw_values = ZipRawValues { crc32: 0, compressed_size: 0, uncompressed_size: 0 };
        match &mut self.inner {
            InnerWriter::FileWriter(_) => vstd::pervasive::unreached(),
            InnerWriter::NoActiveFile(inner) => {
                let header_start: u64 = inner.stream_position();
                let mut file = new_file_data(name, options, raw_values, header_start);
                let ghost f = file@;
                let mut header: Vec<u8> = Vec::new();
                write_local_file_header(&mut header, &file);
                proof {
                    assert(header@ =~= f.local_header());
                    header_lengths(f);
                }
                inner.write_all(header.as_slice());
                let header_end: u64 = inner.stream_position();
                proof {
                    inner.fits();
                }
                file.data_start = header_end;
                let ghost g = file@;
                self.files.push(file);
                proof {
                    vec_fits(self.files);
                }
                assert(records(self.files@) =~= before.files.push(g));
                self.start = header_end;
                self.bytes_written = 0;
                self.hasher = Crc32::new();
                self.writing_raw = false;
            },
        }
        assert(self@ =~= old(self)@.streamed_entry(name@, options).0);
        Ok(())
    }

    /// Begins a file whose contents are to be written. They can be stored as they
    /// are or packed with Deflate, and must be less than four gibibytes.
    pub fn start_file(&mut self, name: &str, options: FileOptions) -> (r: ZipResult<()>)
        requires
            old(self).wf(),
            old(self)@.endable(),
            !options.large_file,
            options.compression_method is Stored || options.compression_method is Deflated,
        ensures
            final(self).wf(),
            (final(self)@, r) == old(self)@.streamed_file(name@, as_file(options)),
            old(self)@.streamed_finished().1 is Ok ==> old(
                self,
            )@.streamed_past_extra().sink.recoverable(),
            r != Err::<(), ZipError>(not_large()) ==> final(self)@.endable(),
    {
        let options = with_type(options, 0o644, 0o100000);
        if let Err(e) = self.start_entry(name, options) {
            return Err(e);
        }
        match InnerWriter::try_wrap_writer(options.compression_method, options.compression_level) {
            Err(e) => {
                return Err(e);
            },
            Ok(packing) => {
                self.inner.wrap(packing);
            },
        }
        self.writing_to_file = true;
        assert(self@ =~= old(self)@.streamed_file(name@, options).0);
        Ok(())
    }

    /// Adds a directory.
    pub fn add_directory(&mut self, name: &str, options: FileOptions) -> (r: ZipResult<()>)
        requires
            old(self).wf(),
            old(self)@.endable(),
            !options.large_file,
        ensures
            final(self).wf(),
            (final(self)@, r) == old(self)@.streamed_directory(name@, options),
            old(self)@.streamed_finished().1 is Ok ==> old(
                self,
            )@.streamed_past_extra().sink.recoverable(),
            r != Err::<(), ZipError>(not_large()) ==> final(self)@.endable(),
    {
        let mut options = with_type(options, 0o755, 0o40000);
        options.compression_method = CompressionMethod::Stored;
        let name = with_slash(name);
        self.start_entry(name.as_str(), options)
    }

    /// Adds a symbolic link. Its target is stored as contents.
    pub fn add_symlink(&mut self, name: &str, target: &str, options: FileOptions) -> (r: ZipResult<
        (),
    >)
        requires
            old(self).wf(),
            old(self)@.endable(),
            !options.large_file,
        ensures
            final(self).wf(),
            (final(self)@, r) == old(self)@.streamed_symlink(name@, encode_utf8(target@), options),
            old(self)@.streamed_finished().1 is Ok ==> old(
                self,
            )@.streamed_past_extra().sink.recoverable(),
            r != Err::<(), ZipError>(not_large()) ==> final(self)@.endable(),
    {
        let mut options = with_type(options, 0o777, 0o120000);
        // The symlink target is stored as file content. And compressing the target path
        // likely wastes space. So always store.
        options.compression_method = CompressionMethod::Stored;
        if let Err(e) = self.start_entry(name, options) {
            return Err(e);
        }
        self.inner.wrap(Packing::Stored);
        self.writing_to_file = true;
        if let Err(e) = self.write_all(target.as_bytes()) {
            return Err(e);
        }
        self.inner.shutdown();
        self.writing_to_file = false;
        Ok(())
    }

    /// Begins a file whose extra data is to be written. Returns where its contents
    /// would start.
    pub fn start_file_with_extra_data(&mut self, name: &str, options: FileOptions) -> (r: ZipResult<
        u64,
    >)
        requires
            old(self).wf(),
            old(self)@.endable(),
            !options.large_file,
            options.compression_method is Stored || options.compression_method is Deflated,
        ensures
            final(self).wf(),
            (final(self)@, r) == old(self)@.streamed_extra_started(name@, as_file(options)),
            old(self)@.streamed_finished().1 is Ok ==> old(
                self,
            )@.streamed_past_extra().sink.recoverable(),
            r != Err::<u64, ZipError>(not_large()) ==> final(self)@.endable(),
    {
        let options = with_type(options, 0o644, 0o100000);
        if let Err(e) = self.start_entry(name, options) {
            return Err(e);
        }
        self.writing_to_file = true;
        self.writing_to_extra_field = true;
        let data_start: u64 = self.last().data_start;
        assert(self@ =~= old(self)@.streamed_extra_started(name@, options).0);
        Ok(data_start)
    }

    /// Ends the extra data that is also in the local header.
    pub fn end_local_start_central_extra_data(&mut self) -> (r: ZipResult<u64>)
        requires
            old(self).wf(),
        ensures
            final(self).wf(),
            (final(self)@, r) == old(self)@.streamed_local_extra_ended(),
            r matches Ok(start) ==> start == final(self)@.start && start == old(self)@.start
                + if old(self)@.in_local_extra() {
                old(self)@.files.last().extra_field.len() as int
            } else {
                0
            },
            old(self)@.endable() ==> final(self)@.endable(),
    {
        let data_start: u64 = match self.end_extra_data() {
            Ok(data_start) => data_start,
            Err(e) => {
                return Err(e);
            },
        };
        let mut file = self.last();
        file.extra_field = Vec::new();
        assert(file@ =~= (FileRecord { extra_field: Seq::empty(), ..self@.files.last() }));
        self.set_last(file);
        self.writing_to_extra_field = true;
        self.writing_to_central_extra_field_only = true;
        assert(self@ =~= old(self)@.streamed_local_extra_ended().0);
        Ok(data_start)
    }

    /// Begins a file whose contents start at a multiple of `align`. Returns how much
    /// padding that takes.
    pub fn start_file_aligned(&mut self, name: &str, options: FileOptions, align: u16) -> (r:
        ZipResult<u64>)
        requires
            old(self).wf(),
            old(self)@.endable(),
            !options.large_file,
            options.compression_method is Stored || options.compression_method is Deflated,
        ensures
            final(self).wf(),
            (final(self)@, r) == old(self)@.streamed_aligned(name@, as_file(options), align),
            old(self)@.streamed_finished().1 is Ok ==> old(
                self,
            )@.streamed_past_extra().sink.recoverable(),
            r is Ok && align > 1 ==> final(self)@.start as int % align as int == 0,
            r != Err::<u64, ZipError>(not_large()) ==> final(self)@.endable(),
    {
        let data_start: u64 = match self.start_file_with_extra_data(name, options) {
            Ok(data_start) => data_start,
            Err(e) => {
                return Err(e);
            },
        };
        assert(self@.files.last().extra_field.len() == 0);
        if align > 1 && data_start % align as u64 != 0 {
            let pad = make_padding(data_start, align as u64);
            if let Err(e) = self.write_all(pad.as_slice()) {
                return Err(e);
            }
            assert(self@.files.last().extra_field =~= pad@);
            if let Err(e) = self.end_local_start_central_extra_data() {
                return Err(e);
            }
        }
        match self.end_extra_data() {
            Ok(extra_data_end) => Ok(extra_data_end - data_start),
            Err(e) => Err(e),
        }
    }

    /// Writes contents, or extra data.
    pub fn write_all(&mut self, data: &[u8]) -> (r: ZipResult<()>)
        requires
            old(self).wf(),
            data@.len() > 0 && old(self)@.writing_to_file ==> old(self)@.in_local_extra() || (old(
                self,
            )@.active() && old(self)@.counts(data@.len())),
        ensures
            final(self).wf(),
            (final(self)@, r) == old(self)@.streamed_data(data@),
            old(self)@.endable() ==> final(self)@.endable(),
    {
        if data.len() == 0 {
            return Ok(());
        }
        if !self.writing_to_file {
            return Err(other_error("No file has been started"));
        }
        if self.writing_to_extra_field && !self.writing_to_central_extra_field_only {
            let mut file = self.last();
            let ghost f = file@;
            file.extra_field.extend_from_slice(data);
            assert(file@ =~= (FileRecord { extra_field: f.extra_field + data@, ..f }));
            self.set_last(file);
            assert(self@ =~= old(self)@.streamed_data(data@).0);
            return Ok(());
        }
        self.inner.write_all(data);
        self.hasher.update(data);
        proof {
            if let Sink::Packing(_, packing, given) = old(self)@.sink {
                more_given(packing, given, Given::Contents(data@));
            }
        }
        self.bytes_written = self.bytes_written + data.len() as u64;
        assert(self@ =~= old(self)@.streamed_data(data@).0);
        if self.bytes_written > ZIP64_BYTES_THR {
            return Err(other_error("Large file option has not been set"));
        }
        Ok(())
    }

    /// The bytes of the archive as they are by now. What a compressor holds back is not among
    /// them before a [`ZipWriter::flush`].
    pub fn get_ref(&self) -> (r: &Vec<u8>)
        requires
            self.wf(),
        ensures
            r@ == self@.sink.stream().bytes,
    {
        match &self.inner {
            InnerWriter::NoActiveFile(c) => c.get_ref(),
            InnerWriter::FileWriter(ZipFileWrappedWriter::Stored(w)) => w.inner.get_ref(),
            InnerWriter::FileWriter(ZipFileWrappedWriter::Deflated(w)) => w.get_ref(),
        }
    }

    /// Flushes the compressor of the file under way, which puts what it holds back into
    /// the stream.
    pub fn flush(&mut self) -> (r: ZipResult<()>)
        requires
            old(self).wf(),
        ensures
            final(self).wf(),
            (final(self)@, r) == old(self)@.streamed_flush(),
            old(self)@.endable() ==> final(self)@.endable(),
    {
        self.inner.flush();
        proof {
            if let Sink::Packing(_, packing, given) = old(self)@.sink {
                more_given(packing, given, Given::Flush);
            }
        }
        assert(self@ =~= old(self)@.streamed_flush().0);
        Ok(())
    }

    /// Copies over the entire contents of another archive verbatim: its entries, and
    /// all that comes before its central headers.
    pub fn merge_archive(&mut self, source: &mut ZipArchive) -> (r: ZipResult<()>)
        requires
            old(self).wf(),
            old(self)@.endable(),
            old(source).reader() is Some,
        ensures
            final(self).wf(),
            (final(self)@, r) == old(self)@.streamed_merge(
                old(source)@.files,
                limited(
                    old(source).reader()->0@.bytes,
                    0,
                    old(source)@.directory_start as int,
                ),
            ),
            old(self)@.streamed_finished().1 is Ok ==> old(
                self,
            )@.streamed_past_extra().sink.recoverable(),
            final(source)@ == old(source)@,
            final(source).reader() is Some,
            final(source).reader()->0@.bytes == old(source).reader()->0@.bytes,
            r != Err::<(), ZipError>(not_large()) ==> final(self)@.endable(),
    {
        if let Err(e) = self.finish_file() {
            return Err(e);
        }
        let ghost before = self@;
        // accept the contents on faith, and avoid overwriting them
        self.writing_to_file = true;
        self.writing_raw = true;
        match &mut self.inner {
            InnerWriter::FileWriter(_) => vstd::pervasive::unreached(),
            InnerWriter::NoActiveFile(writer) => {
                let mut new_files = match source.merge_contents(writer) {
                    Ok(new_files) => new_files,
                    Err(e) => {
                        assert(self@ =~= (WriterState {
                            writing_to_file: true,
                            writing_raw: true,
                            ..before
                        }));
                        return Err(e);
                    },
                };
                proof {
                    writer.fits();
                }
                let ghost more = records(new_files@);
                self.files.append(&mut new_files);
                proof {
                    vec_fits(self.files);
                }
                assert(records(self.files@) =~= before.files + more);
            },
        }
        proof {
            let w = old(self)@.streamed_merge(
                source@.files,
                limited(source.reader()->0@.bytes, 0, source@.directory_start as int),
            ).0;
            assert(self@.files =~= w.files);
            assert(self@ =~= w);
        }
        Ok(())
    }

    /// Ends the archive. Returns where the central headers start.
    fn finalize(&mut self) -> (r: ZipResult<u64>)
        requires
            old(self).wf(),
            old(self)@.endable(),
        ensures
            final(self).wf(),
            (final(self)@, r) == old(self)@.streamed_end(),
            old(self)@.streamed_finished().1 is Ok ==> old(
                self,
            )@.streamed_past_extra().sink.recoverable(),
            r is Ok ==> final(self).inner is NoActiveFile,
            r != Err::<u64, ZipError>(not_large()) ==> final(self)@.endable(),
    {
        if let Err(e) = self.finish_file() {
            return Err(e);
        }
        let ghost before = self@;
        let mut headers: Vec<u8> = Vec::new();
        let mut i: usize = 0;
        while i < self.files.len()
            invariant
                i <= self.files.len(),
                self@ == before,
                before.files == records(self.files@),
                headers@ == central_headers(before.files.take(i as int), true),
            decreases self.files.len() - i,
        {
            write_central_directory_header(&mut headers, &self.files[i]);
            proof {
                let longer = before.files.take(i + 1);
                assert(longer.drop_last() =~= before.files.take(i as int));
                assert(longer.last() == self.files@[i as int]@);
            }
            i += 1;
        }
        assert(before.files.take(before.files.len() as int) =~= before.files);
        match &mut self.inner {
            InnerWriter::FileWriter(_) => vstd::pervasive::unreached(),
            InnerWriter::NoActiveFile(inner) => {
                let central_start: u64 = inner.stream_position();
                inner.write_all(headers.as_slice());
                let central_size: u64 = inner.stream_position() - central_start;
                let mut end: Vec<u8> = Vec::new();
                write_directory_end(
                    &mut end,
                    self.files.len(),
                    central_start,
                    central_size,
                    &self.comment,
                );
                assert(end@ =~= directory_end(
                    before.files.len(),
                    central_start as nat,
                    headers@.len(),
                    before.comment,
                ));
                inner.write_all(end.as_slice());
                proof {
                    inner.fits();
                }
                assert(self@ =~= old(self)@.streamed_end().0);
                Ok(central_start)
            },
        }
    }

    /// Ends the archive, and hands back the stream.
    pub fn finish(self) -> (r: ZipResult<Cursor>)
        requires
            self.wf(),
            self@.endable(),
        ensures
            self@.streamed_finished().1 is Ok ==> self@.streamed_past_extra().sink.recoverable(),
            match r {
                Ok(stream) => self@.streamed_end().1 is Ok && stream@
                    == self@.streamed_end().0.sink.stream(),
                Err(e) => self@.streamed_end().1 == Err::<u64, ZipError>(e),
            },
    {
        let mut w = self;
        match w.finalize() {
            Err(e) => Err(e),
            Ok(_) => Ok(w.unwrap_inner_pin()),
        }
    }

    /// Ends the archive, and makes an archive of it that can be read. It must have
    /// entries, no two of the same name.
    pub fn finish_into_readable(self) -> (r: ZipResult<ZipArchive>)
        requires
            self.wf(),
            self@.endable(),
            distinct_names(self@.files),
        ensures
            self@.streamed_finished().1 is Ok ==> self@.streamed_past_extra().sink.recoverable(),
            match self@.streamed_end() {
                (_, Err(e)) => r == Err::<ZipArchive, ZipError>(e),
                (w, Ok(directory_start)) => if w.files.len() == 0 {
                    r == Err::<ZipArchive, ZipError>(
                        ZipError::InvalidArchive(
                            "attempt to finalize empty zip writer into readable",
                        ),
                    )
                } else {
                    r matches Ok(archive) && archive@ == readable(w, directory_start)
                        && archive.reader() is Some && archive.reader()->0@ == w.sink.stream()
                },
            },
    {
        let mut w = self;
        let ghost files = w@.files;
        let directory_start: u64 = match w.finalize() {
            Err(e) => {
                return Err(e);
            },
            Ok(directory_start) => directory_start,
        };
        proof {
            ended_keeps_names(self@);
        }
        let ZipWriter { inner, files, comment, .. } = w;
        let reader = match inner {
            InnerWriter::NoActiveFile(c) => c,
            InnerWriter::FileWriter(_) => vstd::pervasive::unreached(),
        };
        ZipArchive::from_finalized_writer(files, comment, reader, directory_start)
    }
}

/// What an archive says of itself, right after it was written.
pub open spec fn readable(w: WriterState, directory_start: u64) -> ArchiveRecord {
    ArchiveRecord {
        files: w.files,
        offset: w.files[0].header_start,
        directory_start,
        comment: w.comment,
    }
}

/// The end of an archive changes no name.
pub proof fn ended_keeps_names(w: WriterState)
    requires
        w.streaming(),
    ensures
        w.streamed_end().0.files.len() == w.files.len(),
        forall|i: int|
            0 <= i < w.files.len() ==> (#[trigger] w.streamed_end().0.files[i]).file_name
                == w.files[i].file_name,
        distinct_names(w.files) ==> distinct_names(w.streamed_end().0.files),
{
    let next = w.streamed_end().0;
    assert forall|i: int, j: int|
        distinct_names(w.files) && 0 <= i < j < next.files.len() implies (
    #[trigger] next.files[i]).file_name != (#[trigger] next.files[j]).file_name by {
        assert(w.files[i].file_name != w.files[j].file_name);
    }
}

/// Gives options a type in their permissions.
fn with_type(options: FileOptions, default: u32, bits: u32) -> (r: FileOptions)
    ensures
        r == (FileOptions {
            permissions: Some(
                (match options.permissions {
                    Some(mode) => mode,
                    None => default,
                }) | bits,
            ),
            ..options
        }),
{
    let mode: u32 = match options.permissions {
        Some(mode) => mode,
        None => default,
    };
    FileOptions { permissions: Some(mode | bits), ..options }
}

/// Gives the name of a directory a slash to end with.
fn with_slash(name: &str) -> (r: String)
    ensures
        r@ == slashed(name@),
{
    let chars = chars_of(name);
    let mut r = name.to_owned();
    if !(chars.len() > 0 && chars[chars.len() - 1] == '/') {
        r.push('/');
    }
    r
}

} // verus!
