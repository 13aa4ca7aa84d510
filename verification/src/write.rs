//! Types for creating ZIP archives
use vstd::hash_map::StringHashMap;
use vstd::prelude::*;
use vstd::utf8::encode_utf8;

use crate::bytes::{put_u16, u16_bytes};
use crate::compression::CompressionMethod;
use crate::crc32::{crc32_of, Crc32};
use crate::encoder::{contents, more_given, Given};
use crate::entries::{
    added_directory_says, added_symlink_says, raw_copy_says, started_file_says,
};
use crate::header::{
    cap, capped, cut_short, extra_data_flaw, header_lengths, local_patched, not_large,
    update_local_file_header,
    validate_extra_data, write_central_directory_header, write_local_file_header,
};
use crate::path::{normal_path, path_to_string};
use crate::read::{
    archive_of, archive_times_fit, find_data_start, name_files, named, named_facts, records,
    stored_bytes, take_limited, ArchiveRecord, Directory, ZipFile,
};
use crate::result::{broken_pipe, broken_pipe_error, other, other_error, ZipError, ZipResult};
use crate::sink::{packing_for, GenericZipWriter, Packing, Sink};
use crate::spec::{
    CentralDirectoryEnd, Footer, Zip64CentralDirectoryEnd, Zip64CentralDirectoryEndLocator,
    ZIP64_BYTES_THR, ZIP64_ENTRY_THR,
};
use crate::stream::{overlay, Cursor, StreamState};
use crate::types::{DateTime, FileRecord, System, ZipFileData, DEFAULT_VERSION, S_IFREG};

verus! {

broadcast use crate::bytes::group_byte_lengths;

/// Metadata for a file to be written
#[derive(Copy, Clone, Debug)]
pub struct FileOptions {
    pub compression_method: CompressionMethod,
    pub compression_level: Option<i32>,
    pub last_modified_time: DateTime,
    pub permissions: Option<u32>,
    pub large_file: bool,
}

impl FileOptions {
    /// Set the compression method for the new file
    ///
    /// The default is `CompressionMethod::Deflated`.
    #[must_use]
    pub fn compression_method(self, method: CompressionMethod) -> (r: FileOptions)
        ensures
            r == (FileOptions { compression_method: method, ..self }),
    {
        let mut options = self;
        options.compression_method = method;
        options
    }

    /// Set the compression level for the new file
    ///
    /// `None` value specifies default compression level.
    ///
    /// Range of values depends on compression method:
    /// * `Deflated`: 0 - 9. Default is 6
    /// * `Bzip2`: 0 - 9. Default is 6
    /// * `Zstd`: -7 - 22, with zero being mapped to default level. Default is 3
    /// * others: only `None` is allowed
    #[must_use]
    pub fn compression_level(self, level: Option<i32>) -> (r: FileOptions)
        ensures
            r == (FileOptions { compression_level: level, ..self }),
    {
        let mut options = self;
        options.compression_level = level;
        options
    }

    /// Set the last modified time
    ///
    /// The default is the current timestamp
    #[must_use]
    pub fn last_modified_time(self, mod_time: DateTime) -> (r: FileOptions)
        ensures
            r == (FileOptions { last_modified_time: mod_time, ..self }),
    {
        let mut options = self;
        options.last_modified_time = mod_time;
        options
    }

    /// Set the permissions for the new file.
    ///
    /// The format is represented with unix-style permissions.
    /// The default is `0o644`, which represents `rw-r--r--` for files,
    /// and `0o755`, which represents `rwxr-xr-x` for directories.
    ///
    /// This method only preserves the file permissions bits (via a `& 0o777`) and discards
    /// higher file mode bits. So it cannot be used to denote an entry as a directory,
    /// symlink, or other special file type.
    #[must_use]
    pub fn unix_permissions(self, mode: u32) -> (r: FileOptions)
        ensures
            r == (FileOptions { permissions: Some(mode & 0o777), ..self }),
    {
        let mut options = self;
        options.permissions = Some(mode & 0o777);
        options
    }

    /// Set whether the new file's compressed and uncompressed size is less than 4 GiB.
    ///
    /// If set to `false` and the file exceeds the limit, an I/O error is thrown. If set to `true`,
    /// readers will require ZIP64 support and if the file does not exceed the limit, 20 B are
    /// wasted. The default is `false`.
    #[must_use]
    pub fn large_file(self, large: bool) -> (r: FileOptions)
        ensures
            r == (FileOptions { large_file: large, ..self }),
    {
        let mut options = self;
        options.large_file = large;
        options
    }
}

impl Default for FileOptions {
    /// Construct a new FileOptions object. Its time is the current one.
    fn default() -> (r: Self)
        ensures
            r.compression_method == CompressionMethod::Deflated,
            r.compression_level is None,
            r.last_modified_time@.in_bounds(),
            r.permissions is None,
            !r.large_file,
    {
        FileOptions {
            compression_method: CompressionMethod::Deflated,
            compression_level: None,
            last_modified_time: DateTime::now(),
            permissions: None,
            large_file: false,
        }
    }
}

/// What is known of contents that come compressed.
#[derive(Copy, Clone, Debug, PartialEq, Eq, Structural)]
pub struct ZipRawValues {
    pub crc32: u32,
    pub compressed_size: u64,
    pub uncompressed_size: u64,
}

/// What is known of contents that are yet to come.
pub open spec fn no_raw_values() -> ZipRawValues {
    ZipRawValues { crc32: 0, compressed_size: 0, uncompressed_size: 0 }
}

/// Whether `made` is what is made of `given` before a file is written: with a
/// type in its permissions, and with a time that there is.
pub open spec fn normalized(given: FileOptions, made: FileOptions) -> bool {
    &&& made.compression_method == given.compression_method
    &&& made.compression_level == given.compression_level
    &&& made.large_file == given.large_file
    &&& made.permissions == Some(
        (match given.permissions {
            Some(mode) => mode,
            None => 0o644u32,
        }) | S_IFREG,
    )
    &&& if given.last_modified_time@.in_bounds() {
        made.last_modified_time == given.last_modified_time
    } else {
        made.last_modified_time@.in_bounds()
    }
}

/// Gives the options a type in their permissions, and a time that there is.
pub fn normalize_options(options: &mut FileOptions)
    ensures
        normalized(*old(options), *final(options)),
{
    let mode: u32 = match options.permissions {
        Some(mode) => mode,
        None => 0o644,
    };
    if !options.last_modified_time.is_valid() {
        options.last_modified_time = FileOptions::default().last_modified_time;
    }
    options.permissions = Some(mode | S_IFREG);
}

/// How far an archive that is being written has got.
#[verifier::ext_equal]
pub ghost struct WriterState {
    /// Where contents go.
    pub sink: Sink,
    /// The entries so far.
    pub files: Seq<FileRecord>,
    /// The names that are taken, each with the number of an entry that has it.
    pub names: Map<Seq<char>, usize>,
    /// The contents of the last entry so far.
    pub contents: Seq<u8>,
    /// Where the data of the last entry begins.
    pub start: u64,
    /// How many bytes of contents were written to the last entry.
    pub bytes_written: u64,
    /// Whether contents may be written.
    pub writing_to_file: bool,
    /// Whether what is written is extra data.
    pub writing_to_extra_field: bool,
    /// Whether the extra data is for the central directory alone.
    pub writing_to_central_extra_field_only: bool,
    /// Whether the local header of the last entry is complete.
    pub writing_raw: bool,
    /// The comment of the archive.
    pub comment: Seq<u8>,
}

/// What a step of the writer returns, and what it leaves.
pub type Step<T> = (WriterState, ZipResult<T>);

impl WriterState {
    /// Whether the local header of the last entry is yet to be completed.
    pub open spec fn open(self) -> bool {
        !self.writing_raw && self.files.len() > 0
    }

    /// Whether the local header of the last entry is still growing.
    pub open spec fn in_local_extra(self) -> bool {
        self.writing_to_extra_field && !self.writing_to_central_extra_field_only
    }

    /// Whether the parts of the state fit together, and the last entry has not
    /// grown too large.
    pub open spec fn wf(self) -> bool {
        &&& self.sound()
        &&& self.open() && !self.files.last().large_file ==> self.bytes_written <= ZIP64_BYTES_THR
    }

    /// Whether the parts of the state fit together.
    pub open spec fn sound(self) -> bool {
        &&& self.sink.wf()
        &&& self.files.len() <= usize::MAX
        &&& forall|name: Seq<char>| #[trigger]
            self.names.contains_key(name) ==> self.names[name] < self.files.len()
                && self.files[self.names[name] as int].file_name == name
        &&& forall|i: int|
            0 <= i < self.files.len() ==> (#[trigger] self.files[i]).last_modified_time.fits()
        &&& self.writing_to_extra_field ==> self.writing_to_file && self.open()
        &&& self.writing_to_central_extra_field_only ==> self.writing_to_extra_field
        &&& self.sink is Packing ==> self.open()
        &&& self.writing_to_file || self.open() ==> self.active_wf()
    }

    /// Whether the parts that concern an entry under way fit together.
    pub open spec fn active_wf(self) -> bool {
        &&& self.files.len() > 0
        &&& !(self.sink is Closed)
        &&& ({
            let f = self.files.last();
            &&& f.header_start + 30 + f.name_bytes().len() + f.local_zip64_len() <= f.data_start
            &&& f.data_start == self.start
            &&& self.in_local_extra() ==> {
                &&& self.sink is Plain
                &&& self.sink.stream().pos == self.start
                &&& f.header_start + 30 + f.name_bytes().len() + f.local_zip64_len() == f.data_start
            }
            &&& match self.sink {
                Sink::Packing(s, _, given) => s.pos == self.start && contents(given).len()
                    == self.bytes_written,
                _ => f.header_start <= self.sink.stream().pos && (self.writing_to_extra_field
                    ==> self.start + self.bytes_written <= self.sink.stream().pos),
            }
        })
    }

    /// Whether all that was written to the last entry lies between its start and where
    /// the stream stands. It does unless the entry turned out to be too large when it was
    /// to be ended: the stream then stands in its local header.
    pub open spec fn on_course(self) -> bool {
        self.writing_to_file || self.open() ==> match self.sink {
            Sink::Plain(s) => self.start + self.bytes_written <= s.pos,
            _ => true,
        }
    }

    /// Whether so many more bytes of contents can be counted. Where contents go straight
    /// into the archive, all of them are there, and can be.
    pub open spec fn counts(self, n: nat) -> bool {
        self.bytes_written + n <= u64::MAX || (self.on_course() && !(self.sink is Packing))
    }

    /// Whether the last entry can be ended: the stream does not stand before its start.
    pub open spec fn endable(self) -> bool {
        self.open() ==> match self.sink {
            Sink::Plain(s) => self.start <= s.pos,
            _ => true,
        }
    }

    /// This with the last entry replaced.
    pub open spec fn with_last(self, f: FileRecord) -> WriterState {
        WriterState { files: self.files.drop_last().push(f), ..self }
    }

    /// This without the last entry, and back to where its local header began.
    pub open spec fn aborted(self) -> WriterState {
        WriterState {
            files: self.files.drop_last(),
            names: self.names.remove(self.files.last().file_name),
            sink: Sink::Plain(
                StreamState {
                    bytes: self.sink.ended().bytes,
                    pos: self.files.last().header_start as nat,
                },
            ),
            writing_to_file: false,
            writing_to_extra_field: false,
            writing_to_central_extra_field_only: false,
            writing_raw: true,
            ..self
        }
    }

    /// This once the extra data of the last entry is in its local header.
    pub open spec fn extra_field_written(self) -> WriterState {
        let f = self.files.last();
        let g = FileRecord { data_start: (f.data_start + f.extra_field.len()) as u64, ..f };
        let s = self.sink.stream().written(f.extra_field);
        WriterState {
            sink: Sink::Plain(
                StreamState {
                    bytes: overlay(s.bytes, f.header_start + 28, u16_bytes(f.local_extra_len())),
                    pos: s.pos,
                },
            ),
            start: g.data_start,
            ..self.with_last(g)
        }
    }

    /// The end of extra data and the start of contents.
    pub open spec fn extra_data_ended(self) -> Step<u64> {
        let f = self.files.last();
        if !self.writing_to_extra_field {
            (self, Err(other("Not writing to extra field")))
        } else if extra_data_flaw(f.extra_field) is Some {
            (self.aborted(), Err(extra_data_flaw(f.extra_field)->0))
        } else {
            match packing_for(f.compression_method, f.compression_level) {
                Err(e) => (self.aborted(), Err(e)),
                Ok(packing) => if self.writing_to_central_extra_field_only {
                    (
                        WriterState {
                            writing_to_extra_field: false,
                            writing_to_central_extra_field_only: false,
                            ..self
                        },
                        Ok(f.data_start),
                    )
                } else {
                    let w = self.extra_field_written();
                    (
                        WriterState {
                            sink: Sink::opened(w.sink.stream(), packing),
                            writing_to_extra_field: false,
                            ..w
                        },
                        Ok(w.start),
                    )
                },
            }
        }
    }

    /// The last entry with what its contents turned out to be, given where they
    /// end.
    pub open spec fn completed(self, end: nat) -> FileRecord {
        FileRecord {
            crc32: crc32_of(self.contents),
            uncompressed_size: self.bytes_written,
            compressed_size: (end - self.start) as u64,
            ..self.files.last()
        }
    }

    /// The end of the last entry, no extra data being under way. Where the entry turns
    /// out to be too large, the stream is left in its local header.
    pub open spec fn contents_ended(self) -> Step<()> {
        if self.sink is Closed {
            (self, Err(broken_pipe("ZipWriter was already closed")))
        } else {
            let s = self.sink.ended();
            let w = WriterState { sink: Sink::Plain(s), ..self };
            if !self.open() {
                (WriterState { writing_to_file: false, writing_raw: true, ..w }, Ok(()))
            } else {
                let f = self.completed(s.pos);
                let w = w.with_last(f);
                if !f.large_file && f.compressed_size > ZIP64_BYTES_THR {
                    (
                        WriterState { sink: Sink::Plain(cut_short(s.bytes, f)), ..w },
                        Err(not_large()),
                    )
                } else {
                    (
                        WriterState {
                            sink: Sink::Plain(
                                StreamState { bytes: local_patched(s.bytes, f), pos: s.pos },
                            ),
                            writing_to_file: false,
                            writing_raw: true,
                            ..w
                        },
                        Ok(()),
                    )
                }
            }
        }
    }

    /// This with no extra data under way.
    pub open spec fn past_extra(self) -> WriterState {
        if self.writing_to_extra_field {
            self.extra_data_ended().0
        } else {
            self
        }
    }

    /// The end of the last entry.
    pub open spec fn finished(self) -> Step<()> {
        if self.writing_to_extra_field {
            match self.extra_data_ended() {
                (w, Err(e)) => (w, Err(e)),
                (w, Ok(_)) => w.contents_ended(),
            }
        } else {
            self.contents_ended()
        }
    }
}

/// The entry that a file begins with.
pub open spec fn new_entry(
    name: Seq<char>,
    options: FileOptions,
    raw: ZipRawValues,
    header_start: u64,
) -> FileRecord {
    FileRecord {
        system: System::Unix,
        version_made_by: DEFAULT_VERSION,
        encrypted: false,
        using_data_descriptor: false,
        compression_method: options.compression_method,
        compression_level: options.compression_level,
        last_modified_time: options.last_modified_time@,
        crc32: raw.crc32,
        compressed_size: raw.compressed_size,
        uncompressed_size: raw.uncompressed_size,
        file_name: name,
        file_name_raw: Seq::empty(),
        extra_field: Seq::empty(),
        file_comment: Seq::empty(),
        header_start,
        central_header_start: 0,
        data_start: 0,
        external_attributes: (match options.permissions {
            Some(mode) => mode,
            None => 0o100644u32,
        }) << 16,
        large_file: options.large_file,
        aes_mode: None,
    }
}

/// Makes the entry that a file begins with.
pub fn new_file_data(
    name: &str,
    options: FileOptions,
    raw_values: ZipRawValues,
    header_start: u64,
) -> (file: ZipFileData)
    ensures
        file@ == new_entry(name@, options, raw_values, header_start),
{
    let permissions: u32 = match options.permissions {
        Some(mode) => mode,
        None => 0o100644,
    };
    let file = ZipFileData {
        system: System::Unix,
        version_made_by: DEFAULT_VERSION,
        encrypted: false,
        using_data_descriptor: false,
        compression_method: options.compression_method,
        compression_level: options.compression_level,
        last_modified_time: options.last_modified_time,
        crc32: raw_values.crc32,
        compressed_size: raw_values.compressed_size,
        uncompressed_size: raw_values.uncompressed_size,
        file_name: name.to_owned(),
        file_name_raw: Vec::new(),  // Never used for saving
        extra_field: Vec::new(),
        file_comment: String::new(),
        header_start,
        data_start: 0,
        central_header_start: 0,
        external_attributes: permissions << 16,
        large_file: options.large_file,
        aes_mode: None,
    };
    assert(file@ =~= new_entry(name@, options, raw_values, header_start));
    file
}

/// The failure of a name that is taken.
pub open spec fn duplicate_name() -> ZipError {
    ZipError::InvalidArchive("Duplicate filename")
}

impl WriterState {
    /// This with one more entry.
    pub open spec fn with_entry(self, f: FileRecord) -> WriterState {
        WriterState {
            files: self.files.push(f),
            names: self.names.insert(f.file_name, self.files.len() as usize),
            ..self
        }
    }

    /// A new entry after the end of the last one.
    pub open spec fn entry_begun(
        self,
        name: Seq<char>,
        options: FileOptions,
        raw: ZipRawValues,
    ) -> Step<()> {
        match self.finished() {
            (w, Err(e)) => (w, Err(e)),
            (w, Ok(_)) => if w.names.contains_key(name) {
                (w, Err(duplicate_name()))
            } else {
                let s = w.sink.stream();
                let f = new_entry(name, options, raw, s.pos as u64);
                let t = s.written(f.local_header());
                (
                    WriterState {
                        sink: Sink::Plain(t),
                        contents: Seq::empty(),
                        start: t.pos as u64,
                        bytes_written: 0,
                        writing_raw: false,
                        ..w.with_entry(FileRecord { data_start: t.pos as u64, ..f })
                    },
                    Ok(()),
                )
            },
        }
    }

    /// Whether there is nothing of the last entry yet but its local header.
    pub open spec fn begun_wf(self) -> bool {
        let f = self.files.last();
        &&& self.bytes_written == 0
        &&& self.contents.len() == 0
        &&& f.extra_field.len() == 0
        &&& self.start == f.data_start == self.sink.stream().pos
        &&& f.header_start + 30 + f.name_bytes().len() + f.local_zip64_len() == f.data_start
    }

    /// A new entry whose contents are to be written.
    pub open spec fn file_started(self, name: Seq<char>, options: FileOptions) -> Step<()> {
        if self.sink is Closed {
            (self, Err(broken_pipe("ZipWriter was already closed")))
        } else {
            match packing_for(options.compression_method, options.compression_level) {
                Err(e) => (self, Err(e)),
                Ok(packing) => match self.entry_begun(name, options, no_raw_values()) {
                    (w, Err(e)) => (w, Err(e)),
                    (w, Ok(_)) => (
                        WriterState {
                            sink: Sink::opened(w.sink.stream(), packing),
                            writing_to_file: true,
                            ..w
                        },
                        Ok(()),
                    ),
                },
            }
        }
    }

    /// More contents, or more extra data.
    pub open spec fn data_written(self, data: Seq<u8>) -> Step<usize> {
        let f = self.files.last();
        if !self.writing_to_file {
            (self, Err(other("No file has been started")))
        } else if self.sink is Closed {
            (self, Err(broken_pipe("write(): ZipWriter was already closed")))
        } else if self.writing_to_extra_field {
            (
                self.with_last(FileRecord { extra_field: f.extra_field + data, ..f }),
                Ok(data.len() as usize),
            )
        } else {
            let w = WriterState {
                sink: self.sink.written(data),
                contents: self.contents + data,
                bytes_written: (self.bytes_written + data.len()) as u64,
                ..self
            };
            if w.bytes_written > ZIP64_BYTES_THR && !f.large_file {
                (w.aborted(), Err(not_large()))
            } else {
                (w, Ok(data.len() as usize))
            }
        }
    }

    /// This after what a compressor holds back was put into the archive.
    pub open spec fn flushed(self) -> Step<()> {
        if self.sink is Closed {
            (self, Err(broken_pipe("flush(): ZipWriter was already closed")))
        } else {
            (WriterState { sink: self.sink.flushed(), ..self }, Ok(()))
        }
    }
}

/// The central headers of the files, one after the other, streamed or not.
pub open spec fn central_headers(files: Seq<FileRecord>, streamed: bool) -> Seq<u8>
    decreases files.len(),
{
    if files.len() == 0 {
        Seq::empty()
    } else {
        central_headers(files.drop_last(), streamed) + files.last().central_header(streamed)
    }
}

/// Whether the end of the central directory needs a ZIP64 record.
pub open spec fn needs_zip64(n: nat, central_start: nat, central_size: nat) -> bool {
    n > ZIP64_ENTRY_THR || central_size > ZIP64_BYTES_THR || central_start > ZIP64_BYTES_THR
}

/// The ZIP64 record at the end of the central directory.
pub open spec fn zip64_end_for(
    n: nat,
    central_start: nat,
    central_size: nat,
) -> Zip64CentralDirectoryEnd {
    Zip64CentralDirectoryEnd {
        version_made_by: DEFAULT_VERSION as u16,
        version_needed_to_extract: DEFAULT_VERSION as u16,
        disk_number: 0,
        disk_with_central_directory: 0,
        number_of_files_on_this_disk: n as u64,
        number_of_files: n as u64,
        central_directory_size: central_size as u64,
        central_directory_offset: central_start as u64,
    }
}

/// The locator of the ZIP64 record at the end of the central directory.
pub open spec fn locator_for(central_end: nat) -> Zip64CentralDirectoryEndLocator {
    Zip64CentralDirectoryEndLocator {
        disk_with_central_directory: 0,
        end_of_central_directory_offset: central_end as u64,
        number_of_disks: 1,
    }
}

/// The record at the end of the central directory.
pub open spec fn footer_for(
    n: nat,
    central_start: nat,
    central_size: nat,
    comment: Seq<u8>,
) -> Footer {
    let count = if n > ZIP64_ENTRY_THR {
        0xffff
    } else {
        n as u16
    };
    Footer {
        disk_number: 0,
        disk_with_central_directory: 0,
        number_of_files_on_this_disk: count,
        number_of_files: count,
        central_directory_size: capped(central_size as u64),
        central_directory_offset: capped(central_start as u64),
        zip_file_comment: comment,
    }
}

/// What comes after the central headers.
pub open spec fn directory_end(
    n: nat,
    central_start: nat,
    central_size: nat,
    comment: Seq<u8>,
) -> Seq<u8> {
    (if needs_zip64(n, central_start, central_size) {
        zip64_end_for(n, central_start, central_size).bytes() + locator_for(
            central_start + central_size,
        ).bytes()
    } else {
        Seq::empty()
    }) + footer_for(n, central_start, central_size, comment).bytes()
}

/// A way in which an entry is made the copy of another: the same way to store
/// contents, the same time if there is such, and the same permissions.
pub open spec fn copies(f: FileRecord, made: FileOptions) -> bool {
    &&& made.compression_method == f.compression_method
    &&& made.compression_level is None
    &&& made.large_file == (f.compressed_size > ZIP64_BYTES_THR || f.uncompressed_size
        > ZIP64_BYTES_THR)
    &&& made.permissions == Some(
        (match f.unix_mode() {
            Some(mode) => mode & 0o777,
            None => 0o644u32,
        }) | S_IFREG,
    )
    &&& if f.last_modified_time.in_bounds() {
        made.last_modified_time@ == f.last_modified_time
    } else {
        made.last_modified_time@.in_bounds()
    }
}

/// What is known of the contents of a file.
pub open spec fn raw_values_of(f: FileRecord) -> ZipRawValues {
    ZipRawValues {
        crc32: f.crc32,
        compressed_size: f.compressed_size,
        uncompressed_size: f.uncompressed_size,
    }
}

/// The padding that moves data from `data_start` to a multiple of `align`, its
/// own header included.
pub open spec fn padding(data_start: int, align: int) -> Seq<u8> {
    let pad_length = (align - (data_start + 4) % align) % align;
    seq![0x7au8, 0x61u8] + u16_bytes(pad_length as u16) + Seq::new(pad_length as nat, |i: int| 0u8)
}

/// The name of a directory: it ends with a slash of either kind.
pub open spec fn directory_name(name: Seq<char>) -> Seq<char> {
    if name.len() > 0 && (name.last() == '/' || name.last() == '\\') {
        name
    } else {
        name.push('/')
    }
}

/// The options of an entry of a certain type.
pub open spec fn typed(options: FileOptions, default: u32, bits: u32) -> FileOptions {
    FileOptions {
        permissions: Some(
            (match options.permissions {
                Some(mode) => mode,
                None => default,
            }) | bits,
        ),
        compression_method: CompressionMethod::Stored,
        ..options
    }
}

impl WriterState {
    /// A new archive.
    pub open spec fn fresh(stream: StreamState) -> WriterState {
        WriterState {
            sink: Sink::Plain(stream),
            files: Seq::empty(),
            names: Map::empty(),
            contents: Seq::empty(),
            start: 0,
            bytes_written: 0,
            writing_to_file: false,
            writing_to_extra_field: false,
            writing_to_central_extra_field_only: false,
            writing_raw: false,
            comment: Seq::empty(),
        }
    }

    /// An archive to which more is to be added: what comes next is written over
    /// its central directory.
    pub open spec fn appended(stream: StreamState, archive: ArchiveRecord) -> WriterState {
        WriterState {
            sink: Sink::Plain(
                StreamState { bytes: stream.bytes, pos: archive.directory_start as nat },
            ),
            files: archive.files,
            names: named(archive.files),
            writing_raw: true,
            comment: archive.comment,
            ..WriterState::fresh(stream)
        }
    }

    /// A new entry whose extra data is to be written.
    pub open spec fn extra_data_started(self, name: Seq<char>, options: FileOptions) -> Step<u64> {
        match self.entry_begun(name, options, no_raw_values()) {
            (w, Err(e)) => (w, Err(e)),
            (w, Ok(_)) => (
                WriterState { writing_to_file: true, writing_to_extra_field: true, ..w },
                Ok(w.files.last().data_start),
            ),
        }
    }

    /// The end of the extra data that is also in the local header.
    pub open spec fn local_extra_ended(self) -> Step<u64> {
        match self.extra_data_ended() {
            (w, Err(e)) => (w, Err(e)),
            (w, Ok(start)) => (
                WriterState {
                    writing_to_extra_field: true,
                    writing_to_central_extra_field_only: true,
                    ..w.with_last(FileRecord { extra_field: Seq::empty(), ..w.files.last() })
                },
                Ok(start),
            ),
        }
    }

    /// A new entry whose data begins at a multiple of `align`.
    pub open spec fn aligned(self, name: Seq<char>, options: FileOptions, align: u16) -> Step<u64> {
        match self.extra_data_started(name, options) {
            (w, Err(e)) => (w, Err(e)),
            (w, Ok(start)) => {
                let padded = if align > 1 && start as int % align as int != 0 {
                    w.data_written(padding(start as int, align as int)).0.local_extra_ended()
                } else {
                    (w, Ok(start))
                };
                match padded {
                    (w, Err(e)) => (w, Err(e)),
                    (w, Ok(_)) => match w.extra_data_ended() {
                        (w, Err(e)) => (w, Err(e)),
                        (w, Ok(end)) => (w, Ok((end - start) as u64)),
                    },
                }
            },
        }
    }

    /// A new entry whose contents come compressed.
    pub open spec fn raw_copied(
        self,
        name: Seq<char>,
        options: FileOptions,
        raw: ZipRawValues,
        packed: Seq<u8>,
    ) -> Step<()> {
        match self.entry_begun(name, options, raw) {
            (w, Err(e)) => (w, Err(e)),
            (w, Ok(_)) => match (WriterState {
                writing_to_file: true,
                writing_raw: true,
                ..w
            }).data_written(packed) {
                (w, Err(e)) => (w, Err(e)),
                (w, Ok(_)) => (w, Ok(())),
            },
        }
    }

    /// A new entry with a copy of what is stored for another.
    pub open spec fn deep_copied(
        self,
        src: Seq<char>,
        dest: Seq<char>,
        options: FileOptions,
    ) -> Step<()> {
        match self.finished() {
            (w, Err(e)) => (w, Err(e)),
            (w, Ok(_)) => if !w.names.contains_key(src) {
                (w, Err(ZipError::FileNotFound))
            } else {
                let f = w.files[w.names[src] as int];
                match stored_bytes(w.sink.stream().bytes, f) {
                    Err(e) => (w, Err(e)),
                    Ok(packed) => match w.raw_copied(dest, options, raw_values_of(f), packed) {
                        (w, Err(e)) => (w, Err(e)),
                        (w, Ok(_)) => w.finished(),
                    },
                }
            },
        }
    }

    /// A new entry that refers to what is stored for another.
    pub open spec fn shallow_copied(self, src: Seq<char>, dest: Seq<char>) -> Step<()> {
        match self.finished() {
            (w, Err(e)) => (w, Err(e)),
            (w, Ok(_)) => if !w.names.contains_key(src) {
                (w, Err(ZipError::FileNotFound))
            } else if w.names.contains_key(dest) {
                (w, Err(duplicate_name()))
            } else {
                let f = w.files[w.names[src] as int];
                (w.with_entry(FileRecord { file_name: dest, ..f }), Ok(()))
            },
        }
    }

    /// A new entry for a directory.
    pub open spec fn directory_added(self, name: Seq<char>, options: FileOptions) -> Step<()> {
        self.entry_begun(
            directory_name(name),
            typed(options, 0o755, 0o40000),
            no_raw_values(),
        )
    }

    /// A new entry for a symbolic link.
    pub open spec fn symlink_added(
        self,
        name: Seq<char>,
        target: Seq<u8>,
        options: FileOptions,
    ) -> Step<()> {
        match self.entry_begun(name, typed(options, 0o777, 0o120000), no_raw_values()) {
            (w, Err(e)) => (w, Err(e)),
            (w, Ok(_)) => match (WriterState { writing_to_file: true, ..w }).data_written(target) {
                (w, Err(e)) => (w, Err(e)),
                (w, Ok(_)) => (WriterState { writing_to_file: false, ..w }, Ok(())),
            },
        }
    }

    /// The end of the archive.
    pub open spec fn finalized(self) -> Step<()> {
        match self.finished() {
            (w, Err(e)) => (w, Err(e)),
            (w, Ok(_)) => {
                let s = w.sink.stream();
                let headers = central_headers(w.files, false);
                let end = directory_end(w.files.len(), s.pos, headers.len(), w.comment);
                (WriterState { sink: Sink::Plain(s.written(headers).written(end)), ..w }, Ok(()))
            },
        }
    }
}

/// The padding leads to a multiple of `align`, and its length can be written.
pub proof fn padding_aligns(data_start: int, align: int)
    requires
        0 <= data_start,
        0 < align <= 0xffff,
    ensures
        ({
            let pad_length = (align - (data_start + 4) % align) % align;
            &&& 0 <= pad_length < align
            &&& pad_length == (align - (data_start % align + 4) % align) % align
            &&& padding(data_start, align).len() == 4 + pad_length
            &&& (data_start + padding(data_start, align).len()) % align == 0
        }),
{
    let r = (data_start + 4) % align;
    let pad_length = (align - r) % align;
    vstd::arithmetic::div_mod::lemma_add_mod_noop(data_start, 4, align);
    vstd::arithmetic::div_mod::lemma_add_mod_noop(data_start % align, 4, align);
    vstd::arithmetic::div_mod::lemma_mod_twice(data_start, align);
    vstd::arithmetic::div_mod::lemma_mod_bound(data_start + 4, align);
    vstd::arithmetic::div_mod::lemma_mod_bound(align - r, align);
    vstd::arithmetic::div_mod::lemma_add_mod_noop(data_start + 4, align - r, align);
    vstd::arithmetic::div_mod::lemma_add_mod_noop(data_start + 4, pad_length, align);
    vstd::arithmetic::div_mod::lemma_mod_twice(align - r, align);
    vstd::arithmetic::div_mod::lemma_fundamental_div_mod(data_start + 4, align);
    let q = (data_start + 4) / align;
    assert(data_start + 4 + (align - r) == align * (q + 1)) by (nonlinear_arith)
        requires
            data_start + 4 == align * q + r,
    ;
    vstd::arithmetic::div_mod::lemma_mod_multiples_basic(q + 1, align);
    assert((align * (q + 1)) % align == 0) by {
        vstd::arithmetic::mul::lemma_mul_is_commutative(align, q + 1);
    }
}

/// Appends what comes after the central headers.
pub fn write_directory_end(
    out: &mut Vec<u8>,
    count: usize,
    central_start: u64,
    central_size: u64,
    comment: &Vec<u8>,
)
    requires
        central_start + central_size <= u64::MAX,
    ensures
        final(out)@ == old(out)@ + directory_end(
            count as nat,
            central_start as nat,
            central_size as nat,
            comment@,
        ),
{
    let ghost before = out@;
    let ghost zip64 = Seq::<u8>::empty();
    if count > ZIP64_ENTRY_THR || central_size > ZIP64_BYTES_THR || central_start
        > ZIP64_BYTES_THR {
        let zip64_footer = Zip64CentralDirectoryEnd {
            version_made_by: DEFAULT_VERSION as u16,
            version_needed_to_extract: DEFAULT_VERSION as u16,
            disk_number: 0,
            disk_with_central_directory: 0,
            number_of_files_on_this_disk: count as u64,
            number_of_files: count as u64,
            central_directory_size: central_size,
            central_directory_offset: central_start,
        };
        zip64_footer.write(out);
        let zip64_locator = Zip64CentralDirectoryEndLocator {
            disk_with_central_directory: 0,
            end_of_central_directory_offset: central_start + central_size,
            number_of_disks: 1,
        };
        zip64_locator.write(out);
        proof {
            zip64 = zip64_footer.bytes() + zip64_locator.bytes();
        }
    }
    assert(out@ =~= before + zip64);
    let number_of_files: u16 = if count > ZIP64_ENTRY_THR {
        0xffff
    } else {
        count as u16
    };
    let comment_copy = comment.clone();
    assert(comment_copy@ =~= comment@);
    let footer = CentralDirectoryEnd {
        disk_number: 0,
        disk_with_central_directory: 0,
        zip_file_comment: comment_copy,
        number_of_files_on_this_disk: number_of_files,
        number_of_files,
        central_directory_size: cap(central_size),
        central_directory_offset: cap(central_start),
    };
    footer.write(out);
    assert(out@ =~= before + (zip64 + footer@.bytes()));
}

/// Makes the padding that moves data from `data_start` to a multiple of
/// `align`.
pub fn make_padding(data_start: u64, align: u64) -> (pad: Vec<u8>)
    requires
        1 < align <= 0xffff,
    ensures
        pad@ == padding(data_start as int, align as int),
        (data_start + pad@.len()) % align as int == 0,
        pad@.len() > 0,
{
    proof {
        padding_aligns(data_start as int, align as int);
    }
    let pad_length: u64 = (align - (data_start % align + 4) % align) % align;
    let mut pad: Vec<u8> = Vec::new();
    pad.push(0x7a);  // "za", 0x617a
    pad.push(0x61);
    put_u16(&mut pad, pad_length as u16);
    let ghost head = pad@;
    let mut i: u64 = 0;
    while i < pad_length
        invariant
            i <= pad_length,
            pad@ == head + Seq::new(i as nat, |j: int| 0u8),
        decreases pad_length - i,
    {
        pad.push(0);
        i += 1;
        assert(pad@ =~= head + Seq::new(i as nat, |j: int| 0u8));
    }
    assert(pad@ =~= padding(data_start as int, align as int));
    pad
}

/// How far the contents of an entry have got.
struct ZipWriterStats {
    hasher: Crc32,
    start: u64,
    bytes_written: u64,
}

/// ZIP archive generator
///
/// Handles the bookkeeping involved in building an archive, and provides an
/// API to edit its contents.
pub struct ZipWriter {
    inner: GenericZipWriter,
    files: Vec<ZipFileData>,
    files_by_name: StringHashMap<usize>,
    stats: ZipWriterStats,
    writing_to_file: bool,
    writing_to_extra_field: bool,
    writing_to_central_extra_field_only: bool,
    writing_raw: bool,
    comment: Vec<u8>,
}

impl ZipWriter {
    /// How far this has got.
    pub closed spec fn view(&self) -> WriterState {
        WriterState {
            sink: self.inner@,
            files: records(self.files@),
            names: self.files_by_name@,
            contents: self.stats.hasher@,
            start: self.stats.start,
            bytes_written: self.stats.bytes_written,
            writing_to_file: self.writing_to_file,
            writing_to_extra_field: self.writing_to_extra_field,
            writing_to_central_extra_field_only: self.writing_to_central_extra_field_only,
            writing_raw: self.writing_raw,
            comment: self.comment@,
        }
    }

    /// Replaces the last entry.
    fn set_last(&mut self, file: ZipFileData)
        requires
            old(self)@.files.len() > 0,
        ensures
            final(self)@ == old(self)@.with_last(file@),
    {
        let ghost before = self@;
        self.files.pop();
        self.files.push(file);
        assert(records(self.files@) =~= before.files.drop_last().push(file@));
    }

    /// Removes the file currently being written from the archive if there is one, or else removes
    /// the file most recently written.
    pub fn abort_file(&mut self) -> (r: ZipResult<()>)
        requires
            old(self)@.sound(),
            old(self)@.files.len() > 0 ==> !(old(self)@.sink is Closed),
        ensures
            final(self)@.wf(),
            old(self)@.files.len() == 0 ==> {
                &&& r == Err::<(), ZipError>(ZipError::FileNotFound)
                &&& final(self)@ == old(self)@
            },
            old(self)@.files.len() > 0 ==> r is Ok && final(self)@ == old(self)@.aborted(),
    {
        let ghost before = self@;
        let last_file = match self.files.pop() {
            None => {
                return Err(ZipError::FileNotFound);
            },
            Some(file) => file,
        };
        self.files_by_name.remove(last_file.file_name.as_str());
        let plain = match self.inner.prepare_next_writer(CompressionMethod::Stored, None) {
            Ok(packing) => packing,
            Err(e) => {
                return Err(e);
            },
        };
        if let Err(e) = self.inner.switch_to(plain) {
            return Err(e);
        }
        let mut stream = self.inner.unwrap();
        stream.seek_start(last_file.header_start);
        self.inner = GenericZipWriter::storer(stream);
        self.writing_to_file = false;
        self.writing_to_extra_field = false;
        self.writing_to_central_extra_field_only = false;
        self.writing_raw = true;
        assert(records(self.files@) =~= before.files.drop_last());
        assert(self@ =~= before.aborted());
        Ok(())
    }

    /// End extra data and start file data. Requires [`ZipWriter::start_file_with_extra_data`].
    ///
    /// Returns the final starting offset of the file data.
    pub fn end_extra_data(&mut self) -> (r: ZipResult<u64>)
        requires
            old(self)@.wf(),
        ensures
            final(self)@.wf(),
            (final(self)@, r) == old(self)@.extra_data_ended(),
            old(self)@.on_course() ==> final(self)@.on_course(),
    {
        let ghost before = self@;
        // Require `start_file_with_extra_data()`. Ensures `file` is some.
        if !self.writing_to_extra_field {
            return Err(other_error("Not writing to extra field"));
        }
        let index: usize = self.files.len() - 1;
        let mut file = self.files[index].clone();
        assert(file@ == before.files.last());

        if let Err(e) = validate_extra_data(&file) {
            let aborted = self.abort_file();
            return Err(e);
        }
        let packing = match self.inner.prepare_next_writer(
            file.compression_method,
            file.compression_level,
        ) {
            Ok(packing) => packing,
            Err(e) => {
                let aborted = self.abort_file();
                return Err(e);
            },
        };

        let mut data_start_result: u64 = file.data_start;

        if !self.writing_to_central_extra_field_only {
            let mut writer = self.inner.unwrap();

            // Append extra data to local file header and keep it for central file header.
            writer.write_all(file.extra_field.as_slice());
            let header_end: u64 = writer.stream_position();

            // Update final `data_start`.
            self.stats.start = header_end;
            file.data_start = header_end;
            data_start_result = header_end;

            // Update extra field length in local file header.
            let zip64_length: u16 = if file.large_file {
                20
            } else {
                0
            };
            let extra_field_length: u16 = zip64_length.wrapping_add(file.extra_field.len() as u16);
            writer.seek_start(file.header_start + 28);
            let mut length: Vec<u8> = Vec::new();
            put_u16(&mut length, extra_field_length);
            assert(length@ =~= u16_bytes(file@.local_extra_len()));
            writer.write_all(length.as_slice());
            writer.seek_start(header_end);
            proof {
                writer.fits();
            }
            self.inner = GenericZipWriter::storer(writer);
            if let Err(e) = self.inner.switch_to(packing) {
                return Err(e);
            }
            self.set_last(file);
        }
        self.writing_to_extra_field = false;
        self.writing_to_central_extra_field_only = false;
        assert(self@ =~= before.extra_data_ended().0);
        Ok(data_start_result)
    }

    /// Ends the last entry: completes its local header.
    fn finish_file(&mut self) -> (r: ZipResult<()>)
        requires
            old(self)@.wf(),
            old(self)@.endable(),
        ensures
            final(self)@.wf(),
            (final(self)@, r) == old(self)@.finished(),
            r is Ok ==> final(self)@.sink is Plain && !final(self)@.open()
                && !final(self)@.writing_to_file,
            old(self)@.finished().1 is Ok ==> old(self)@.past_extra().sink.recoverable(),
            r != Err::<(), ZipError>(not_large()) ==> final(self)@.on_course(),
    {
        if self.writing_to_extra_field {
            // Implicitly calling [`ZipWriter::end_extra_data`] for empty files.
            if let Err(e) = self.end_extra_data() {
                return Err(e);
            }
        }
        self.finish_contents()
    }

    /// Ends the last entry, no extra data being under way.
    fn finish_contents(&mut self) -> (r: ZipResult<()>)
        requires
            old(self)@.wf(),
            old(self)@.endable(),
            !old(self)@.writing_to_extra_field,
        ensures
            final(self)@.wf(),
            (final(self)@, r) == old(self)@.contents_ended(),
            r is Ok ==> final(self)@.sink is Plain && !final(self)@.open()
                && !final(self)@.writing_to_file,
            old(self)@.contents_ended().1 is Ok ==> old(self)@.sink.recoverable(),
            r != Err::<(), ZipError>(not_large()) ==> final(self)@.on_course(),
    {
        let ghost before = self@;
        let plain = match self.inner.prepare_next_writer(CompressionMethod::Stored, None) {
            Ok(packing) => packing,
            Err(e) => {
                return Err(e);
            },
        };
        if let Err(e) = self.inner.switch_to(plain) {
            return Err(e);
        }
        if !self.writing_raw && self.files.len() > 0 {
            let mut writer = self.inner.unwrap();
            let index: usize = self.files.len() - 1;
            let mut file = self.files[index].clone();
            assert(file@ == before.files.last());
            file.crc32 = self.stats.hasher.value();
            file.uncompressed_size = self.stats.bytes_written;
            let file_end: u64 = writer.stream_position();
            file.compressed_size = file_end - self.stats.start;
            assert(file@ == before.completed(before.sink.ended().pos));

            let updated = update_local_file_header(&mut writer, &file);
            if updated.is_ok() {
                writer.seek_start(file_end);
            }
            proof {
                writer.fits();
            }
            self.inner = GenericZipWriter::storer(writer);
            self.set_last(file);
            if let Err(e) = updated {
                assert(self@ =~= before.contents_ended().0);
                return Err(e);
            }
        }
        self.writing_to_file = false;
        self.writing_raw = true;
        assert(self@ =~= before.contents_ended().0);
        Ok(())
    }

    /// Adds an entry, unless its name is taken.
    fn insert_file_data(&mut self, file: ZipFileData) -> (r: ZipResult<usize>)
        ensures
            old(self)@.names.contains_key(file@.file_name) ==> {
                &&& r == Err::<usize, ZipError>(duplicate_name())
                &&& final(self)@ == old(self)@
            },
            !old(self)@.names.contains_key(file@.file_name) ==> {
                &&& r == Ok::<usize, ZipError>(old(self)@.files.len() as usize)
                &&& final(self)@ == old(self)@.with_entry(file@)
                &&& final(self)@.files.len() <= usize::MAX
            },
    {
        let ghost before = self@;
        if self.files_by_name.contains_key(file.file_name.as_str()) {
            return Err(ZipError::InvalidArchive("Duplicate filename"));
        }
        let name = file.file_name.clone();
        self.files.push(file);
        let index: usize = self.files.len() - 1;
        self.files_by_name.insert(name, index);
        assert(records(self.files@) =~= before.files.push(file@));
        Ok(index)
    }

    /// Start a new file for with the requested options.
    fn start_entry(&mut self, name: &str, options: FileOptions, raw_values: ZipRawValues) -> (r:
        ZipResult<()>)
        requires
            old(self)@.wf(),
            old(self)@.endable(),
        ensures
            final(self)@.wf(),
            (final(self)@, r) == old(self)@.entry_begun(name@, options, raw_values),
            r is Ok ==> {
                &&& final(self)@.sink is Plain
                &&& final(self)@.open()
                &&& !final(self)@.writing_to_file
                &&& !final(self)@.writing_to_extra_field
                &&& final(self)@.begun_wf()
            },
            old(self)@.finished().1 is Ok ==> old(self)@.past_extra().sink.recoverable(),
            r != Err::<(), ZipError>(not_large()) ==> final(self)@.on_course(),
    {
        if let Err(e) = self.finish_file() {
            return Err(e);
        }
        let ghost before = self@;
        let mut writer = self.inner.unwrap();
        let header_start: u64 = writer.stream_position();
        let mut file = new_file_data(name, options, raw_values, header_start);
        if self.files_by_name.contains_key(name) {
            self.inner = GenericZipWriter::storer(writer);
            assert(self@ =~= before);
            return Err(ZipError::InvalidArchive("Duplicate filename"));
        }
        let ghost f = file@;
        let mut header: Vec<u8> = Vec::new();
        write_local_file_header(&mut header, &file);
        proof {
            assert(header@ =~= f.local_header());
            header_lengths(f);
        }
        writer.write_all(header.as_slice());
        let header_end: u64 = writer.stream_position();
        proof {
            writer.fits();
        }
        file.data_start = header_end;
        let inserted = self.insert_file_data(file);
        self.inner = GenericZipWriter::storer(writer);
        self.stats = ZipWriterStats { hasher: Crc32::new(), start: header_end, bytes_written: 0 };
        self.writing_raw = false;
        assert(self@ =~= old(self)@.entry_begun(name@, options, raw_values).0);
        Ok(())
    }

    /// Create a file in the archive and start writing its' contents. The file must not have the
    /// same name as a file already in the archive.
    ///
    /// The data should be written using [`ZipWriter::write`]. Where the time of the options is not
    /// one that there is, the current one takes its place.
    pub fn start_file(&mut self, name: &str, options: FileOptions) -> (r: ZipResult<()>)
        requires
            old(self)@.wf(),
            packing_for(options.compression_method, options.compression_level) is Ok ==> old(
                self,
            )@.endable(),
        ensures
            final(self)@.wf(),
            exists|made: FileOptions| #[trigger]
                normalized(options, made) && (final(self)@, r) == old(self)@.file_started(
                    name@,
                    made,
                ),
            old(self)@.finished().1 is Ok && packing_for(
                options.compression_method,
                options.compression_level,
            ) is Ok ==> old(self)@.past_extra().sink.recoverable(),
            r is Ok || (old(self)@.on_course() && r != Err::<(), ZipError>(not_large()))
                ==> final(self)@.on_course(),
            r is Ok ==> final(self)@.files.last().file_name == name@,
            r is Ok ==> final(self)@.files.last().compression_method == options.compression_method,
            r is Ok && options.last_modified_time@.in_bounds()
                ==> final(self)@.files.last().last_modified_time == options.last_modified_time@,
            r is Ok ==> (options.permissions matches Some(mode) ==> mode <= 0xffff
                ==> final(self)@.files.last().unix_mode() == Some(mode | 0o100000)),
            r is Ok && options.permissions is None ==> final(self)@.files.last().unix_mode()
                == Some(0o100644u32),
    {
        let ghost given = options;
        let mut options = options;
        normalize_options(&mut options);
        let packing = match self.inner.prepare_next_writer(
            options.compression_method,
            options.compression_level,
        ) {
            Ok(packing) => packing,
            Err(e) => {
                return Err(e);
            },
        };
        if let Err(e) = self.start_entry(name, options, ZipRawValues {
            crc32: 0,
            compressed_size: 0,
            uncompressed_size: 0,
        }) {
            return Err(e);
        }
        if let Err(e) = self.inner.switch_to(packing) {
            return Err(e);
        }
        self.writing_to_file = true;
        assert(self@ =~= old(self)@.file_started(name@, options).0);
        proof {
            started_file_says(old(self)@, name@, given, options);
        }
        Ok(())
    }

    /// Writes contents of the file that was started last, or extra data of it.
    pub fn write(&mut self, buf: &[u8]) -> (r: ZipResult<usize>)
        requires
            old(self)@.wf(),
            old(self)@.counts(buf@.len()),
        ensures
            final(self)@.wf(),
            (final(self)@, r) == old(self)@.data_written(buf@),
            old(self)@.on_course() ==> final(self)@.on_course(),
    {
        let ghost before = self@;
        if !self.writing_to_file {
            return Err(other_error("No file has been started"));
        }
        if self.inner.is_closed() {
            return Err(broken_pipe_error("write(): ZipWriter was already closed"));
        }
        let index: usize = self.files.len() - 1;
        if self.writing_to_extra_field {
            let mut file = self.files[index].clone();
            assert(file@ == before.files.last());
            file.extra_field.extend_from_slice(buf);
            assert(file@.extra_field =~= before.files.last().extra_field + buf@);
            self.set_last(file);
            assert(self@ =~= before.data_written(buf@).0);
            return Ok(buf.len());
        }
        self.inner.write(buf);
        self.stats.hasher.update(buf);
        proof {
            if let Sink::Packing(_, packing, given) = before.sink {
                more_given(packing, given, Given::Contents(buf@));
            }
        }
        assert(self.stats.bytes_written + buf@.len() <= u64::MAX);
        self.stats.bytes_written = self.stats.bytes_written + buf.len() as u64;
        if self.stats.bytes_written > ZIP64_BYTES_THR && !self.files[index].large_file {
            let aborted = self.abort_file();
            return Err(other_error("Large file option has not been set"));
        }
        assert(self@ =~= before.data_written(buf@).0);
        Ok(buf.len())
    }

    /// Initializes the archive.
    ///
    /// Before writing to this object, the [`ZipWriter::start_file`] function should be called.
    /// After a successful write, the file remains open for writing. After a failed write, call
    /// [`ZipWriter::is_writing_file`] to determine if the file remains open.
    pub fn new(inner: Cursor) -> (r: ZipWriter)
        ensures
            r@ == WriterState::fresh(inner@),
            r@.wf(),
    {
        proof {
            inner.fits();
        }
        let r = ZipWriter {
            inner: GenericZipWriter::storer(inner),
            files: Vec::new(),
            files_by_name: StringHashMap::new(),
            stats: ZipWriterStats { hasher: Crc32::new(), start: 0, bytes_written: 0 },
            writing_to_file: false,
            writing_to_extra_field: false,
            writing_to_central_extra_field_only: false,
            writing_raw: false,
            comment: Vec::new(),
        };
        assert(r@ =~= WriterState::fresh(inner@));
        r
    }

    /// Initializes the archive from an existing ZIP archive, making it ready for append.
    pub fn new_append(readwriter: Cursor) -> (r: ZipResult<ZipWriter>)
        ensures
            match r {
                Ok(w) => {
                    &&& w@.wf()
                    &&& archive_of(readwriter@.bytes, true) matches Ok(archive)
                    &&& w@ == WriterState::appended(readwriter@, archive)
                    &&& w@.files == archive.files
                    &&& w@.comment == archive.comment
                },
                Err(e) => archive_of(readwriter@.bytes, true) == Err::<ArchiveRecord, ZipError>(e),
            },
    {
        let directory = match Directory::load(readwriter.get_ref().as_slice(), true) {
            Ok(directory) => directory,
            Err(e) => {
                return Err(e);
            },
        };
        let ghost archive = directory@;
        let files_by_name = name_files(&directory.files);
        assert(directory.files.len() <= usize::MAX);
        proof {
            named_facts(archive.files);
            archive_times_fit(readwriter@.bytes, true);
        }
        let mut stream = readwriter;
        stream.seek_start(directory.directory_start);  // to overwrite the central directory
        proof {
            stream.fits();
        }
        let w = ZipWriter {
            inner: GenericZipWriter::storer(stream),
            files: directory.files,
            files_by_name,
            stats: ZipWriterStats { hasher: Crc32::new(), start: 0, bytes_written: 0 },
            writing_to_file: false,
            writing_to_extra_field: false,
            writing_to_central_extra_field_only: false,
            writing_raw: true,  // avoid recomputing the last file's header
            comment: directory.comment,
        };
        assert(w@ =~= WriterState::appended(readwriter@, archive));
        Ok(w)
    }

    /// Returns true if a file is currently open for writing.
    pub fn is_writing_file(&self) -> (r: bool)
        ensures
            r == (self@.writing_to_file && !(self@.sink is Closed)),
    {
        self.writing_to_file && !self.inner.is_closed()
    }

    /// Whether the last file can be ended, so that another one can follow or the archive
    /// can be finished. It can unless an attempt to end it has found it too large;
    /// [`ZipWriter::abort_file`] then removes it.
    pub fn is_endable(&self) -> (r: bool)
        ensures
            r == self@.endable(),
    {
        match self.inner.plain_position() {
            Some(pos) => self.writing_raw || self.files.len() == 0 || self.stats.start <= pos,
            None => true,
        }
    }

    /// Set ZIP archive comment.
    pub fn set_comment(&mut self, comment: &str)
        ensures
            final(self)@ == (WriterState { comment: encode_utf8(comment@), ..old(self)@ }),
    {
        self.set_raw_comment(vstd::slice::slice_to_vec(comment.as_bytes()))
    }

    /// Set ZIP archive comment.
    ///
    /// This sets the raw bytes of the comment. The comment
    /// is typically expected to be encoded in UTF-8
    pub fn set_raw_comment(&mut self, comment: Vec<u8>)
        ensures
            final(self)@ == (WriterState { comment: comment@, ..old(self)@ }),
    {
        self.comment = comment;
    }

    /// Writes all of the data; nothing happens where there is none.
    pub fn write_all(&mut self, buf: &[u8]) -> (r: ZipResult<()>)
        requires
            old(self)@.wf(),
            old(self)@.counts(buf@.len()),
        ensures
            final(self)@.wf(),
            buf@.len() == 0 ==> r is Ok && final(self)@ == old(self)@,
            buf@.len() > 0 ==> final(self)@ == old(self)@.data_written(buf@).0 && match r {
                Ok(_) => old(self)@.data_written(buf@).1 is Ok,
                Err(e) => old(self)@.data_written(buf@).1 == Err::<usize, ZipError>(e),
            },
            old(self)@.on_course() ==> final(self)@.on_course(),
    {
        if buf.len() == 0 {
            return Ok(());
        }
        match self.write(buf) {
            Ok(_) => Ok(()),
            Err(e) => Err(e),
        }
    }

    /// The bytes of the archive as they are by now, unless it is finished. What a compressor
    /// holds back is not among them before a [`ZipWriter::flush`].
    pub fn get_ref(&self) -> (r: Option<&Vec<u8>>)
        ensures
            match r {
                Some(b) => !(self@.sink is Closed) && b@ == self@.sink.stream().bytes,
                None => self@.sink is Closed,
            },
    {
        self.inner.get_ref()
    }

    /// Flushes the compressor of the file under way, which puts what it holds back into
    /// the archive.
    pub fn flush(&mut self) -> (r: ZipResult<()>)
        requires
            old(self)@.wf(),
        ensures
            final(self)@.wf(),
            (final(self)@, r) == old(self)@.flushed(),
            old(self)@.on_course() ==> final(self)@.on_course(),
            old(self)@.endable() ==> final(self)@.endable(),
    {
        if self.inner.is_closed() {
            return Err(broken_pipe_error("flush(): ZipWriter was already closed"));
        }
        self.inner.flush();
        proof {
            if let Sink::Packing(_, packing, given) = old(self)@.sink {
                more_given(packing, given, Given::Flush);
            }
        }
        assert(self@ =~= old(self)@.flushed().0);
        Ok(())
    }

    /// Starts a file, taking a path as argument.
    ///
    /// This function ensures that the '/' path separator is used. It also ignores all non 'Normal'
    /// Components, such as a starting '/' or '..' and '.'.
    pub fn start_file_from_path(&mut self, path: &str, options: FileOptions) -> (r: ZipResult<()>)
        requires
            old(self)@.wf(),
            packing_for(options.compression_method, options.compression_level) is Ok ==> old(
                self,
            )@.endable(),
        ensures
            final(self)@.wf(),
            exists|made: FileOptions| #[trigger]
                normalized(options, made) && (final(self)@, r) == old(self)@.file_started(
                    normal_path(path@),
                    made,
                ),
            old(self)@.finished().1 is Ok && packing_for(
                options.compression_method,
                options.compression_level,
            ) is Ok ==> old(self)@.past_extra().sink.recoverable(),
            r is Ok || (old(self)@.on_course() && r != Err::<(), ZipError>(not_large()))
                ==> final(self)@.on_course(),
    {
        let name = path_to_string(path);
        self.start_file(name.as_str(), options)
    }

    /// Create a file in the archive and start writing its extra data first.
    ///
    /// Finish writing extra data and start writing file data with [`ZipWriter::end_extra_data`].
    /// Optionally, distinguish local from central extra data with
    /// [`ZipWriter::end_local_start_central_extra_data`].
    ///
    /// Returns the preliminary starting offset of the file data without any extra data allowing to
    /// align the file data by calculating a pad length to be prepended as part of the extra data.
    ///
    /// The data should be written using [`ZipWriter::write`].
    pub fn start_file_with_extra_data(&mut self, name: &str, options: FileOptions) -> (r: ZipResult<
        u64,
    >)
        requires
            old(self)@.wf(),
            old(self)@.endable(),
        ensures
            final(self)@.wf(),
            exists|made: FileOptions| #[trigger]
                normalized(options, made) && (final(self)@, r) == old(self)@.extra_data_started(
                    name@,
                    made,
                ),
            old(self)@.finished().1 is Ok ==> old(self)@.past_extra().sink.recoverable(),
            r != Err::<u64, ZipError>(not_large()) ==> final(self)@.on_course(),
    {
        let mut options = options;
        normalize_options(&mut options);
        self.begin_extra_data(name, options)
    }

    /// Begins an entry whose extra data is to be written.
    fn begin_extra_data(&mut self, name: &str, options: FileOptions) -> (r: ZipResult<u64>)
        requires
            old(self)@.wf(),
            old(self)@.endable(),
        ensures
            final(self)@.wf(),
            (final(self)@, r) == old(self)@.extra_data_started(name@, options),
            r matches Ok(start) ==> {
                &&& final(self)@.in_local_extra()
                &&& final(self)@.start == start
                &&& final(self)@.files.last().extra_field.len() == 0
            },
            old(self)@.finished().1 is Ok ==> old(self)@.past_extra().sink.recoverable(),
            r != Err::<u64, ZipError>(not_large()) ==> final(self)@.on_course(),
    {
        if let Err(e) = self.start_entry(name, options, ZipRawValues {
            crc32: 0,
            compressed_size: 0,
            uncompressed_size: 0,
        }) {
            return Err(e);
        }
        self.writing_to_file = true;
        self.writing_to_extra_field = true;
        let index: usize = self.files.len() - 1;
        let start: u64 = self.files[index].data_start;
        assert(self@ =~= old(self)@.extra_data_started(name@, options).0);
        Ok(start)
    }

    /// End local and start central extra data. Requires [`ZipWriter::start_file_with_extra_data`].
    ///
    /// Returns the final starting offset of the file data.
    pub fn end_local_start_central_extra_data(&mut self) -> (r: ZipResult<u64>)
        requires
            old(self)@.wf(),
        ensures
            final(self)@.wf(),
            (final(self)@, r) == old(self)@.local_extra_ended(),
            old(self)@.on_course() ==> final(self)@.on_course(),
    {
        let data_start: u64 = match self.end_extra_data() {
            Ok(start) => start,
            Err(e) => {
                return Err(e);
            },
        };
        let ghost before = self@;
        let index: usize = self.files.len() - 1;
        let mut file = self.files[index].clone();
        file.extra_field = Vec::new();
        assert(file@ == (FileRecord { extra_field: Seq::empty(), ..before.files.last() }));
        self.set_last(file);
        self.writing_to_extra_field = true;
        self.writing_to_central_extra_field_only = true;
        assert(self@ =~= old(self)@.local_extra_ended().0);
        Ok(data_start)
    }

    /// Pads the local extra data so that data begins at a multiple of `align`.
    fn pad_local_extra(&mut self, data_start: u64, align: u16) -> (r: ZipResult<u64>)
        requires
            old(self)@.wf(),
            old(self)@.in_local_extra(),
            old(self)@.start == data_start,
            old(self)@.files.last().extra_field.len() == 0,
            align > 1,
        ensures
            final(self)@.wf(),
            (final(self)@, r) == old(self)@.data_written(
                padding(data_start as int, align as int),
            ).0.local_extra_ended(),
            r matches Ok(start) ==> {
                &&& start as int % align as int == 0
                &&& start == final(self)@.start
                &&& start >= data_start
                &&& final(self)@.writing_to_extra_field
                &&& final(self)@.writing_to_central_extra_field_only
            },
    {
        let pad = make_padding(data_start, align as u64);
        let ghost before = self@;
        if let Err(e) = self.write(pad.as_slice()) {
            return Err(e);
        }
        assert(self@.files.last().extra_field =~= pad@);
        self.end_local_start_central_extra_data()
    }

    /// Create an aligned file in the archive and start writing its' contents.
    ///
    /// Returns the number of padding bytes required to align the file.
    ///
    /// The data should be written using [`ZipWriter::write`].
    pub fn start_file_aligned(&mut self, name: &str, options: FileOptions, align: u16) -> (r:
        ZipResult<u64>)
        requires
            old(self)@.wf(),
            old(self)@.endable(),
        ensures
            final(self)@.wf(),
            exists|made: FileOptions| #[trigger]
                normalized(options, made) && (final(self)@, r) == old(self)@.aligned(
                    name@,
                    made,
                    align,
                ),
            r is Ok && align > 1 ==> final(self)@.start as int % align as int == 0,
            old(self)@.finished().1 is Ok ==> old(self)@.past_extra().sink.recoverable(),
            r != Err::<u64, ZipError>(not_large()) ==> final(self)@.on_course(),
    {
        let mut options = options;
        normalize_options(&mut options);
        let data_start: u64 = match self.begin_extra_data(name, options) {
            Ok(start) => start,
            Err(e) => {
                return Err(e);
            },
        };
        if align > 1 && data_start % align as u64 != 0 {
            if let Err(e) = self.pad_local_extra(data_start, align) {
                return Err(e);
            }
        }
        match self.end_extra_data() {
            Ok(extra_data_end) => Ok(extra_data_end - data_start),
            Err(e) => Err(e),
        }
    }

    /// Begins an entry whose contents come compressed, and writes them.
    fn copy_raw(&mut self, name: &str, options: FileOptions, raw: ZipRawValues, packed: &[u8]) -> (r:
        ZipResult<()>)
        requires
            old(self)@.wf(),
            old(self)@.endable(),
        ensures
            final(self)@.wf(),
            (final(self)@, r) == old(self)@.raw_copied(name@, options, raw, packed@),
            old(self)@.finished().1 is Ok ==> old(self)@.past_extra().sink.recoverable(),
            r != Err::<(), ZipError>(not_large()) ==> final(self)@.on_course(),
    {
        if let Err(e) = self.start_entry(name, options, raw) {
            return Err(e);
        }
        self.writing_to_file = true;
        self.writing_raw = true;
        match self.write(packed) {
            Ok(_) => Ok(()),
            Err(e) => Err(e),
        }
    }

    /// The options with which an entry is made the copy of another.
    fn copy_options(
        compressed_size: u64,
        uncompressed_size: u64,
        last_modified_time: DateTime,
        compression_method: CompressionMethod,
        unix_mode: Option<u32>,
    ) -> (made: FileOptions)
        ensures
            forall|f: FileRecord|
                f.compressed_size == compressed_size && f.uncompressed_size == uncompressed_size
                    && f.last_modified_time == last_modified_time@ && f.compression_method
                    == compression_method && f.unix_mode() == unix_mode ==> #[trigger] copies(
                    f,
                    made,
                ),
    {
        let large: bool = compressed_size > ZIP64_BYTES_THR || uncompressed_size
            > ZIP64_BYTES_THR;
        let mut options = FileOptions::default().large_file(large).last_modified_time(
            last_modified_time,
        ).compression_method(compression_method);
        if let Some(perms) = unix_mode {
            options = options.unix_permissions(perms);
        }
        normalize_options(&mut options);
        options
    }

    /// Add a new file using the already compressed data from a ZIP file being read and renames it, this
    /// allows faster copies of the `ZipFile` since there is no need to decompress and compress it again.
    /// Any `ZipFile` metadata is copied and not checked, for example the file CRC.
    pub fn raw_copy_file_rename(&mut self, file: ZipFile<'_>, name: &str) -> (r: ZipResult<()>)
        requires
            old(self)@.wf(),
            old(self)@.endable(),
        ensures
            final(self)@.wf(),
            exists|made: FileOptions| #[trigger]
                copies(file@, made) && (final(self)@, r) == old(self)@.raw_copied(
                    name@,
                    made,
                    raw_values_of(file@),
                    file.packed(),
                ),
            old(self)@.finished().1 is Ok ==> old(self)@.past_extra().sink.recoverable(),
            r != Err::<(), ZipError>(not_large()) ==> final(self)@.on_course(),
            r is Ok ==> {
                let f = file@;
                let g = final(self)@.files.last();
                &&& g.file_name == name@
                &&& g.crc32 == f.crc32
                &&& g.compressed_size == f.compressed_size
                &&& g.uncompressed_size == f.uncompressed_size
                &&& g.compression_method == f.compression_method
                &&& f.last_modified_time.in_bounds() ==> g.last_modified_time
                    == f.last_modified_time
                &&& f.unix_mode() matches Some(mode) ==> (g.unix_mode() matches Some(copied)
                    && copied & 0o777 == mode & 0o777 && copied & 0o170000 == 0o100000)
            },
    {
        let options = Self::copy_options(
            file.compressed_size(),
            file.size(),
            file.last_modified(),
            file.compression(),
            file.unix_mode(),
        );
        let raw_values = ZipRawValues {
            crc32: file.crc32(),
            compressed_size: file.compressed_size(),
            uncompressed_size: file.size(),
        };
        assert(copies(file@, options));
        let ghost f = file@;
        let ghost packed = file.packed();
        let r = self.copy_raw(name, options, raw_values, file.get_raw());
        proof {
            if r is Ok {
                raw_copy_says(old(self)@, f, name@, options, packed);
            }
        }
        r
    }

    /// Add a new file using the already compressed data from a ZIP file being read, this allows faster
    /// copies of the `ZipFile` since there is no need to decompress and compress it again. Any `ZipFile`
    /// metadata is copied and not checked, for example the file CRC.
    pub fn raw_copy_file(&mut self, file: ZipFile<'_>) -> (r: ZipResult<()>)
        requires
            old(self)@.wf(),
            old(self)@.endable(),
        ensures
            final(self)@.wf(),
            exists|made: FileOptions| #[trigger]
                copies(file@, made) && (final(self)@, r) == old(self)@.raw_copied(
                    file@.file_name,
                    made,
                    raw_values_of(file@),
                    file.packed(),
                ),
            old(self)@.finished().1 is Ok ==> old(self)@.past_extra().sink.recoverable(),
            r != Err::<(), ZipError>(not_large()) ==> final(self)@.on_course(),
            r is Ok ==> {
                let f = file@;
                let g = final(self)@.files.last();
                &&& g.file_name == file@.file_name
                &&& g.crc32 == f.crc32
                &&& g.compressed_size == f.compressed_size
                &&& g.uncompressed_size == f.uncompressed_size
                &&& g.compression_method == f.compression_method
                &&& f.last_modified_time.in_bounds() ==> g.last_modified_time
                    == f.last_modified_time
                &&& f.unix_mode() matches Some(mode) ==> (g.unix_mode() matches Some(copied)
                    && copied & 0o777 == mode & 0o777 && copied & 0o170000 == 0o100000)
            },
    {
        let name = file.name().to_owned();
        self.raw_copy_file_rename(file, name.as_str())
    }

    /// The number of an entry that has the name.
    fn index_by_name(&self, name: &str) -> (r: ZipResult<usize>)
        ensures
            match r {
                Ok(index) => self@.names.contains_key(name@) && self@.names[name@] == index,
                Err(e) => !self@.names.contains_key(name@) && e == ZipError::FileNotFound,
            },
    {
        match self.files_by_name.get(name) {
            Some(index) => Ok(*index),
            None => Err(ZipError::FileNotFound),
        }
    }

    /// Adds another copy of a file already in this archive. This will produce a larger but more
    /// widely-compatible archive compared to [`ZipWriter::shallow_copy_file`].
    pub fn deep_copy_file(&mut self, src_name: &str, dest_name: &str) -> (r: ZipResult<()>)
        requires
            old(self)@.wf(),
            old(self)@.endable(),
        ensures
            final(self)@.wf(),
            ({
                let (w, ended) = old(self)@.finished();
                if ended is Ok && w.names.contains_key(src_name@) {
                    exists|made: FileOptions| #[trigger]
                        copies(w.files[w.names[src_name@] as int], made) && (final(self)@, r)
                            == old(self)@.deep_copied(src_name@, dest_name@, made)
                } else {
                    forall|made: FileOptions|
                        (final(self)@, r) == #[trigger] old(self)@.deep_copied(
                            src_name@,
                            dest_name@,
                            made,
                        )
                }
            }),
            old(self)@.finished().1 is Ok ==> old(self)@.past_extra().sink.recoverable(),
            r != Err::<(), ZipError>(not_large()) ==> final(self)@.on_course(),
            r is Ok ==> {
                let ended = old(self)@.finished().0;
                let f = ended.files[ended.names[src_name@] as int];
                let g = final(self)@.files.last();
                &&& f.file_name == src_name@
                &&& g.file_name == dest_name@
                &&& g.crc32 == f.crc32
                &&& g.compressed_size == f.compressed_size
                &&& g.uncompressed_size == f.uncompressed_size
                &&& g.compression_method == f.compression_method
                &&& f.last_modified_time.in_bounds() ==> g.last_modified_time
                    == f.last_modified_time
                &&& f.unix_mode() matches Some(mode) ==> (g.unix_mode() matches Some(copied)
                    && copied & 0o777 == mode & 0o777 && copied & 0o170000 == 0o100000)
            },
    {
        if let Err(e) = self.finish_file() {
            return Err(e);
        }
        let ghost w = self@;
        let src_index: usize = match self.index_by_name(src_name) {
            Ok(index) => index,
            Err(e) => {
                return Err(e);
            },
        };
        let src_data = self.files[src_index].clone();
        assert(src_data@ == w.files[src_index as int]);
        let options = Self::copy_options(
            src_data.compressed_size,
            src_data.uncompressed_size,
            src_data.last_modified_time,
            src_data.compression_method,
            src_data.unix_mode(),
        );
        assert(copies(src_data@, options));
        let raw_values = ZipRawValues {
            crc32: src_data.crc32,
            compressed_size: src_data.compressed_size,
            uncompressed_size: src_data.uncompressed_size,
        };
        let stream = self.inner.unwrap();
        let copied = match find_data_start(stream.get_ref().as_slice(), src_data.header_start) {
            Ok(start) => Ok(
                take_limited(stream.get_ref().as_slice(), start, src_data.compressed_size),
            ),
            Err(e) => Err(e),
        };
        self.inner = GenericZipWriter::storer(stream);
        assert(self@ =~= w);
        let copy = match copied {
            Ok(copy) => copy,
            Err(e) => {
                return Err(e);
            },
        };
        if let Err(e) = self.copy_raw(dest_name, options, raw_values, copy.as_slice()) {
            return Err(e);
        }
        proof {
            raw_copy_says(w, src_data@, dest_name@, options, copy@);
        }
        self.finish_file()
    }

    /// Adds another entry to the central directory referring to the same content as an existing
    /// entry. The file's local-file header will still refer to it by its original name, so
    /// unzipping the file will technically be unspecified behavior. [`ZipArchive`](crate::ZipArchive)
    /// ignores the filename in the local-file header and treat the central directory as
    /// authoritative. However, some other software (e.g. Minecraft) will refuse to extract a file
    /// copied this way.
    pub fn shallow_copy_file(&mut self, src_name: &str, dest_name: &str) -> (r: ZipResult<()>)
        requires
            old(self)@.wf(),
            old(self)@.endable(),
        ensures
            final(self)@.wf(),
            (final(self)@, r) == old(self)@.shallow_copied(src_name@, dest_name@),
            old(self)@.finished().1 is Ok ==> old(self)@.past_extra().sink.recoverable(),
            r != Err::<(), ZipError>(not_large()) ==> final(self)@.on_course(),
    {
        if let Err(e) = self.finish_file() {
            return Err(e);
        }
        let ghost w = self@;
        let src_index: usize = match self.index_by_name(src_name) {
            Ok(index) => index,
            Err(e) => {
                return Err(e);
            },
        };
        let mut dest_data = self.files[src_index].clone();
        dest_data.file_name = dest_name.to_owned();
        assert(dest_data@ =~= FileRecord { file_name: dest_name@, ..w.files[src_index as int] });
        match self.insert_file_data(dest_data) {
            Ok(_) => Ok(()),
            Err(e) => Err(e),
        }
    }

    /// Add a directory entry.
    ///
    /// As directories have no content, you must not call [`ZipWriter::write`] before adding a new file.
    pub fn add_directory(&mut self, name: &str, options: FileOptions) -> (r: ZipResult<()>)
        requires
            old(self)@.wf(),
            old(self)@.endable(),
        ensures
            final(self)@.wf(),
            (final(self)@, r) == old(self)@.directory_added(name@, options),
            r is Ok ==> !final(self)@.writing_to_file,
            old(self)@.finished().1 is Ok ==> old(self)@.past_extra().sink.recoverable(),
            r != Err::<(), ZipError>(not_large()) ==> final(self)@.on_course(),
            r is Ok ==> {
                let f = final(self)@.files.last();
                &&& name@.is_prefix_of(f.file_name)
                &&& f.file_name.len() > 0
                &&& f.file_name.last() == '/' || f.file_name.last() == '\\'
                &&& options.permissions matches Some(mode) ==> mode <= 0o777 ==> (
                f.unix_mode() matches Some(made) && made & 0o777 == mode && made & 0o170000
                    == 0o40000)
                &&& options.permissions is None ==> f.unix_mode() == Some(0o40755u32)
            },
    {
        let ghost given = options;
        let mut options = options;
        let mode: u32 = match options.permissions {
            Some(mode) => mode,
            None => 0o755,
        };
        options.permissions = Some(mode | 0o40000);
        options.compression_method = CompressionMethod::Stored;

        // Append a slash to the filename if it does not end with it.
        let mut name_with_slash = name.to_owned();
        let count: usize = name.unicode_len();
        let ends_with_slash: bool = if count == 0 {
            false
        } else {
            let last: char = name.get_char(count - 1);
            last == '/' || last == '\\'
        };
        if !ends_with_slash {
            name_with_slash.push('/');
        }
        let r = self.start_entry(
            name_with_slash.as_str(),
            options,
            ZipRawValues { crc32: 0, compressed_size: 0, uncompressed_size: 0 },
        );
        proof {
            if r is Ok {
                added_directory_says(old(self)@, name@, given);
            }
        }
        r
    }

    /// Add a directory entry, taking a path as argument.
    ///
    /// This function ensures that the '/' path separator is used. It also ignores all non 'Normal'
    /// Components, such as a starting '/' or '..' and '.'.
    pub fn add_directory_from_path(&mut self, path: &str, options: FileOptions) -> (r: ZipResult<()>)
        requires
            old(self)@.wf(),
            old(self)@.endable(),
        ensures
            final(self)@.wf(),
            (final(self)@, r) == old(self)@.directory_added(normal_path(path@), options),
            old(self)@.finished().1 is Ok ==> old(self)@.past_extra().sink.recoverable(),
            r != Err::<(), ZipError>(not_large()) ==> final(self)@.on_course(),
    {
        let name = path_to_string(path);
        self.add_directory(name.as_str(), options)
    }

    /// Add a symlink entry.
    ///
    /// The zip archive will contain an entry for path `name` which is a symlink to `target`.
    ///
    /// No validation or normalization of the paths is performed. For best results,
    /// callers should normalize `\` to `/` and ensure symlinks are relative to other
    /// paths within the zip archive.
    ///
    /// WARNING: not all zip implementations preserve symlinks on extract. Some zip
    /// implementations may materialize a symlink as a regular file, possibly with the
    /// content incorrectly set to the symlink target. For maximum portability, consider
    /// storing a regular file instead.
    pub fn add_symlink(&mut self, name: &str, target: &str, options: FileOptions) -> (r: ZipResult<
        (),
    >)
        requires
            old(self)@.wf(),
            old(self)@.endable(),
        ensures
            final(self)@.wf(),
            (final(self)@, r) == old(self)@.symlink_added(name@, encode_utf8(target@), options),
            old(self)@.finished().1 is Ok ==> old(self)@.past_extra().sink.recoverable(),
            r != Err::<(), ZipError>(not_large()) ==> final(self)@.on_course(),
            r is Ok ==> {
                let f = final(self)@.files.last();
                &&& f.file_name == name@
                &&& final(self)@.contents == encode_utf8(target@)
                &&& options.permissions matches Some(mode) ==> mode <= 0o777 ==> (
                f.unix_mode() matches Some(made) && made & 0o777 == mode && made & 0o170000
                    == 0o120000)
                &&& options.permissions is None ==> f.unix_mode() == Some(0o120777u32)
            },
    {
        let mut link_options = options;
        let mode: u32 = match options.permissions {
            Some(mode) => mode,
            None => 0o777,
        };
        link_options.permissions = Some(mode | 0o120000);
        // The symlink target is stored as file content. And compressing the target path
        // likely wastes space. So always store.
        link_options.compression_method = CompressionMethod::Stored;

        if let Err(e) = self.start_entry(
            name,
            link_options,
            ZipRawValues { crc32: 0, compressed_size: 0, uncompressed_size: 0 },
        ) {
            return Err(e);
        }
        self.writing_to_file = true;
        let bytes = target.as_bytes();
        let len: usize = bytes.len();
        assert(len == encode_utf8(target@).len());
        if let Err(e) = self.write(bytes) {
            return Err(e);
        }
        self.writing_to_file = false;
        assert(self@ =~= old(self)@.symlink_added(name@, encode_utf8(target@), options).0);
        proof {
            added_symlink_says(old(self)@, name@, encode_utf8(target@), options);
        }
        Ok(())
    }

    /// Ends the last entry, and writes the central directory.
    fn finalize(&mut self) -> (r: ZipResult<()>)
        requires
            old(self)@.wf(),
            old(self)@.endable(),
        ensures
            final(self)@.wf(),
            (final(self)@, r) == old(self)@.finalized(),
            r is Ok ==> final(self)@.sink is Plain,
            old(self)@.finished().1 is Ok ==> old(self)@.past_extra().sink.recoverable(),
            r != Err::<(), ZipError>(not_large()) ==> final(self)@.on_course(),
    {
        if let Err(e) = self.finish_file() {
            return Err(e);
        }
        let ghost w = self@;
        let mut writer = self.inner.unwrap();
        let central_start: u64 = writer.stream_position();
        let mut headers: Vec<u8> = Vec::new();
        let mut i: usize = 0;
        while i < self.files.len()
            invariant
                i <= self.files.len(),
                records(self.files@) == w.files,
                headers@ == central_headers(w.files.take(i as int), false),
            decreases self.files.len() - i,
        {
            assert(w.files.take(i + 1).drop_last() == w.files.take(i as int));
            assert(w.files.take(i + 1).last() == self.files@[i as int]@);
            write_central_directory_header(&mut headers, &self.files[i]);
            i += 1;
        }
        assert(w.files.take(w.files.len() as int) == w.files);
        let central_size: u64 = headers.len() as u64;
        writer.write_all(headers.as_slice());
        let central_end: u64 = writer.stream_position();
        let count: usize = self.files.len();

        let mut end: Vec<u8> = Vec::new();
        write_directory_end(&mut end, count, central_start, central_size, &self.comment);
        assert(end@ =~= directory_end(
            w.files.len(),
            central_start as nat,
            central_size as nat,
            w.comment,
        ));
        writer.write_all(end.as_slice());
        proof {
            writer.fits();
        }
        self.inner = GenericZipWriter::storer(writer);
        assert(self@ =~= old(self)@.finalized().0);
        Ok(())
    }

    /// Finish the last file and write all other zip-structures
    ///
    /// This will return the writer, but one should normally not append any data to the end of the file.
    pub fn finish(&mut self) -> (r: ZipResult<Cursor>)
        requires
            old(self)@.wf(),
            old(self)@.endable(),
        ensures
            final(self)@.wf(),
            match r {
                Ok(stream) => {
                    &&& old(self)@.finalized().1 is Ok
                    &&& old(self)@.finalized().0.sink == Sink::Plain(stream@)
                    &&& final(self)@ == (WriterState {
                        sink: Sink::Closed,
                        ..old(self)@.finalized().0
                    })
                },
                Err(e) => (final(self)@, Err::<(), ZipError>(e)) == old(self)@.finalized(),
            },
            old(self)@.finished().1 is Ok ==> old(self)@.past_extra().sink.recoverable(),
            !(r matches Err(e) && e == not_large()) ==> final(self)@.on_course(),
    {
        if let Err(e) = self.finalize() {
            return Err(e);
        }
        let stream = self.inner.unwrap();
        Ok(stream)
    }
}

} // verus!
