//! A plain generator of archives: no options but the method of compression.
use vstd::prelude::*;

use crate::codec::{bzip2_default, deflate_default};
use crate::compression::CompressionMethod;
use crate::crc32::{crc32_of, Crc32};
use crate::encoder::Given;
use crate::result::{
    broken_pipe, broken_pipe_error, other, other_error, ZipError, ZipResult,
};
use crate::sink::{packing_goes_on, packing_keeps, GenericZipWriter, Packing, Sink};
use crate::spec::{CentralDirectoryEnd, Footer};
use crate::stream::{overlay, overlay_facts, vec_fits, Cursor, StreamState};
use crate::types::now_local;
use crate::util::{civil_is_valid, to_tm, Tm};
use crate::writer_spec::{
    has_date, local_header_len, update_local_file_header, write_central_directory_header,
    write_local_file_header, PlainRecord, ZipFile,
};

verus! {

broadcast use crate::bytes::group_byte_lengths;

/// How far a plain generator has got.
#[verifier::ext_equal]
pub ghost struct Generated {
    /// Where contents go.
    pub sink: Sink,
    /// The files so far.
    pub files: Seq<PlainRecord>,
    /// The contents of the last file so far.
    pub contents: Seq<u8>,
    /// Where the data of the last file begins.
    pub start: u64,
    /// How many bytes of contents were written to the last file.
    pub bytes_written: u64,
}

/// The views of files.
pub open spec fn plain_records(files: Seq<ZipFile>) -> Seq<PlainRecord> {
    files.map_values(|f: ZipFile| f@)
}

/// How contents are stored by a method, if the generator has it.
pub open spec fn plain_packing(method: CompressionMethod) -> Option<Packing> {
    match method {
        CompressionMethod::Stored => Some(Packing::Stored),
        CompressionMethod::Deflated => Some(Packing::Deflated(6)),
        CompressionMethod::Bzip2 => Some(Packing::Bzip2(6)),
        _ => None,
    }
}

/// The central headers of files, one after the other.
pub open spec fn plain_headers(files: Seq<PlainRecord>) -> Seq<u8>
    decreases files.len(),
{
    if files.len() == 0 {
        Seq::empty()
    } else {
        plain_headers(files.drop_last()) + files.last().central_header()
    }
}

/// The comment that every archive of the generator has: its name.
pub open spec fn plain_comment() -> Seq<u8> {
    seq![0x7au8, 0x69u8, 0x70u8, 0x2du8, 0x72u8, 0x73u8]
}

/// The record at the end of the central directory.
pub open spec fn plain_footer(n: nat, central_start: nat, central_size: nat) -> Footer {
    Footer {
        disk_number: 0,
        disk_with_central_directory: 0,
        number_of_files_on_this_disk: n as u16,
        number_of_files: n as u16,
        central_directory_size: central_size as u32,
        central_directory_offset: central_start as u32,
        zip_file_comment: plain_comment(),
    }
}

impl Generated {
    /// A new archive.
    pub open spec fn fresh(stream: StreamState) -> Generated {
        Generated {
            sink: Sink::Plain(stream),
            files: Seq::empty(),
            contents: Seq::empty(),
            start: 0,
            bytes_written: 0,
        }
    }

    /// Whether the parts fit together.
    pub open spec fn wf(self) -> bool {
        &&& self.sink.wf()
        &&& self.files.len() <= usize::MAX
        &&& forall|i: int|
            0 <= i < self.files.len() ==> has_date((#[trigger] self.files[i]).last_modified_time)
        &&& self.files.len() > 0 && !(self.sink is Closed) ==> {
            &&& self.start <= self.sink.stream().pos
            &&& self.start <= self.sink.stream().bytes.len()
            &&& self.files.last().header_start + 30 <= self.start
        }
    }

    /// The last file with what its contents turned out to be, given where they end.
    pub open spec fn completed(self, end: nat) -> PlainRecord {
        PlainRecord {
            crc32: crc32_of(self.contents),
            uncompressed_size: self.bytes_written,
            compressed_size: (end - self.start) as u64,
            ..self.files.last()
        }
    }

    /// The end of the last file.
    pub open spec fn finished(self) -> (Generated, ZipResult<()>) {
        if self.sink is Closed {
            (self, Err(broken_pipe("ZipWriter was already closed")))
        } else {
            let s = self.sink.ended();
            if self.files.len() == 0 {
                (Generated { sink: Sink::Plain(s), ..self }, Ok(()))
            } else {
                let f = self.completed(s.pos);
                let bytes = overlay(s.bytes, f.header_start + 14, f.outcome());
                (
                    Generated {
                        sink: Sink::Plain(StreamState { bytes, pos: bytes.len() }),
                        files: self.files.drop_last().push(f),
                        ..self
                    },
                    Ok(()),
                )
            }
        }
    }

    /// A new file after the end of the last one. Where the generator does not have
    /// the method, it is closed.
    pub open spec fn started(self, name: Seq<char>, method: CompressionMethod, time: Tm) -> (
        Generated,
        ZipResult<()>,
    ) {
        match self.finished() {
            (w, Err(e)) => (w, Err(e)),
            (w, Ok(_)) => {
                let s = w.sink.stream();
                let f = PlainRecord {
                    encrypted: false,
                    compression_method: method,
                    last_modified_time: time,
                    crc32: 0,
                    compressed_size: 0,
                    uncompressed_size: 0,
                    file_name: name,
                    file_comment: Seq::empty(),
                    header_start: s.pos as u64,
                    data_start: 0,
                };
                let t = s.written(f.local_header());
                let w = Generated {
                    sink: Sink::Plain(t),
                    files: w.files.push(PlainRecord { data_start: t.pos as u64, ..f }),
                    contents: Seq::empty(),
                    start: t.pos as u64,
                    bytes_written: 0,
                };
                match plain_packing(method) {
                    Some(packing) => (Generated { sink: Sink::opened(t, packing), ..w }, Ok(())),
                    None => (
                        Generated { sink: Sink::Closed, ..w },
                        Err(ZipError::UnsupportedArchive("Unsupported compression")),
                    ),
                }
            },
        }
    }

    /// More contents.
    pub open spec fn written(self, data: Seq<u8>) -> (Generated, ZipResult<usize>) {
        if self.files.len() == 0 {
            (self, Err(other("No file has been started")))
        } else {
            let w = Generated {
                contents: self.contents + data,
                bytes_written: (self.bytes_written + data.len()) as u64,
                ..self
            };
            if self.sink is Closed {
                (w, Err(broken_pipe("ZipWriter was already closed")))
            } else {
                (Generated { sink: self.sink.written(data), ..w }, Ok(data.len() as usize))
            }
        }
    }

    /// The end of the archive.
    pub open spec fn finalized(self) -> (Generated, ZipResult<()>) {
        match self.finished() {
            (w, Err(e)) => (w, Err(e)),
            (w, Ok(_)) => {
                let s = w.sink.stream();
                let headers = plain_headers(w.files);
                let footer = plain_footer(w.files.len(), s.pos, headers.len()).bytes();
                (
                    Generated { sink: Sink::Plain(s.written(headers).written(footer)), ..w },
                    Ok(()),
                )
            },
        }
    }
}

/// Makes the record at the end of the central directory.
fn end_record(count: usize, central_start: u64, central_size: u64) -> (end: Vec<u8>)
    ensures
        end@ == plain_footer(count as nat, central_start as nat, central_size as nat).bytes(),
{
    let comment: Vec<u8> = vec![0x7a, 0x69, 0x70, 0x2d, 0x72, 0x73];
    assert(comment@ =~= plain_comment());
    let footer = CentralDirectoryEnd {
        disk_number: 0,
        disk_with_central_directory: 0,
        number_of_files_on_this_disk: #[verifier::truncate] (count as u16),
        number_of_files: #[verifier::truncate] (count as u16),
        central_directory_size: #[verifier::truncate] (central_size as u32),
        central_directory_offset: #[verifier::truncate] (central_start as u32),
        zip_file_comment: comment,
    };
    assert(footer@ =~= plain_footer(count as nat, central_start as nat, central_size as nat));
    let mut end: Vec<u8> = Vec::new();
    footer.write(&mut end);
    assert(end@ =~= footer@.bytes());
    end
}

/// A plain generator of archives.
pub struct ZipWriter {
    inner: GenericZipWriter,
    files: Vec<ZipFile>,
    hasher: Crc32,
    start: u64,
    bytes_written: u64,
}

impl ZipWriter {
    /// How far this has got.
    pub closed spec fn view(&self) -> Generated {
        Generated {
            sink: self.inner@,
            files: plain_records(self.files@),
            contents: self.hasher@,
            start: self.start,
            bytes_written: self.bytes_written,
        }
    }

    /// Initializes the ZipWriter.
    ///
    /// Before writing to this object, the start_file command should be called.
    pub fn new(inner: Cursor) -> (r: ZipWriter)
        ensures
            r@.wf(),
            r@ == Generated::fresh(inner@),
    {
        proof {
            inner.fits();
        }
        let r = ZipWriter {
            inner: GenericZipWriter::storer(inner),
            files: Vec::new(),
            hasher: Crc32::new(),
            start: 0,
            bytes_written: 0,
        };
        assert(r@ =~= Generated::fresh(inner@));
        r
    }

    /// Writes contents to the file that was started last. How much is written to a
    /// file in all must fit into its size.
    pub fn write(&mut self, data: &[u8]) -> (r: ZipResult<usize>)
        requires
            old(self)@.wf(),
            old(self)@.bytes_written + data@.len() <= u64::MAX,
        ensures
            final(self)@.wf(),
            (final(self)@, r) == old(self)@.written(data@),
    {
        if self.files.len() == 0 {
            return Err(other_error("No file has been started"));
        }
        self.hasher.update(data);
        self.bytes_written = self.bytes_written + data.len() as u64;
        if self.inner.is_closed() {
            assert(self@ =~= old(self)@.written(data@).0);
            return Err(broken_pipe_error("ZipWriter was already closed"));
        }
        self.inner.write(data);
        proof {
            match old(self)@.sink {
                Sink::Plain(s) => overlay_facts(s.bytes, s.pos as int, data@),
                Sink::Packing(s, packing, given) => packing_goes_on(
                    s,
                    packing,
                    given,
                    Given::Contents(data@),
                ),
                Sink::Closed => {},
            }
        }
        assert(self@ =~= old(self)@.written(data@).0);
        Ok(data.len())
    }

    /// Ends the last file.
    fn finish_file(&mut self) -> (r: ZipResult<()>)
        requires
            old(self)@.wf(),
        ensures
            final(self)@.wf(),
            (final(self)@, r) == old(self)@.finished(),
            r is Ok ==> final(self)@.sink is Plain,
            old(self)@.finished().1 is Ok ==> old(self)@.sink.recoverable(),
            old(self)@.finished().0.wf(),
    {
        let ghost before = self@;
        if let Err(e) = self.inner.switch_to(Packing::Stored) {
            assert(self@ =~= before);
            return Err(e);
        }
        if self.files.len() == 0 {
            assert(self@ =~= before.finished().0);
            return Ok(());
        }
        let mut writer = self.inner.unwrap();
        let ghost was = plain_records(self.files@);
        let mut file = self.files.pop().unwrap();
        assert(was.last() == file@);
        file.crc32 = self.hasher.value();
        file.uncompressed_size = self.bytes_written;
        file.compressed_size = writer.stream_position() - self.start;
        let ghost f = file@;
        let ghost s = writer@;
        proof {
            if let Sink::Packing(t, packing, data) = before.sink {
                packing_keeps(t, packing, data);
            }
            overlay_facts(s.bytes, f.header_start + 14, f.outcome());
        }
        update_local_file_header(&mut writer, &file);
        let end: usize = writer.len();
        writer.seek_start(end as u64);
        self.files.push(file);
        assert(plain_records(self.files@) =~= was.drop_last().push(f));
        self.inner = GenericZipWriter::storer(writer);
        assert(self@ =~= before.finished().0);
        Ok(())
    }

    /// Starts a new file, last modified at the given time.
    pub fn start_file_at(&mut self, name: &str, compression: CompressionMethod, time: Tm) -> (r:
        ZipResult<()>)
        requires
            old(self)@.wf(),
            has_date(time),
        ensures
            final(self)@.wf(),
            (final(self)@, r) == old(self)@.started(name@, compression, time),
            old(self)@.finished().1 is Ok ==> old(self)@.sink.recoverable(),
            old(self)@.finished().0.wf(),
    {
        if let Err(e) = self.finish_file() {
            return Err(e);
        }
        let mut writer = self.inner.unwrap();
        let ghost was = plain_records(self.files@);
        let mut file = ZipFile {
            encrypted: false,
            compression_method: compression,
            last_modified_time: time,
            crc32: 0,
            compressed_size: 0,
            uncompressed_size: 0,
            file_name: name.to_owned(),
            file_comment: String::new(),
            header_start: writer.stream_position(),
            data_start: 0,
        };
        let mut header: Vec<u8> = Vec::new();
        write_local_file_header(&mut header, &file);
        proof {
            assert(header@ =~= file@.local_header());
            local_header_len(file@);
            overlay_facts(writer@.bytes, writer@.pos as int, header@);
        }
        writer.write_all(header.as_slice());
        let header_end: u64 = writer.stream_position();
        proof {
            writer.fits();
        }
        file.data_start = header_end;
        let ghost f = file@;
        self.files.push(file);
        proof {
            vec_fits(self.files);
        }
        assert(plain_records(self.files@) =~= was.push(f));
        self.start = header_end;
        self.bytes_written = 0;
        self.hasher = Crc32::new();
        let packing = match compression {
            CompressionMethod::Stored => Packing::Stored,
            CompressionMethod::Deflated => Packing::Deflated(deflate_default()),
            CompressionMethod::Bzip2 => Packing::Bzip2(bzip2_default()),
            _ => {
                assert(self@ =~= old(self)@.started(name@, compression, time).0);
                return Err(ZipError::UnsupportedArchive("Unsupported compression"));
            },
        };
        self.inner = GenericZipWriter::storer(writer);
        if let Err(e) = self.inner.switch_to(packing) {
            return Err(e);
        }
        assert(self@ =~= old(self)@.started(name@, compression, time).0);
        Ok(())
    }

    /// Start a new file for with the requested compression method, last modified now, by
    /// the clock of the place.
    pub fn start_file(&mut self, name: &str, compression: CompressionMethod) -> (r: ZipResult<()>)
        requires
            old(self)@.wf(),
        ensures
            final(self)@.wf(),
            exists|time: Tm|
                time.valid() && (final(self)@, r) == #[trigger] old(self)@.started(
                    name@,
                    compression,
                    time,
                ),
            old(self)@.finished().1 is Ok ==> old(self)@.sink.recoverable(),
            old(self)@.finished().0.wf(),
    {
        let now = now_local();
        proof {
            civil_is_valid(now);
        }
        let time = to_tm(now);
        self.start_file_at(name, compression, time)
    }

    /// Ends the archive.
    fn finalize(&mut self) -> (r: ZipResult<()>)
        requires
            old(self)@.wf(),
        ensures
            (final(self)@, r) == old(self)@.finalized(),
            r is Ok ==> final(self)@.sink is Plain,
            old(self)@.finished().1 is Ok ==> old(self)@.sink.recoverable(),
            old(self)@.finished().0.wf(),
    {
        if let Err(e) = self.finish_file() {
            return Err(e);
        }
        let ghost before = self@;
        let mut headers: Vec<u8> = Vec::new();
        let mut i: usize = 0;
        while i < self.files.len()
            invariant
                i <= self.files.len(),
                self@ == before,
                before.wf(),
                before.files == plain_records(self.files@),
                headers@ == plain_headers(before.files.take(i as int)),
            decreases self.files.len() - i,
        {
            assert(before.files[i as int] == self.files@[i as int]@);
            write_central_directory_header(&mut headers, &self.files[i]);
            proof {
                let longer = before.files.take(i + 1);
                assert(longer.drop_last() =~= before.files.take(i as int));
                assert(longer.last() == self.files@[i as int]@);
            }
            i += 1;
        }
        assert(before.files.take(before.files.len() as int) =~= before.files);
        let mut writer = self.inner.unwrap();
        let central_start: u64 = writer.stream_position();
        writer.write_all(headers.as_slice());
        let central_size: u64 = writer.stream_position() - central_start;
        let end = end_record(self.files.len(), central_start, central_size);
        writer.write_all(end.as_slice());
        self.inner = GenericZipWriter::storer(writer);
        assert(self@ =~= old(self)@.finalized().0);
        Ok(())
    }

    /// Finish the last file and write all other zip-structures
    ///
    /// This will return the writer, but one should normally not append any data to the end of the file.
    pub fn finish(self) -> (r: ZipResult<Cursor>)
        requires
            self@.wf(),
        ensures
            match r {
                Ok(stream) => self@.finalized().1 is Ok && stream@
                    == self@.finalized().0.sink.stream(),
                Err(e) => self@.finalized().1 == Err::<(), ZipError>(e),
            },
            self@.finished().1 is Ok ==> self@.sink.recoverable(),
            self@.finished().0.wf(),
    {
        let mut w = self;
        match w.finalize() {
            Err(e) => Err(e),
            Ok(()) => Ok(w.inner.unwrap()),
        }
    }

    /// Ends the archive, and closes the generator. What was written is lost with
    /// the stream.
    pub fn flush(&mut self) -> (r: ZipResult<()>)
        requires
            old(self)@.wf(),
        ensures
            final(self)@ == (Generated { sink: Sink::Closed, ..old(self)@.finalized().0 }),
            match old(self)@.finalized().1 {
                Ok(_) => r is Ok,
                Err(ZipError::Io(e)) => r == Err::<(), ZipError>(ZipError::Io(e)),
                Err(_) => r == Err::<(), ZipError>(other("Error occured during finalization")),
            },
            old(self)@.finished().1 is Ok ==> old(self)@.sink.recoverable(),
            old(self)@.finished().0.wf(),
    {
        let result = self.finalize();
        let ghost before = self@;
        self.inner = GenericZipWriter::closed();
        assert(self@ =~= (Generated { sink: Sink::Closed, ..before }));
        match result {
            Ok(()) => Ok(()),
            Err(ZipError::Io(e)) => Err(ZipError::Io(e)),
            Err(_) => Err(other_error("Error occured during finalization")),
        }
    }
}

} // verus!
