//! What the plain generator has written is read from the archive that it makes.
use vstd::prelude::*;
use vstd::utf8::{decode_utf8, encode_utf8, is_ascii_chars, valid_utf8};

use crate::bytes::{
    stands_at, stands_at_within, u16_at, u16_at_of_bytes, u16_bytes, u32_at, u32_at_of_bytes,
    u32_bytes,
};
use crate::compression::{code_of_method, method_of, CompressionMethod};
use crate::cp437::cp437_text;
use crate::crc32::crc32_of;
use crate::encoder::{contents, more_given, Given};
use crate::keeping::{stored_before, stored_before_is_read, stored_before_stays};
use crate::read::{
    archive_of, central_fields, central_len, contents_of, data_start_at, directory_counts,
    entries_at, entry_at, entry_of, stored_bytes, ArchiveRecord,
};
use crate::result::ZipError;
use crate::roundtrip::{name_reads_back, read_within};
use crate::sink::{packing_goes_on, packing_keeps, Sink};
use crate::spec::{
    footer_at_of_bytes, footer_found, footer_search_start, last_footer, locator_at, Footer,
    CENTRAL_DIRECTORY_END_SIGNATURE, CENTRAL_DIRECTORY_HEADER_SIGNATURE,
    LOCAL_FILE_HEADER_SIGNATURE, ZIP64_BYTES_THR,
};
use crate::stream::{overlay_facts, overlay_twice};
use crate::types::{moment_of, FileRecord, System};
use crate::util::Tm;
use crate::writer::{plain_comment, plain_footer, plain_headers, Generated};
use crate::writer_spec::{dos_date, dos_time, local_header_len, PlainRecord};

verus! {

broadcast use crate::bytes::group_byte_lengths;

impl PlainRecord {
    /// The part of the central header that comes before the name.
    #[verifier::opaque]
    pub open spec fn central_fixed(self) -> Seq<u8> {
        u32_bytes(CENTRAL_DIRECTORY_HEADER_SIGNATURE) + u16_bytes(0x14ff) + self.common()
            + u16_bytes(0) + u16_bytes(0) + u16_bytes(0) + u32_bytes(0) + u32_bytes(
            self.header_start as u32,
        )
    }

    /// Whether the name is short enough for its length to be written, and the sizes and
    /// the place of the file for them to be.
    pub open spec fn sized(self) -> bool {
        &&& self.name_bytes().len() <= 0xffff
        &&& self.compressed_size <= ZIP64_BYTES_THR
        &&& self.uncompressed_size <= ZIP64_BYTES_THR
        &&& self.header_start <= ZIP64_BYTES_THR
    }
}

/// What is read of a file from its central header at `i`.
pub open spec fn listed(f: PlainRecord, i: int) -> FileRecord {
    FileRecord {
        system: System::Unknown,
        version_made_by: 0xff,
        encrypted: false,
        using_data_descriptor: false,
        compression_method: method_of(f.compression_method.code()),
        compression_level: None,
        last_modified_time: moment_of(
            dos_date(f.last_modified_time),
            dos_time(f.last_modified_time),
        ),
        crc32: f.crc32,
        compressed_size: f.compressed_size,
        uncompressed_size: f.uncompressed_size,
        file_name: f.file_name,
        file_name_raw: f.name_bytes(),
        extra_field: Seq::empty(),
        file_comment: Seq::empty(),
        header_start: f.header_start,
        central_header_start: i as u64,
        data_start: 0,
        external_attributes: 0,
        large_file: false,
        aes_mode: None,
    }
}

/// What is read of files whose central headers are written one after the other, the
/// first of them at `i`.
pub open spec fn all_listed(files: Seq<PlainRecord>, i: int) -> Seq<FileRecord> {
    Seq::new(files.len(), |k: int| listed(files[k], i + plain_headers(files.take(k)).len()))
}

/// The fields that the two kinds of header have in common can be read where they stand.
proof fn common_fields(f: PlainRecord)
    ensures
        f.common().len() == 26,
        u16_at(f.common(), 2) == if is_ascii_chars(f.file_name) {
            0u16
        } else {
            2048u16
        },
        u16_at(f.common(), 4) == f.compression_method.code(),
        u16_at(f.common(), 6) == dos_time(f.last_modified_time),
        u16_at(f.common(), 8) == dos_date(f.last_modified_time),
        u32_at(f.common(), 10) == f.crc32,
        u32_at(f.common(), 14) == f.compressed_size as u32,
        u32_at(f.common(), 18) == f.uncompressed_size as u32,
        u16_at(f.common(), 22) == f.name_bytes().len() as u16,
        u16_at(f.common(), 24) == 0,
{
    reveal(PlainRecord::common);
    let s = f.common();
    let flags: u16 = if is_ascii_chars(f.file_name) {
        0
    } else {
        2048
    };
    assert(s.subrange(2, 4) =~= u16_bytes(flags));
    u16_at_of_bytes(s, 2, flags);
    assert(s.subrange(4, 6) =~= u16_bytes(f.compression_method.code()));
    u16_at_of_bytes(s, 4, f.compression_method.code());
    assert(s.subrange(6, 8) =~= u16_bytes(dos_time(f.last_modified_time)));
    u16_at_of_bytes(s, 6, dos_time(f.last_modified_time));
    assert(s.subrange(8, 10) =~= u16_bytes(dos_date(f.last_modified_time)));
    u16_at_of_bytes(s, 8, dos_date(f.last_modified_time));
    assert(s.subrange(10, 14) =~= u32_bytes(f.crc32));
    u32_at_of_bytes(s, 10, f.crc32);
    assert(s.subrange(14, 18) =~= u32_bytes(f.compressed_size as u32));
    u32_at_of_bytes(s, 14, f.compressed_size as u32);
    assert(s.subrange(18, 22) =~= u32_bytes(f.uncompressed_size as u32));
    u32_at_of_bytes(s, 18, f.uncompressed_size as u32);
    assert(s.subrange(22, 24) =~= u16_bytes(f.name_bytes().len() as u16));
    u16_at_of_bytes(s, 22, f.name_bytes().len() as u16);
    assert(s.subrange(24, 26) =~= u16_bytes(0));
    u16_at_of_bytes(s, 24, 0);
}

/// The fields of a central header can be read where they stand.
proof fn central_fixed_fields(f: PlainRecord)
    ensures
        f.central_fixed().len() == 46,
        f.central_header() == f.central_fixed() + f.name_bytes(),
        u32_at(f.central_fixed(), 0) == CENTRAL_DIRECTORY_HEADER_SIGNATURE,
        u16_at(f.central_fixed(), 4) == 0x14ff,
        stands_at(f.central_fixed(), 6, f.common()),
        u16_at(f.central_fixed(), 32) == 0,
        u32_at(f.central_fixed(), 38) == 0,
        u32_at(f.central_fixed(), 42) == f.header_start as u32,
{
    reveal(PlainRecord::central_fixed);
    common_fields(f);
    let s = f.central_fixed();
    assert(f.central_header() =~= s + f.name_bytes());
    assert(s.subrange(0, 4) =~= u32_bytes(CENTRAL_DIRECTORY_HEADER_SIGNATURE));
    u32_at_of_bytes(s, 0, CENTRAL_DIRECTORY_HEADER_SIGNATURE);
    assert(s.subrange(4, 6) =~= u16_bytes(0x14ff));
    u16_at_of_bytes(s, 4, 0x14ff);
    assert(s.subrange(6, 32) =~= f.common());
    assert(s.subrange(32, 34) =~= u16_bytes(0));
    u16_at_of_bytes(s, 32, 0);
    assert(s.subrange(38, 42) =~= u32_bytes(0));
    u32_at_of_bytes(s, 38, 0);
    assert(s.subrange(42, 46) =~= u32_bytes(f.header_start as u32));
    u32_at_of_bytes(s, 42, f.header_start as u32);
}

/// A file whose central header is written at `i` is read from there.
pub proof fn listed_entry(b: Seq<u8>, i: int, f: PlainRecord)
    requires
        stands_at(b, i, f.central_header()),
        f.sized(),
        f.compression_method.code() != 99,
    ensures
        entry_at(b, i, 0) == Ok::<(FileRecord, int), ZipError>(
            (listed(f, i), i + f.central_header().len()),
        ),
{
    central_fixed_fields(f);
    common_fields(f);
    let whole = f.central_header();
    let fixed = f.central_fixed();
    let common = f.common();
    assert(stands_at(whole, 0, fixed)) by {
        assert(whole.subrange(0, 46) =~= fixed);
    }
    assert(stands_at(whole, 46, f.name_bytes())) by {
        assert(whole.subrange(46, whole.len() as int) =~= f.name_bytes());
    }
    stands_at_within(b, i, whole, 0, fixed);
    stands_at_within(b, i, whole, 46, f.name_bytes());
    stands_at_within(b, i, fixed, 6, common);
    read_within(b, i, fixed, 0);
    read_within(b, i, fixed, 4);
    read_within(b, i, fixed, 32);
    read_within(b, i, fixed, 38);
    read_within(b, i, fixed, 42);
    read_within(b, i + 6, common, 2);
    read_within(b, i + 6, common, 4);
    read_within(b, i + 6, common, 6);
    read_within(b, i + 6, common, 8);
    read_within(b, i + 6, common, 10);
    read_within(b, i + 6, common, 14);
    read_within(b, i + 6, common, 18);
    read_within(b, i + 6, common, 22);
    read_within(b, i + 6, common, 24);
    let end = i + central_len(b, i);
    assert(end == i + whole.len());
    let nothing = b.subrange(end, end);
    assert(nothing =~= Seq::empty());
    assert(cp437_text(nothing) =~= Seq::empty());
    assert(valid_utf8(nothing));
    assert(decode_utf8(nothing) =~= Seq::empty());
    name_reads_back(listed(f, i));
    let base = central_fields(b, i);
    assert(base =~= listed(f, i));
    assert(entry_of(base, 0) == Ok::<FileRecord, ZipError>(listed(f, i)));
}

/// Files whose central headers are written one after the other are read.
pub proof fn listed_entries(b: Seq<u8>, i: int, files: Seq<PlainRecord>)
    requires
        stands_at(b, i, plain_headers(files)),
        forall|k: int|
            0 <= k < files.len() ==> (#[trigger] files[k]).sized()
                && files[k].compression_method.code() != 99,
    ensures
        entries_at(b, i, 0, files.len()) == Ok::<(Seq<FileRecord>, int), ZipError>(
            (all_listed(files, i), i + plain_headers(files).len()),
        ),
    decreases files.len(),
{
    if files.len() == 0 {
        assert(all_listed(files, i) =~= Seq::empty());
    } else {
        let before = files.drop_last();
        let all = plain_headers(files);
        let head = plain_headers(before);
        let last = files.last();
        assert(stands_at(all, 0, head)) by {
            assert(all.subrange(0, head.len() as int) =~= head);
        }
        assert(stands_at(all, head.len() as int, last.central_header())) by {
            assert(all.subrange(head.len() as int, all.len() as int) =~= last.central_header());
        }
        stands_at_within(b, i, all, 0, head);
        stands_at_within(b, i, all, head.len() as int, last.central_header());
        assert forall|k: int| 0 <= k < before.len() implies (#[trigger] before[k]).sized()
            && before[k].compression_method.code() != 99 by {
            assert(before[k] == files[k]);
        }
        listed_entries(b, i, before);
        assert(files[files.len() - 1].sized());
        listed_entry(b, i + head.len(), last);
        assert(files.take(files.len() - 1) == before);
        assert(all_listed(files, i) =~= all_listed(before, i).push(listed(last, i + head.len())))
            by {
            assert forall|k: int| 0 <= k < before.len() implies all_listed(files, i)[k]
                == all_listed(before, i)[k] by {
                assert(files.take(k) == before.take(k));
            }
        }
    }
}

/// The end record of an archive of the generator is the last thing in it that looks
/// like one, if nothing follows.
proof fn end_is_found(b: Seq<u8>, footer: Footer)
    requires
        footer.zip_file_comment == plain_comment(),
        footer.disk_number == 0,
        footer.disk_with_central_directory == 0,
        b.len() >= 28,
        stands_at(b, b.len() - 28, footer.bytes()),
    ensures
        footer_found(b) == Ok::<(Footer, int), ZipError>((footer, b.len() - 28)),
{
    reveal(Footer::bytes);
    reveal(u32_at);
    let at = b.len() - 28;
    footer_at_of_bytes(b, at, footer);
    let whole = footer.bytes();
    assert(whole.len() == 28);
    let sign = u32_bytes(CENTRAL_DIRECTORY_END_SIGNATURE);
    assert(whole.subrange(0, 4) =~= sign);
    u32_at_of_bytes(whole, 0, CENTRAL_DIRECTORY_END_SIGNATURE);
    assert(whole.subrange(4, 6) =~= u16_bytes(0));
    assert(whole.subrange(6, 8) =~= u16_bytes(0));
    u16_at_of_bytes(whole, 4, 0);
    u16_at_of_bytes(whole, 6, 0);
    reveal(u16_at);
    assert forall|k: int| 0 <= k < 28 implies b[at + k] == #[trigger] whole[k] by {
        assert(b.subrange(at, at + 28)[k] == b[at + k]);
    }
    let (w0, w1, w2, w3, w4, w5, w6, w7) = (
        whole[0],
        whole[1],
        whole[2],
        whole[3],
        whole[4],
        whole[5],
        whole[6],
        whole[7],
    );
    assert(w4 == 0 && w5 == 0 && w6 == 0 && w7 == 0);
    assert(w1 == 0x4b && w2 == 5 && w3 == 6);
    assert(u32_at(b, at + 1) % 256 == b[at + 1]);
    assert(u32_at(b, at + 2) % 256 == b[at + 2]);
    assert(u32_at(b, at + 3) % 256 == b[at + 3]);
    assert(u32_at(b, at + 4) % 256 == b[at + 4]);
    assert(u32_at(b, at + 5) % 256 == b[at + 5]);
    assert(u32_at(b, at + 6) % 256 == b[at + 6]);
    assert(CENTRAL_DIRECTORY_END_SIGNATURE % 256 == 0x50);
    let lo = footer_search_start(b.len() as int);
    assert(last_footer(b, at, lo) == Some(at));
    assert(last_footer(b, at + 1, lo) == Some(at));
    assert(last_footer(b, at + 2, lo) == Some(at));
    assert(last_footer(b, at + 3, lo) == Some(at));
    assert(last_footer(b, at + 4, lo) == Some(at));
    assert(last_footer(b, at + 5, lo) == Some(at));
    assert(last_footer(b, at + 6, lo) == Some(at));
}

impl Generated {
    /// Whether the last file will be found again, with the contents that were written to
    /// it.
    pub open spec fn faithful(self) -> bool {
        let f = self.files.last();
        let b = self.sink.stream().bytes;
        let at = f.header_start as int;
        &&& self.files.len() > 0
        &&& f.name_bytes().len() <= 0xffff
        &&& self.sink.stream().pos <= b.len()
        &&& self.start <= self.sink.stream().pos
        &&& u32_at(b, at) == LOCAL_FILE_HEADER_SIGNATURE
        &&& u16_at(b, at + 26) == f.name_bytes().len()
        &&& u16_at(b, at + 28) == 0
        &&& self.start == at + 30 + f.name_bytes().len()
        &&& self.contents.len() == self.bytes_written
        &&& match self.sink {
            Sink::Closed => false,
            Sink::Plain(s) => {
                &&& f.compression_method == CompressionMethod::Stored
                &&& b.subrange(self.start as int, s.pos as int) == self.contents
            },
            Sink::Packing(s, packing, given) => {
                &&& f.compression_method == packing.method()
                &&& contents(given) == self.contents
                &&& s.pos == self.start
            },
        }
    }

    /// What is stored for a file before the last one, if it can be found.
    pub open spec fn stored(self, i: int) -> Option<Seq<u8>> {
        if 0 <= i < self.files.len() - 1 {
            stored_before(
                self.sink.stream().bytes,
                self.files.last().header_start as int,
                listed(self.files[i], 0),
            )
        } else {
            None
        }
    }

    /// What is stored for a file, all of which are ended, if it can be found.
    pub open spec fn ended(self, i: int) -> Option<Seq<u8>> {
        if 0 <= i < self.files.len() {
            stored_before(
                self.sink.stream().bytes,
                self.sink.stream().pos as int,
                listed(self.files[i], 0),
            )
        } else {
            None
        }
    }
}

/// Integers are the same where the bytes are.
proof fn same_integers(b: Seq<u8>, b2: Seq<u8>, i: int)
    ensures
        b2[i] == b[i] && b2[i + 1] == b[i + 1] ==> u16_at(b2, i) == u16_at(b, i),
        b2[i] == b[i] && b2[i + 1] == b[i + 1] && b2[i + 2] == b[i + 2] && b2[i + 3] == b[i + 3]
            ==> u32_at(b2, i) == u32_at(b, i),
{
    reveal(u16_at);
    reveal(u32_at);
}

/// The end of the last file leaves the files before it.
pub proof fn generated_finished_keeps(w: Generated, i: int)
    requires
        w.wf(),
        w.finished().1 is Ok,
        w.stored(i) is Some,
    ensures
        w.finished().0.files[i] == w.files[i],
        w.finished().0.ended(i) == w.stored(i),
{
    let s = w.sink.ended();
    let f = w.completed(s.pos);
    let next = w.finished().0;
    if let Sink::Packing(t, packing, data) = w.sink {
        packing_keeps(t, packing, data);
    }
    overlay_facts(s.bytes, f.header_start + 14, f.outcome());
    let g = listed(w.files[i], 0);
    stored_before_stays(
        w.sink.stream().bytes,
        w.files.last().header_start as int,
        next.sink.stream().bytes,
        next.sink.stream().pos as int,
        g,
    );
}

/// Once it is ended, a file is found again, and its contents are those that were written
/// to it.
pub proof fn generated_finished_found(w: Generated)
    requires
        w.wf(),
        w.faithful(),
        w.sink.recoverable(),
        w.finished().1 is Ok,
        w.finished().0.wf(),
    ensures
        ({
            let next = w.finished().0;
            let last = w.files.len() - 1;
            let f = listed(next.files[last], 0);
            &&& next.files.len() == w.files.len()
            &&& next.files[last].file_name == w.files[last].file_name
            &&& next.files[last].uncompressed_size == w.contents.len()
            &&& next.ended(last) is Some
            &&& contents_of(f, next.ended(last)->0) == Ok::<Seq<u8>, ZipError>(w.contents)
        }),
{
    let next = w.finished().0;
    let s = w.sink.ended();
    let f = w.completed(s.pos);
    let at = f.header_start as int;
    let b0 = w.sink.stream().bytes;
    let b1 = s.bytes;
    let b2 = next.sink.stream().bytes;
    let packed = match w.sink {
        Sink::Packing(_, packing, data) => packing.packed(data),
        _ => w.contents,
    };
    if let Sink::Packing(t, packing, data) = w.sink {
        packing_keeps(t, packing, data);
    }
    overlay_facts(b1, at + 14, f.outcome());
    assert(f.outcome().len() == 12);
    same_integers(b0, b1, at);
    same_integers(b0, b1, at + 26);
    same_integers(b0, b1, at + 28);
    same_integers(b1, b2, at);
    same_integers(b1, b2, at + 26);
    same_integers(b1, b2, at + 28);
    assert(next.files.last() == f);
    assert(data_start_at(b2, at) == Ok::<int, ZipError>(w.start as int));
    assert(b1.subrange(w.start as int, s.pos as int) =~= packed);
    assert(b2.subrange(w.start as int, s.pos as int) =~= packed);
}

/// A new file leaves the files before it, and will be found again, if its name is not too
/// long.
pub proof fn generated_started_faithful(
    w: Generated,
    name: Seq<char>,
    method: CompressionMethod,
    time: Tm,
)
    requires
        w.wf(),
        w.finished().0.wf(),
        w.started(name, method, time).0.wf(),
        w.started(name, method, time).1 is Ok,
        vstd::utf8::encode_utf8(name).len() <= 0xffff,
    ensures
        w.started(name, method, time).0.faithful(),
        w.started(name, method, time).0.contents == Seq::<u8>::empty(),
        forall|i: int| (#[trigger] w.finished().0.ended(i)) is Some ==> {
            let next = w.started(name, method, time).0;
            &&& next.files[i] == w.finished().0.files[i]
            &&& next.stored(i) == w.finished().0.ended(i)
        },
{
    let w1 = w.finished().0;
    let next = w.started(name, method, time).0;
    let s = w1.sink.stream();
    let g = next.files.last();
    let f = PlainRecord { data_start: 0, ..g };
    let header = f.local_header();
    local_header_len(f);
    common_fields(f);
    overlay_facts(s.bytes, s.pos as int, header);
    let b = next.sink.stream().bytes;
    let common = f.common();
    assert(g.name_bytes() == f.name_bytes());
    assert(stands_at(header, 0, u32_bytes(LOCAL_FILE_HEADER_SIGNATURE))) by {
        assert(header.subrange(0, 4) =~= u32_bytes(LOCAL_FILE_HEADER_SIGNATURE));
    }
    u32_at_of_bytes(header, 0, LOCAL_FILE_HEADER_SIGNATURE);
    assert(stands_at(header, 4, common)) by {
        assert(header.subrange(4, 30) =~= common);
    }
    stands_at_within(b, s.pos as int, header, 4, common);
    read_within(b, s.pos as int, header, 0);
    read_within(b, s.pos as int + 4, common, 22);
    read_within(b, s.pos as int + 4, common, 24);
    assert(b.subrange(next.start as int, next.start as int) =~= Seq::empty());
    assert(next.contents =~= Seq::empty());
    assert forall|i: int| (#[trigger] w1.ended(i)) is Some implies {
        &&& next.files[i] == w1.files[i]
        &&& next.stored(i) == w1.ended(i)
    } by {
        stored_before_stays(
            s.bytes,
            s.pos as int,
            b,
            g.header_start as int,
            listed(w1.files[i], 0),
        );
    }
}

/// More contents leave a file that will be found again such, with the contents added, and
/// leave the files before it.
pub proof fn generated_written_faithful(w: Generated, data: Seq<u8>)
    requires
        w.wf(),
        w.faithful(),
        w.bytes_written + data.len() <= u64::MAX,
    ensures
        w.written(data).1 is Ok,
        w.written(data).0.faithful(),
        w.written(data).0.contents == w.contents + data,
        forall|i: int|
            (#[trigger] w.stored(i)) is Some ==> w.written(data).0.stored(i) == w.stored(i),
{
    let next = w.written(data).0;
    let at = w.files.last().header_start as int;
    let b = w.sink.stream().bytes;
    let b2 = next.sink.stream().bytes;
    match w.sink {
        Sink::Plain(s) => {
            overlay_facts(s.bytes, s.pos as int, data);
            assert(b2.subrange(w.start as int, (s.pos + data.len()) as int) =~= w.contents + data);
        },
        Sink::Packing(s, packing, given) => {
            more_given(packing, given, Given::Contents(data));
            packing_keeps(s, packing, given);
            packing_goes_on(s, packing, given, Given::Contents(data));
        },
        Sink::Closed => {},
    }
    same_integers(b, b2, at);
    same_integers(b, b2, at + 26);
    same_integers(b, b2, at + 28);
    assert forall|i: int| (#[trigger] w.stored(i)) is Some implies next.stored(i) == w.stored(
        i,
    ) by {
        stored_before_stays(b, at, b2, at, listed(w.files[i], 0));
    }
}

/// What the generator has written is read from the archive that it makes: the archive has
/// its files, in order, and its comment, and what is stored for each file that could be
/// found is found in the archive.
///
/// There must be files, no more than can be counted, each of them and the central headers
/// small enough and near enough to the start, and what stands where the locator of a
/// ZIP64 record would stand must not be one.
#[verifier::rlimit(40)]
pub proof fn generated_archive_reads_back(w: Generated, strict: bool)
    requires
        w.wf(),
        w.finished().0.wf(),
        w.finalized().1 is Ok,
        0 < w.finished().0.files.len() <= 0xffff,
        forall|k: int|
            0 <= k < w.finished().0.files.len() ==> (
            #[trigger] w.finished().0.files[k]).sized()
                && w.finished().0.files[k].compression_method.code() != 99,
        w.finished().0.sink.stream().pos <= ZIP64_BYTES_THR,
        plain_headers(w.finished().0.files).len() <= ZIP64_BYTES_THR,
        !(locator_at(
            w.finalized().0.sink.stream().bytes,
            w.finalized().0.sink.stream().bytes.len() - 48,
        ) is Ok),
    ensures
        ({
            let w1 = w.finished().0;
            let b = w.finalized().0.sink.stream().bytes;
            let start = w1.sink.stream().pos as int;
            let files = all_listed(w1.files, start);
            &&& archive_of(b, strict) == Ok::<ArchiveRecord, ZipError>(
                ArchiveRecord {
                    files,
                    offset: 0,
                    directory_start: start as u64,
                    comment: plain_comment(),
                },
            )
            &&& files.len() == w1.files.len()
            &&& forall|i: int|
                #![trigger w1.ended(i)]
                #![trigger files[i]]
                w1.ended(i) is Some ==> {
                    &&& files[i].file_name == w1.files[i].file_name
                    &&& stored_bytes(b, files[i]) == Ok::<Seq<u8>, ZipError>(w1.ended(i)->0)
                    &&& contents_of(files[i], w1.ended(i)->0) == contents_of(
                        listed(w1.files[i], 0),
                        w1.ended(i)->0,
                    )
                }
        }),
{
    let w1 = w.finished().0;
    let next = w.finalized().0;
    let s = w1.sink.stream();
    let n = w1.files.len();
    let headers = plain_headers(w1.files);
    let footer = plain_footer(n, s.pos, headers.len());
    let end = footer.bytes();
    let b = next.sink.stream().bytes;
    overlay_twice(s.bytes, s.pos as int, headers, end);
    overlay_facts(s.bytes, s.pos as int, headers + end);
    assert(end.len() == 28) by {
        reveal(Footer::bytes);
    }
    let whole = headers + end;
    assert(stands_at(whole, 0, headers)) by {
        assert(whole.subrange(0, headers.len() as int) =~= headers);
    }
    assert(stands_at(whole, headers.len() as int, end)) by {
        assert(whole.subrange(headers.len() as int, whole.len() as int) =~= end);
    }
    stands_at_within(b, s.pos as int, whole, 0, headers);
    stands_at_within(b, s.pos as int, whole, headers.len() as int, end);
    assert(b.len() == s.pos + headers.len() + 28);
    end_is_found(b, footer);
    listed_entries(b, s.pos as int, w1.files);
    assert(directory_counts(b, footer, b.len() - 28) == Ok::<(u64, u64, usize), ZipError>(
        (0u64, s.pos as u64, n as usize),
    ));
    let files = all_listed(w1.files, s.pos as int);
    assert forall|i: int|
        #![trigger w1.ended(i)]
        #![trigger files[i]]
        w1.ended(i) is Some implies {
        &&& files[i].file_name == w1.files[i].file_name
        &&& stored_bytes(b, files[i]) == Ok::<Seq<u8>, ZipError>(w1.ended(i)->0)
        &&& contents_of(files[i], w1.ended(i)->0) == contents_of(
            listed(w1.files[i], 0),
            w1.ended(i)->0,
        )
    } by {
        let g = listed(w1.files[i], 0);
        stored_before_stays(s.bytes, s.pos as int, b, b.len() as int, g);
        stored_before_is_read(b, b.len() as int, g);
        assert(stored_bytes(b, files[i]) == stored_bytes(b, g));
    }
}

/// A time that MS-DOS can tell is told, but for an odd second.
pub proof fn plain_time_is_told(t: Tm)
    requires
        t.valid(),
        80 <= t.tm_year < 208,
    ensures
        ({
            let m = moment_of(dos_date(t), dos_time(t));
            &&& m.year == t.tm_year + 1900
            &&& m.month == t.tm_mon + 1
            &&& m.day == t.tm_mday
            &&& m.hour == t.tm_hour
            &&& m.minute == t.tm_min
            &&& m.second == t.tm_sec - t.tm_sec % 2
        }),
{
    let (sec, min, hour) = (t.tm_sec, t.tm_min, t.tm_hour);
    let (day, month, year) = (t.tm_mday, (t.tm_mon + 1) as i32, (t.tm_year - 80) as i32);
    let (time, date) = (dos_time(t), dos_date(t));
    assert(time % 32 == sec / 2 && time / 32 % 64 == min && time / 2048 == hour) by (bit_vector)
        requires
            0 <= sec < 60,
            0 <= min < 60,
            0 <= hour < 24,
            time == ((sec >> 1) | (min << 5) | (hour << 11)) as u16,
    ;
    assert(date % 32 == day && date / 32 % 16 == month && date / 512 == year) by (bit_vector)
        requires
            1 <= day < 32,
            1 <= month < 13,
            0 <= year < 128,
            date == (day | (month << 5) | (year << 9)) as u16,
    ;
}

/// A file that the generator starts is the last one, with the name, the method and the time that
/// were asked for, and without contents yet. Those before it stay as they ended.
pub proof fn generated_file_says(w: Generated, name: Seq<char>, method: CompressionMethod, time: Tm)
    requires
        w.started(name, method, time).1 is Ok,
    ensures
        ({
            let ended = w.finished().0;
            let next = w.started(name, method, time).0;
            let f = next.files.last();
            &&& w.finished().1 is Ok
            &&& next.files.len() == ended.files.len() + 1
            &&& next.files.drop_last() == ended.files
            &&& f.file_name == name
            &&& f.compression_method == method
            &&& f.last_modified_time == time
            &&& !f.encrypted
            &&& f.header_start == ended.sink.stream().pos as u64
            &&& next.contents.len() == 0
            &&& next.bytes_written == 0
        }),
{
    let next = w.started(name, method, time).0;
    assert(next.files.drop_last() =~= w.finished().0.files);
}

/// The generator has three methods: none, Deflate and BZIP2. With any other, it is closed.
pub proof fn generator_has_methods(w: Generated, name: Seq<char>, method: CompressionMethod, time: Tm)
    requires
        w.finished().1 is Ok,
    ensures
        w.started(name, method, time).1 is Ok <==> method is Stored || method is Deflated || method
            is Bzip2,
        w.started(name, method, time).1 is Err ==> w.started(name, method, time).0.sink is Closed,
{
}

/// What an archive of the generator tells of its files is what the generator knew of them: there
/// are as many, in the same order, each with its name, its sizes, its checksum, its method and
/// its time to the even second.
pub proof fn generated_archive_says(w: Generated, strict: bool)
    requires
        w.wf(),
        w.finished().0.wf(),
        w.finalized().1 is Ok,
        0 < w.finished().0.files.len() <= 0xffff,
        forall|k: int|
            0 <= k < w.finished().0.files.len() ==> (
            #[trigger] w.finished().0.files[k]).sized()
                && w.finished().0.files[k].compression_method.code() != 99,
        w.finished().0.sink.stream().pos <= ZIP64_BYTES_THR,
        plain_headers(w.finished().0.files).len() <= ZIP64_BYTES_THR,
        !(locator_at(
            w.finalized().0.sink.stream().bytes,
            w.finalized().0.sink.stream().bytes.len() - 48,
        ) is Ok),
    ensures
        ({
            let ended = w.finished().0;
            let b = w.finalized().0.sink.stream().bytes;
            let read = archive_of(b, strict)->Ok_0;
            &&& archive_of(b, strict) is Ok
            &&& read.comment == seq![0x7au8, 0x69u8, 0x70u8, 0x2du8, 0x72u8, 0x73u8]
            &&& read.files.len() == ended.files.len()
            &&& forall|k: int|
                #![trigger read.files[k]]
                #![trigger ended.files[k]]
                0 <= k < ended.files.len() ==> {
                    let f = ended.files[k];
                    let g = read.files[k];
                    &&& g.file_name == f.file_name
                    &&& g.crc32 == f.crc32
                    &&& g.compressed_size == f.compressed_size
                    &&& g.uncompressed_size == f.uncompressed_size
                    &&& g.header_start == f.header_start
                    &&& g.compression_method.code() == f.compression_method.code()
                    &&& !g.encrypted && g.aes_mode is None
                    &&& f.last_modified_time.valid() && 80 <= f.last_modified_time.tm_year < 208
                        ==> {
                        let (m, t) = (g.last_modified_time, f.last_modified_time);
                        &&& m.year == t.tm_year + 1900
                        &&& m.month == t.tm_mon + 1
                        &&& m.day == t.tm_mday
                        &&& m.hour == t.tm_hour
                        &&& m.minute == t.tm_min
                        &&& m.second == t.tm_sec - t.tm_sec % 2
                    }
                }
        }),
{
    generated_archive_reads_back(w, strict);
    let ended = w.finished().0;
    let b = w.finalized().0.sink.stream().bytes;
    let read = archive_of(b, strict)->Ok_0;
    assert(read.files == all_listed(ended.files, ended.sink.stream().pos as int));
    assert forall|k: int|
        #![trigger read.files[k]]
        #![trigger ended.files[k]]
        0 <= k < ended.files.len() implies {
        let f = ended.files[k];
        let g = read.files[k];
        &&& g.file_name == f.file_name
        &&& g.crc32 == f.crc32
        &&& g.compressed_size == f.compressed_size
        &&& g.uncompressed_size == f.uncompressed_size
        &&& g.header_start == f.header_start
        &&& g.compression_method.code() == f.compression_method.code()
        &&& !g.encrypted && g.aes_mode is None
        &&& f.last_modified_time.valid() && 80 <= f.last_modified_time.tm_year < 208 ==> {
            let (m, t) = (g.last_modified_time, f.last_modified_time);
            &&& m.year == t.tm_year + 1900
            &&& m.month == t.tm_mon + 1
            &&& m.day == t.tm_mday
            &&& m.hour == t.tm_hour
            &&& m.minute == t.tm_min
            &&& m.second == t.tm_sec - t.tm_sec % 2
        }
    } by {
        let f = ended.files[k];
        code_of_method(f.compression_method.code());
        if f.last_modified_time.valid() && 80 <= f.last_modified_time.tm_year < 208 {
            plain_time_is_told(f.last_modified_time);
        }
    }
}

/// The local header of a file that the generator writes: its signature, the version that is needed,
/// the flags, the method, the time, the checksum, the sizes and the length of the name, which
/// follows.
pub proof fn generated_header_is_laid_out(f: PlainRecord)
    requires
        f.sized(),
    ensures
        ({
            let h = f.local_header();
            let n = f.name_bytes().len() as int;
            &&& h.len() == 30 + n
            &&& u32_at(h, 0) == 0x04034b50
            &&& u16_at(h, 4) == 20
            &&& u16_at(h, 6) == if is_ascii_chars(f.file_name) {
                0int
            } else {
                0x800
            }
            &&& u16_at(h, 8) == f.compression_method.code()
            &&& u16_at(h, 10) == dos_time(f.last_modified_time)
            &&& u16_at(h, 12) == dos_date(f.last_modified_time)
            &&& u32_at(h, 14) == f.crc32
            &&& u32_at(h, 18) == f.compressed_size
            &&& u32_at(h, 22) == f.uncompressed_size
            &&& u16_at(h, 26) == n
            &&& u16_at(h, 28) == 0
            &&& h.subrange(30, 30 + n) == encode_utf8(f.file_name)
        }),
{
    local_header_len(f);
    common_fields(f);
    let h = f.local_header();
    let common = f.common();
    let n = f.name_bytes().len() as int;
    assert(h.subrange(0, 4) =~= u32_bytes(LOCAL_FILE_HEADER_SIGNATURE));
    u32_at_of_bytes(h, 0, LOCAL_FILE_HEADER_SIGNATURE);
    assert(stands_at(h, 4, common)) by {
        assert(h.subrange(4, 30) =~= common);
    }
    assert(u16_at(common, 0) == 20) by {
        reveal(PlainRecord::common);
        assert(common.subrange(0, 2) =~= u16_bytes(20));
        u16_at_of_bytes(common, 0, 20);
    }
    read_within(h, 4, common, 0);
    read_within(h, 4, common, 2);
    read_within(h, 4, common, 4);
    read_within(h, 4, common, 6);
    read_within(h, 4, common, 8);
    read_within(h, 4, common, 10);
    read_within(h, 4, common, 14);
    read_within(h, 4, common, 18);
    read_within(h, 4, common, 22);
    read_within(h, 4, common, 24);
    assert(h.subrange(30, 30 + n) =~= encode_utf8(f.file_name));
}

/// Once a file of the generator is ended, its local header tells the checksum and the sizes of its
/// contents.
pub proof fn generated_header_tells(w: Generated)
    requires
        w.wf(),
        w.faithful(),
        w.finished().1 is Ok,
        w.finished().0.wf(),
        w.finished().0.files.last().sized(),
    ensures
        ({
            let next = w.finished().0;
            let f = next.files.last();
            let b = next.sink.stream().bytes;
            let at = f.header_start as int;
            &&& f.crc32 == crc32_of(w.contents)
            &&& f.uncompressed_size == w.contents.len()
            &&& u32_at(b, at + 14) == f.crc32
            &&& u32_at(b, at + 18) == f.compressed_size
            &&& u32_at(b, at + 22) == f.uncompressed_size
            &&& f.file_name == w.files.last().file_name
            &&& f.compression_method == w.files.last().compression_method
            &&& f.last_modified_time == w.files.last().last_modified_time
        }),
{
    let s = w.sink.ended();
    let f = w.completed(s.pos);
    let part = f.outcome();
    let at = f.header_start + 14;
    overlay_facts(s.bytes, at, part);
    let b = w.finished().0.sink.stream().bytes;
    assert(b.subrange(at, at + 4) =~= u32_bytes(f.crc32));
    u32_at_of_bytes(b, at, f.crc32);
    assert(b.subrange(at + 4, at + 8) =~= u32_bytes(f.compressed_size as u32));
    u32_at_of_bytes(b, at + 4, f.compressed_size as u32);
    assert(b.subrange(at + 8, at + 12) =~= u32_bytes(f.uncompressed_size as u32));
    u32_at_of_bytes(b, at + 8, f.uncompressed_size as u32);
}

} // verus!
