//! What a writer has stored stays as it is until the archive is finished, and
//! can be read from it then.
use vstd::prelude::*;

use crate::bytes::{
    stands_at, stands_at_within, u16_at, u16_at_of_bytes, u16_bytes, u32_at, u32_at_of_bytes,
    u32_bytes,
};
use crate::codec::can_unpack;
use crate::compression::{method_of, CompressionMethod};
use crate::encoder::{contents, more_given, Given};
use crate::header::{header_lengths, local_patched};
use crate::read::{archive_of, contents_of, data_start_at, limited, stored_bytes, ArchiveRecord};
use crate::result::ZipError;
use crate::roundtrip::{archive_reads_back, navigable, reread_all, rereadable};
use crate::sink::{packing_for, packing_goes_on, packing_keeps, Packing, Sink};
use crate::spec::LOCAL_FILE_HEADER_SIGNATURE;
use crate::stream::{overlay, overlay_facts, overlay_twice};
use crate::types::FileRecord;
use crate::write::{
    central_headers, directory_end, new_entry, no_raw_values, FileOptions, WriterState,
    ZipRawValues,
};

verus! {

broadcast use crate::bytes::group_byte_lengths;

/// What is stored for a file, if its local header leads to it and all of it
/// comes before `limit`.
pub open spec fn stored_before(b: Seq<u8>, limit: int, f: FileRecord) -> Option<Seq<u8>> {
    match data_start_at(b, f.header_start as int) {
        Ok(start) => if start + f.compressed_size <= limit && start + f.compressed_size <= b.len() {
            Some(b.subrange(start, start + f.compressed_size))
        } else {
            None
        },
        Err(_) => None,
    }
}

/// What is stored for a file before `limit` depends on nothing that comes
/// after it.
pub proof fn stored_before_stays(
    b: Seq<u8>,
    limit: int,
    b2: Seq<u8>,
    limit2: int,
    f: FileRecord,
)
    requires
        stored_before(b, limit, f) is Some,
        limit <= limit2,
        b.len() <= b2.len() || limit <= b2.len(),
        forall|i: int| 0 <= i < limit && i < b.len() ==> b2[i] == b[i],
    ensures
        stored_before(b2, limit2, f) == stored_before(b, limit, f),
{
    let at = f.header_start as int;
    let start = data_start_at(b, at)->Ok_0;
    same_integers(b, b2, at);
    same_integers(b, b2, at + 26);
    same_integers(b, b2, at + 28);
    assert(b2.subrange(start, start + f.compressed_size) =~= b.subrange(
        start,
        start + f.compressed_size,
    ));
}

/// Integers are the same where the bytes are.
proof fn same_integers(b: Seq<u8>, b2: Seq<u8>, i: int)
    ensures
        b2[i] == b[i] && b2[i + 1] == b[i + 1] ==> u16_at(b2, i) == u16_at(b, i),
        b2[i] == b[i] && b2[i + 1] == b[i + 1] && b2[i + 2] == b[i + 2] && b2[i + 3] == b[i + 3]
            ==> u32_at(b2, i) == u32_at(b, i),
{
    reveal(u16_at);
    reveal(u32_at);
}

/// What is stored for a file is what a reader gets.
pub proof fn stored_before_is_read(b: Seq<u8>, limit: int, f: FileRecord)
    requires
        stored_before(b, limit, f) is Some,
    ensures
        stored_bytes(b, f) == Ok::<Seq<u8>, ZipError>(stored_before(b, limit, f)->0),
{
    let start = data_start_at(b, f.header_start as int)->Ok_0;
    assert(limited(b, start, f.compressed_size as int) =~= b.subrange(
        start,
        start + f.compressed_size,
    ));
}

impl WriterState {
    /// The number of entries that are complete.
    pub open spec fn done(self) -> int {
        if self.open() {
            self.files.len() - 1
        } else {
            self.files.len() as int
        }
    }

    /// Before what position nothing will be written any more.
    pub open spec fn floor(self) -> int {
        if self.open() {
            self.files.last().header_start as int
        } else {
            self.sink.stream().pos as int
        }
    }

    /// What is stored for an entry, if it is complete and can be found.
    pub open spec fn stored(self, i: int) -> Option<Seq<u8>> {
        if 0 <= i < self.done() {
            stored_before(self.sink.stream().bytes, self.floor(), self.files[i])
        } else {
            None
        }
    }

    /// Whether every complete entry that can be found is there in `next` as it
    /// is here, the first `n` of them considered.
    pub open spec fn kept_in(self, next: WriterState, n: int) -> bool {
        forall|i: int|
            0 <= i < n && (#[trigger] self.stored(i)) is Some ==> next.files.len() > i
                && next.files[i] == self.files[i] && next.stored(i) == self.stored(i)
    }

    /// Whether the entry under way will be found again, with the contents that
    /// were written to it.
    pub open spec fn faithful(self) -> bool {
        let f = self.files.last();
        let b = self.sink.stream().bytes;
        let at = f.header_start as int;
        &&& self.open()
        &&& f.name_bytes().len() <= 0xffff
        &&& self.sink.stream().pos <= b.len()
        &&& f.data_start <= self.sink.stream().pos
        &&& u32_at(b, at) == LOCAL_FILE_HEADER_SIGNATURE
        &&& u16_at(b, at + 26) == f.name_bytes().len()
        &&& f.data_start == at + 30 + f.name_bytes().len() + u16_at(b, at + 28)
        &&& self.contents.len() == self.bytes_written
        &&& if self.in_local_extra() {
            self.contents.len() == 0
        } else {
            match self.sink {
                Sink::Closed => false,
                Sink::Plain(s) => {
                    &&& f.compression_method == CompressionMethod::Stored
                    &&& b.subrange(self.start as int, s.pos as int) == self.contents
                },
                Sink::Packing(_, packing, given) => {
                    &&& f.compression_method == packing.method()
                    &&& contents(given) == self.contents
                },
            }
        }
    }
}

/// Entries are kept where nothing before the floor changes.
proof fn kept_below_floor(w: WriterState, next: WriterState, n: int)
    requires
        n <= w.done(),
        n <= next.done(),
        w.floor() <= next.floor(),
        w.sink.stream().bytes.len() <= next.sink.stream().bytes.len(),
        forall|i: int| 0 <= i < n ==> next.files[i] == #[trigger] w.files[i],
        forall|i: int|
            0 <= i < w.floor() && i < w.sink.stream().bytes.len() ==> #[trigger]
                next.sink.stream().bytes[i] == w.sink.stream().bytes[i],
    ensures
        w.kept_in(next, n),
{
    assert forall|i: int| 0 <= i < n && (#[trigger] w.stored(i)) is Some implies next.files.len()
        > i && next.files[i] == w.files[i] && next.stored(i) == w.stored(i) by {
        assert(next.files[i] == w.files[i]);
        stored_before_stays(
            w.sink.stream().bytes,
            w.floor(),
            next.sink.stream().bytes,
            next.floor(),
            w.files[i],
        );
    }
}

/// What is kept by one step and then by another is kept by both.
pub proof fn kept_twice(w: WriterState, w1: WriterState, w2: WriterState, n: int)
    requires
        w.kept_in(w1, n),
        w1.kept_in(w2, n),
    ensures
        w.kept_in(w2, n),
{
    assert forall|i: int| 0 <= i < n && (#[trigger] w.stored(i)) is Some implies w2.files.len() > i
        && w2.files[i] == w.files[i] && w2.stored(i) == w.stored(i) by {
        assert(w1.stored(i) is Some);
    }
}

/// Removing the entry under way leaves the others.
pub proof fn aborted_keeps(w: WriterState)
    requires
        w.sound(),
        w.open(),
    ensures
        w.kept_in(w.aborted(), w.done()),
        w.aborted().done() == w.done(),
{
    let next = w.aborted();
    if let Sink::Packing(s, packing, data) = w.sink {
        packing_keeps(s, packing, data);
    }
    kept_below_floor(w, next, w.done());
}

/// The end of extra data leaves the complete entries.
pub proof fn extra_data_ended_keeps(w: WriterState)
    requires
        w.wf(),
    ensures
        w.kept_in(w.extra_data_ended().0, w.done()),
        w.extra_data_ended().0.done() == w.done(),
{
    let (next, r) = w.extra_data_ended();
    let f = w.files.last();
    if w.writing_to_extra_field {
        if r is Err {
            aborted_keeps(w);
        } else {
            if !w.writing_to_central_extra_field_only {
                let s = w.sink.stream();
                overlay_facts(s.bytes, s.pos as int, f.extra_field);
                let t = s.written(f.extra_field);
                overlay_facts(t.bytes, f.header_start + 28, u16_bytes(f.local_extra_len()));
            }
            kept_below_floor(w, next, w.done());
        }
    } else {
        kept_below_floor(w, next, w.done());
    }
}

/// A patch of a local header changes nothing before the header.
proof fn patch_facts(b: Seq<u8>, f: FileRecord)
    ensures
        local_patched(b, f).len() >= b.len(),
        forall|i: int|
            0 <= i < f.header_start + 14 && i < b.len() ==> #[trigger] local_patched(b, f)[i]
                == b[i],
        forall|i: int|
            f.header_start + 26 <= i < f.header_start + 30 && i < b.len() ==> #[trigger]
                local_patched(b, f)[i] == b[i],
        forall|i: int|
            f.header_start + 30 + f.name_bytes().len() + f.local_zip64_len() <= i < b.len() ==>
                #[trigger] local_patched(b, f)[i] == b[i],
{
    reveal(local_patched);
    let at = f.header_start as int;
    if f.large_file {
        overlay_facts(b, at + 14, u32_bytes(f.crc32));
        overlay_facts(
            overlay(b, at + 14, u32_bytes(f.crc32)),
            at + 30 + f.name_bytes().len() + 4,
            f.zip64_sizes(),
        );
    } else {
        overlay_facts(
            b,
            at + 14,
            u32_bytes(f.crc32) + u32_bytes(f.compressed_size as u32) + u32_bytes(
                f.uncompressed_size as u32,
            ),
        );
    }
}

/// The end of an entry leaves the entries that were complete before.
pub proof fn contents_ended_keeps(w: WriterState)
    requires
        w.wf(),
        !w.writing_to_extra_field,
    ensures
        w.kept_in(w.contents_ended().0, w.done()),
        w.contents_ended().0.done() >= w.done(),
{
    let (next, r) = w.contents_ended();
    if !(w.sink is Closed) {
        let s = w.sink.ended();
        if let Sink::Packing(t, packing, data) = w.sink {
            packing_keeps(t, packing, data);
        }
        if w.open() {
            let f = w.completed(s.pos);
            patch_facts(s.bytes, f);
        }
    }
    kept_below_floor(w, next, w.done());
}

/// The end of an entry leaves the entries that were complete before.
pub proof fn finished_keeps(w: WriterState)
    requires
        w.wf(),
        w.past_extra().wf(),
    ensures
        w.kept_in(w.finished().0, w.done()),
        w.finished().0.done() >= w.done(),
{
    if w.writing_to_extra_field {
        extra_data_ended_keeps(w);
        let (w1, r) = w.extra_data_ended();
        if r is Ok {
            contents_ended_keeps(w1);
            kept_twice(w, w1, w1.contents_ended().0, w.done());
        }
    } else {
        contents_ended_keeps(w);
    }
}

/// Once it is ended, an entry is found again: what is stored for it is what was
/// made of its contents, its size and its checksum are theirs, and they can be
/// got back.
pub proof fn contents_ended_found(w: WriterState)
    requires
        w.wf(),
        w.faithful(),
        !w.writing_to_extra_field,
        w.contents_ended().1 is Ok,
        w.contents_ended().0.wf(),
        w.sink.recoverable(),
    ensures
        ({
            let next = w.contents_ended().0;
            let last = w.files.len() - 1;
            let f = next.files[last];
            &&& next.files.len() == w.files.len()
            &&& next.stored(last) is Some
            &&& contents_of(f, next.stored(last)->0) == Ok::<Seq<u8>, ZipError>(w.contents)
            &&& f.uncompressed_size == w.contents.len()
            &&& f.compressed_size == next.stored(last)->0.len()
            &&& f == (FileRecord {
                crc32: f.crc32,
                compressed_size: f.compressed_size,
                uncompressed_size: f.uncompressed_size,
                ..w.files.last()
            })
        }),
{
    let next = w.contents_ended().0;
    let old = w.files.last();
    let at = old.header_start as int;
    let s = w.sink.ended();
    let f = w.completed(s.pos);
    let b0 = w.sink.stream().bytes;
    let b1 = s.bytes;
    let b2 = next.sink.stream().bytes;
    let packed = match w.sink {
        Sink::Packing(_, packing, data) => packing.packed(data),
        _ => w.contents,
    };
    if let Sink::Packing(t, packing, data) = w.sink {
        packing_keeps(t, packing, data);
    }
    patch_facts(b1, f);
    same_integers(b0, b1, at);
    same_integers(b0, b1, at + 26);
    same_integers(b0, b1, at + 28);
    same_integers(b1, b2, at);
    same_integers(b1, b2, at + 26);
    same_integers(b1, b2, at + 28);
    assert(next.files[w.files.len() - 1] == f);
    assert(data_start_at(b2, at) == Ok::<int, ZipError>(old.data_start as int));
    assert(b1.subrange(w.start as int, s.pos as int) =~= packed);
    assert(b2.subrange(w.start as int, s.pos as int) =~= packed);
}

/// The lengths in a local header can be read where they stand.
proof fn local_fixed_fields(f: FileRecord)
    ensures
        f.local_fixed().len() == 30,
        u32_at(f.local_fixed(), 0) == LOCAL_FILE_HEADER_SIGNATURE,
        u16_at(f.local_fixed(), 26) == f.name_bytes().len() as u16,
        u16_at(f.local_fixed(), 28) == f.local_extra_len(),
{
    reveal(FileRecord::local_fixed);
    let s = f.local_fixed();
    assert(s.subrange(0, 4) =~= u32_bytes(LOCAL_FILE_HEADER_SIGNATURE));
    u32_at_of_bytes(s, 0, LOCAL_FILE_HEADER_SIGNATURE);
    assert(s.subrange(26, 28) =~= u16_bytes(f.name_bytes().len() as u16));
    u16_at_of_bytes(s, 26, f.name_bytes().len() as u16);
    assert(s.subrange(28, 30) =~= u16_bytes(f.local_extra_len()));
    u16_at_of_bytes(s, 28, f.local_extra_len());
}

/// Where a local header was written, its lengths can be read.
proof fn local_header_stands(b: Seq<u8>, at: int, f: FileRecord)
    requires
        stands_at(b, at, f.local_header()),
    ensures
        u32_at(b, at) == LOCAL_FILE_HEADER_SIGNATURE,
        u16_at(b, at + 26) == f.name_bytes().len() as u16,
        u16_at(b, at + 28) == f.local_extra_len(),
{
    header_lengths(f);
    local_fixed_fields(f);
    let whole = f.local_header();
    let fixed = f.local_fixed();
    assert(stands_at(whole, 0, fixed)) by {
        reveal(FileRecord::local_header);
        assert(whole.subrange(0, 30) =~= fixed);
    }
    stands_at_within(b, at, whole, 0, fixed);
    crate::roundtrip::read_within(b, at, fixed, 0);
    crate::roundtrip::read_within(b, at, fixed, 26);
    crate::roundtrip::read_within(b, at, fixed, 28);
}

/// The begin of an entry leaves the complete entries. The new one will be found
/// again, once its contents are on their way.
pub proof fn entry_begun_keeps(
    w: WriterState,
    name: Seq<char>,
    options: FileOptions,
    raw: ZipRawValues,
)
    requires
        w.wf(),
        w.past_extra().wf(),
        w.finished().0.wf(),
        w.entry_begun(name, options, raw).0.wf(),
    ensures
        w.kept_in(w.entry_begun(name, options, raw).0, w.done()),
        w.finished().0.kept_in(w.entry_begun(name, options, raw).0, w.finished().0.done()),
        w.entry_begun(name, options, raw).0.done() >= w.done(),
        w.entry_begun(name, options, raw).1 is Ok ==> {
            let next = w.entry_begun(name, options, raw).0;
            let f = next.files.last();
            let b = next.sink.stream().bytes;
            let at = f.header_start as int;
            &&& next.files.len() == w.finished().0.files.len() + 1
            &&& next.done() == w.finished().0.files.len()
            &&& next.sink.stream().pos == f.data_start
            &&& f.data_start <= b.len()
            &&& f.data_start == at + 30 + f.name_bytes().len() + f.local_zip64_len()
            &&& u32_at(b, at) == LOCAL_FILE_HEADER_SIGNATURE
            &&& u16_at(b, at + 26) == f.name_bytes().len() as u16
            &&& u16_at(b, at + 28) == f.local_zip64_len()
        },
{
    finished_keeps(w);
    let w1 = w.finished().0;
    let (next, r) = w.entry_begun(name, options, raw);
    if r is Ok {
        let s = w1.sink.stream();
        let f = new_entry(name, options, raw, s.pos as u64);
        header_lengths(f);
        overlay_facts(s.bytes, s.pos as int, f.local_header());
        local_header_stands(next.sink.stream().bytes, s.pos as int, f);
        assert(next.files.last() == (FileRecord {
            data_start: (s.pos + f.local_header().len()) as u64,
            ..f
        }));
        kept_below_floor(w1, next, w1.done());
        kept_twice(w, w1, next, w.done());
    } else {
        kept_below_floor(w1, next, w1.done());
    }
}

/// A file that is started will be found again, if its name is not too long.
pub proof fn file_started_faithful(w: WriterState, name: Seq<char>, options: FileOptions)
    requires
        w.wf(),
        w.past_extra().wf(),
        w.finished().0.wf(),
        w.entry_begun(name, options, no_raw_values()).0.wf(),
    ensures
        w.kept_in(w.file_started(name, options).0, w.done()),
        w.file_started(name, options).1 is Ok && vstd::utf8::encode_utf8(name).len() <= 0xffff
            ==> w.file_started(name, options).0.faithful()
            && w.file_started(name, options).0.contents.len() == 0,
{
    entry_begun_keeps(w, name, options, no_raw_values());
    let (w1, r1) = w.entry_begun(name, options, no_raw_values());
    let (next, r) = w.file_started(name, options);
    if r is Ok {
        kept_below_floor(w1, next, w1.done());
        kept_twice(w, w1, next, w.done());
        if vstd::utf8::encode_utf8(name).len() <= 0xffff {
            let b = next.sink.stream().bytes;
            let start = next.start as int;
            assert(b.subrange(start, start) =~= Seq::empty());
        }
    } else if r1 is Ok || w.sink is Closed || packing_for(
        options.compression_method,
        options.compression_level,
    ) is Err {
        kept_below_floor(w, next, w.done());
    }
}

/// A file whose extra data comes first will be found again, if its name is not
/// too long.
pub proof fn extra_data_started_faithful(w: WriterState, name: Seq<char>, options: FileOptions)
    requires
        w.wf(),
        w.past_extra().wf(),
        w.finished().0.wf(),
        w.entry_begun(name, options, no_raw_values()).0.wf(),
    ensures
        w.kept_in(w.extra_data_started(name, options).0, w.done()),
        w.extra_data_started(name, options).1 is Ok && vstd::utf8::encode_utf8(name).len()
            <= 0xffff ==> w.extra_data_started(name, options).0.faithful(),
{
    entry_begun_keeps(w, name, options, no_raw_values());
    let (w1, r1) = w.entry_begun(name, options, no_raw_values());
    let (next, r) = w.extra_data_started(name, options);
    if r is Ok {
        kept_below_floor(w1, next, w1.done());
        kept_twice(w, w1, next, w.done());
    }
}

/// The end of extra data leaves a file that will be found again such, if the
/// extra field is not too long.
pub proof fn extra_data_ended_faithful(w: WriterState)
    requires
        w.wf(),
        w.faithful(),
        w.writing_to_extra_field,
        w.extra_data_ended().1 is Ok,
        w.extra_data_ended().0.wf(),
        w.files.last().local_zip64_len() + w.files.last().extra_field.len() <= 0xffff,
    ensures
        w.extra_data_ended().0.faithful(),
        w.extra_data_ended().0.contents == w.contents,
{
    let (next, r) = w.extra_data_ended();
    let f = w.files.last();
    let at = f.header_start as int;
    if !w.writing_to_central_extra_field_only {
        let s = w.sink.stream();
        let t = s.written(f.extra_field);
        overlay_facts(s.bytes, s.pos as int, f.extra_field);
        overlay_facts(t.bytes, at + 28, u16_bytes(f.local_extra_len()));
        let b = next.sink.stream().bytes;
        u16_at_of_bytes(b, at + 28, f.local_extra_len());
        same_integers(s.bytes, t.bytes, at);
        same_integers(s.bytes, t.bytes, at + 26);
        same_integers(t.bytes, b, at);
        same_integers(t.bytes, b, at + 26);
        let start = next.start as int;
        assert(b.subrange(start, start) =~= Seq::empty());
        assert(w.contents =~= Seq::empty());
    }
}

/// More data leaves the complete entries, and a file that will be found again
/// such.
pub proof fn data_written_keeps(w: WriterState, data: Seq<u8>)
    requires
        w.wf(),
        w.data_written(data).0.wf(),
        data.len() <= usize::MAX,
    ensures
        w.open() ==> w.kept_in(w.data_written(data).0, w.done()),
        w.data_written(data).1 is Ok ==> w.kept_in(w.data_written(data).0, w.done()),
        w.faithful() && w.data_written(data).1 is Ok ==> {
            let next = w.data_written(data).0;
            &&& next.faithful()
            &&& next.writing_to_extra_field == w.writing_to_extra_field
            &&& next.contents == if w.writing_to_extra_field {
                w.contents
            } else {
                w.contents + data
            }
        },
{
    let (next, r) = w.data_written(data);
    if !w.writing_to_file || w.sink is Closed || w.writing_to_extra_field {
        kept_below_floor(w, next, w.done());
    } else {
        let more = WriterState {
            sink: w.sink.written(data),
            contents: w.contents + data,
            bytes_written: (w.bytes_written + data.len()) as u64,
            ..w
        };
        let b = w.sink.stream().bytes;
        let b2 = more.sink.stream().bytes;
        match w.sink {
            Sink::Plain(s) => overlay_facts(s.bytes, s.pos as int, data),
            Sink::Packing(s, packing, given) => {
                more_given(packing, given, Given::Contents(data));
                packing_keeps(s, packing, given);
                packing_goes_on(s, packing, given, Given::Contents(data));
            },
            Sink::Closed => {},
        }
        kept_below_floor(w, more, w.done());
        if r is Err {
            if w.open() {
                if let Sink::Packing(s, packing, held) = more.sink {
                    packing_keeps(s, packing, held);
                }
                kept_below_floor(w, next, w.done());
            }
        } else if w.faithful() {
            let at = w.files.last().header_start as int;
            same_integers(b, b2, at);
            same_integers(b, b2, at + 26);
            same_integers(b, b2, at + 28);
            if let Sink::Plain(s) = w.sink {
                assert(b2.subrange(w.start as int, (s.pos + data.len()) as int) =~= w.contents
                    + data);
            }
        }
    }
}

/// A flush leaves the complete entries, and a file that will be found again such. What was
/// in the archive before where the stream stood is still there.
pub proof fn flushed_keeps(w: WriterState)
    requires
        w.wf(),
    ensures
        w.kept_in(w.flushed().0, w.done()),
        w.flushed().0.done() == w.done(),
        w.flushed().0.contents == w.contents,
        w.flushed().0.sink.stream().pos >= w.sink.stream().pos,
        w.faithful() ==> w.flushed().0.faithful(),
{
    let next = w.flushed().0;
    let b = w.sink.stream().bytes;
    let b2 = next.sink.stream().bytes;
    if let Sink::Packing(s, packing, given) = w.sink {
        more_given(packing, given, Given::Flush);
        packing_keeps(s, packing, given);
        packing_goes_on(s, packing, given, Given::Flush);
    }
    kept_below_floor(w, next, w.done());
    if w.faithful() {
        let at = w.files.last().header_start as int;
        same_integers(b, b2, at);
        same_integers(b, b2, at + 26);
        same_integers(b, b2, at + 28);
    }
}

/// An entry that refers to what is stored for another leaves the complete
/// entries, and what is stored for it is what is stored for the other.
pub proof fn shallow_copy_shares(w: WriterState, src: Seq<char>, dest: Seq<char>)
    requires
        w.wf(),
        w.past_extra().wf(),
        w.finished().0.wf(),
    ensures
        w.kept_in(w.shallow_copied(src, dest).0, w.done()),
        w.shallow_copied(src, dest).1 is Ok ==> {
            let w1 = w.finished().0;
            let next = w.shallow_copied(src, dest).0;
            let i = w1.names[src] as int;
            let last = w1.files.len() as int;
            &&& next.files[last].file_name == dest
            &&& w1.stored(i) is Some ==> next.stored(last) == w1.stored(i) && contents_of(
                next.files[last],
                next.stored(last)->0,
            ) == contents_of(w1.files[i], w1.stored(i)->0)
        },
{
    finished_keeps(w);
    let w1 = w.finished().0;
    let (next, r) = w.shallow_copied(src, dest);
    if r is Ok {
        kept_below_floor(w1, next, w1.done());
        kept_twice(w, w1, next, w.done());
        let i = w1.names[src] as int;
        assert(w1.names.contains_key(src));
    }
}

/// An entry whose contents come compressed leaves the complete entries. It is
/// found again as it came, if its name is not too long and its size is the one
/// that was told.
pub proof fn raw_copied_found(
    w: WriterState,
    name: Seq<char>,
    options: FileOptions,
    raw: ZipRawValues,
    packed: Seq<u8>,
)
    requires
        w.wf(),
        w.past_extra().wf(),
        w.finished().0.wf(),
        w.entry_begun(name, options, raw).0.wf(),
        w.raw_copied(name, options, raw, packed).0.wf(),
        w.raw_copied(name, options, raw, packed).1 is Ok,
        packed.len() <= usize::MAX,
    ensures
        w.kept_in(w.raw_copied(name, options, raw, packed).0, w.done()),
        vstd::utf8::encode_utf8(name).len() <= 0xffff && packed.len() == raw.compressed_size ==> {
            let next = w.raw_copied(name, options, raw, packed).0;
            let last = next.files.len() - 1;
            &&& next.stored(last) == Some(packed)
            &&& next.files[last].crc32 == raw.crc32
            &&& next.files[last].compression_method == options.compression_method
        },
{
    entry_begun_keeps(w, name, options, raw);
    let (w1, r1) = w.entry_begun(name, options, raw);
    let w2 = WriterState { writing_to_file: true, writing_raw: true, ..w1 };
    let next = w.raw_copied(name, options, raw, packed).0;
    let s = w1.sink.stream();
    overlay_facts(s.bytes, s.pos as int, packed);
    let b = next.sink.stream().bytes;
    kept_below_floor(w1, next, w1.done());
    kept_twice(w, w1, next, w.done());
    let f = next.files.last();
    let at = f.header_start as int;
    same_integers(s.bytes, b, at);
    same_integers(s.bytes, b, at + 26);
    same_integers(s.bytes, b, at + 28);
    if vstd::utf8::encode_utf8(name).len() <= 0xffff && packed.len() == raw.compressed_size {
        assert(b.subrange(f.data_start as int, f.data_start + f.compressed_size) =~= packed);
    }
}

/// The method by which contents are stored, if there is a decoder for it, is
/// found again by its number.
proof fn unpackable_method(f: FileRecord)
    requires
        can_unpack(f.compression_method),
    ensures
        method_of(f.compression_method.code()) == f.compression_method,
{
}

/// What a writer has stored is read from the archive that it finishes: the
/// archive has the entries of the writer, in order, and its comment, and each
/// entry that could be found before is found in the archive, with the same
/// contents.
///
/// The archive is the one with which the writer leaves its stream; each entry
/// must be one that can be read back from its central header, and the end of
/// the archive must be found where it is.
pub proof fn finished_archive_reads_back(w: WriterState)
    requires
        w.wf(),
        w.past_extra().wf(),
        w.finished().0.wf(),
        w.finalized().0.wf(),
        w.finalized().1 is Ok,
        forall|k: int|
            0 <= k < w.finished().0.files.len() ==> rereadable(
                #[trigger] w.finished().0.files[k],
                false,
            ),
        navigable(
            w.finalized().0.sink.stream().bytes,
            w.finished().0.files,
            w.finished().0.sink.stream().pos,
            w.comment,
        ),
    ensures
        ({
            let w1 = w.finished().0;
            let b = w.finalized().0.sink.stream().bytes;
            let start = w1.sink.stream().pos as int;
            let files = reread_all(w1.files, start, false);
            &&& archive_of(b, true) == Ok::<ArchiveRecord, ZipError>(
                ArchiveRecord {
                    files,
                    offset: 0,
                    directory_start: start as u64,
                    comment: w.comment,
                },
            )
            &&& files.len() == w1.files.len()
            &&& forall|i: int|
                #![trigger w1.stored(i)]
                #![trigger files[i]]
                w1.stored(i) is Some ==> {
                    &&& files[i].file_name == w1.files[i].file_name
                    &&& stored_bytes(b, files[i]) == Ok::<Seq<u8>, ZipError>(w1.stored(i)->0)
                    &&& can_unpack(w1.files[i].compression_method) ==> contents_of(
                        files[i],
                        w1.stored(i)->0,
                    ) == contents_of(w1.files[i], w1.stored(i)->0)
                }
            &&& w.kept_in(w1, w.done())
        }),
{
    finished_keeps(w);
    let w1 = w.finished().0;
    let next = w.finalized().0;
    let s = w1.sink.stream();
    let headers = central_headers(w1.files, false);
    let end = directory_end(w1.files.len(), s.pos, headers.len(), w1.comment);
    let b = next.sink.stream().bytes;
    overlay_twice(s.bytes, s.pos as int, headers, end);
    overlay_facts(s.bytes, s.pos as int, headers + end);
    assert(w1.comment == w.comment);
    archive_reads_back(b, w1.files, s.pos, w.comment, false);
    let files = reread_all(w1.files, s.pos as int, false);
    assert forall|i: int|
        #![trigger w1.stored(i)]
        #![trigger files[i]]
        w1.stored(i) is Some implies {
        &&& files[i].file_name == w1.files[i].file_name
        &&& stored_bytes(b, files[i]) == Ok::<Seq<u8>, ZipError>(w1.stored(i)->0)
        &&& can_unpack(w1.files[i].compression_method) ==> contents_of(
            files[i],
            w1.stored(i)->0,
        ) == contents_of(w1.files[i], w1.stored(i)->0)
    } by {
        stored_before_stays(s.bytes, s.pos as int, b, b.len() as int, w1.files[i]);
        stored_before_is_read(b, b.len() as int, w1.files[i]);
        if can_unpack(w1.files[i].compression_method) {
            unpackable_method(w1.files[i]);
        }
    }
}

/// Once it is ended, a file that would be found again is: what can be got back
/// of it is what was written to it.
pub proof fn finished_found(w: WriterState)
    requires
        w.wf(),
        w.faithful(),
        w.past_extra().wf(),
        w.writing_to_extra_field ==> w.files.last().local_zip64_len()
            + w.files.last().extra_field.len() <= 0xffff,
        w.past_extra().sink.recoverable(),
        w.finished().1 is Ok,
        w.finished().0.wf(),
    ensures
        ({
            let next = w.finished().0;
            let last = w.files.len() - 1;
            &&& next.files.len() == w.files.len()
            &&& next.files[last].file_name == w.files[last].file_name
            &&& next.files[last].uncompressed_size == w.contents.len()
            &&& next.stored(last) is Some
            &&& contents_of(next.files[last], next.stored(last)->0) == Ok::<Seq<u8>, ZipError>(
                w.contents,
            )
        }),
{
    if w.writing_to_extra_field {
        extra_data_ended_faithful(w);
    }
    contents_ended_found(w.past_extra());
}

impl WriterState {
    /// Whether every entry can be asked for by its name: no two have the same.
    pub open spec fn unique_names(self) -> bool {
        forall|i: int|
            0 <= i < self.files.len() ==> self.names.contains_key(
                (#[trigger] self.files[i]).file_name,
            ) && self.names[self.files[i].file_name] == i
    }
}

/// Where every entry can be asked for by its name, no two have the same.
pub proof fn unique_names_differ(w: WriterState, i: int, j: int)
    requires
        w.unique_names(),
        0 <= i < j < w.files.len(),
    ensures
        w.files[i].file_name != w.files[j].file_name,
{
    assert(w.names[w.files[i].file_name] == i);
    assert(w.names[w.files[j].file_name] == j);
}

proof fn unique_names_same(w: WriterState, next: WriterState)
    requires
        w.unique_names(),
        next.names == w.names,
        next.files.len() == w.files.len(),
        forall|i: int|
            0 <= i < w.files.len() ==> (#[trigger] next.files[i]).file_name
                == w.files[i].file_name,
    ensures
        next.unique_names(),
{
    assert forall|i: int| 0 <= i < next.files.len() implies next.names.contains_key(
        (#[trigger] next.files[i]).file_name,
    ) && next.names[next.files[i].file_name] == i by {
        assert(next.files[i].file_name == w.files[i].file_name);
    }
}

/// Names stay unique when the last entry is removed.
pub proof fn aborted_unique_names(w: WriterState)
    requires
        w.unique_names(),
        w.files.len() > 0,
    ensures
        w.aborted().unique_names(),
{
    let next = w.aborted();
    assert forall|i: int| 0 <= i < next.files.len() implies next.names.contains_key(
        (#[trigger] next.files[i]).file_name,
    ) && next.names[next.files[i].file_name] == i by {
        assert(next.files[i] == w.files[i]);
        unique_names_differ(w, i, w.files.len() - 1);
    }
}

/// Names stay unique when an entry ends.
pub proof fn finished_unique_names(w: WriterState)
    requires
        w.wf(),
        w.unique_names(),
    ensures
        w.finished().0.unique_names(),
{
    let w1 = w.past_extra();
    if w.writing_to_extra_field {
        if w.extra_data_ended().1 is Err {
            aborted_unique_names(w);
        } else {
            unique_names_same(w, w1);
        }
    }
    if w.finished().0 != w1 {
        unique_names_same(w1, w1.contents_ended().0);
    }
}

proof fn unique_names_added(w: WriterState, next: WriterState, f: FileRecord)
    requires
        w.unique_names(),
        w.files.len() < usize::MAX,
        !w.names.contains_key(f.file_name),
        next.files == w.files.push(f),
        next.names == w.with_entry(f).names,
    ensures
        next.unique_names(),
{
    assert forall|i: int| 0 <= i < next.files.len() implies next.names.contains_key(
        (#[trigger] next.files[i]).file_name,
    ) && next.names[next.files[i].file_name] == i by {
        if i < w.files.len() {
            assert(next.files[i] == w.files[i]);
        }
    }
}

/// Names stay unique when an entry begins: a name that is taken is refused.
pub proof fn entry_begun_unique_names(
    w: WriterState,
    name: Seq<char>,
    options: FileOptions,
    raw: ZipRawValues,
)
    requires
        w.wf(),
        w.unique_names(),
        w.entry_begun(name, options, raw).0.wf(),
    ensures
        w.entry_begun(name, options, raw).0.unique_names(),
{
    finished_unique_names(w);
    let w1 = w.finished().0;
    let (next, r) = w.entry_begun(name, options, raw);
    if r is Ok {
        unique_names_added(w1, next, next.files.last());
    }
}

/// Names stay unique when an entry is copied without its contents: a name that
/// is taken is refused.
pub proof fn shallow_copied_unique_names(w: WriterState, src: Seq<char>, dest: Seq<char>)
    requires
        w.wf(),
        w.unique_names(),
        w.shallow_copied(src, dest).0.wf(),
    ensures
        w.shallow_copied(src, dest).0.unique_names(),
{
    finished_unique_names(w);
    let w1 = w.finished().0;
    let (next, r) = w.shallow_copied(src, dest);
    if r is Ok {
        unique_names_added(w1, next, next.files.last());
    }
}

} // verus!
