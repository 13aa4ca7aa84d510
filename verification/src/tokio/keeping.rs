//! What is read of an archive that was streamed is what was written to it.
use vstd::prelude::*;

use crate::bytes::{stands_at, u16_at, u32_at};
use crate::keeping::{
    contents_ended_found, contents_ended_keeps, data_written_keeps, file_started_faithful,
    flushed_keeps, stored_before, stored_before_is_read, stored_before_stays,
};
use crate::read::{archive_of, contents_of, data_start_at, stored_bytes, ArchiveRecord};
use crate::result::ZipError;
use crate::roundtrip::{
    archive_reads_back, counted_up_to_last, navigable, reread_all, rereadable,
};
use crate::spec::ZIP64_BYTES_THR;
use crate::stream::{overlay_facts, overlay_twice};
use crate::tokio::read::streamed_contents_of;
use crate::tokio::write::{all_moved, moved};
use crate::types::FileRecord;
use crate::write::{
    central_headers, directory_end, new_entry, no_raw_values, typed, FileOptions, WriterState,
};

verus! {

broadcast use crate::bytes::group_byte_lengths;

/// The state between two entries is one that the other writer could be in.
proof fn rest_is_wf(w: WriterState)
    requires
        w.streaming(),
        !w.open(),
        !w.writing_to_file,
    ensures
        w.wf(),
        w.past_extra().wf(),
        w.finished().0.wf(),
        w.finished().1 is Ok,
        w.finished().0 == (WriterState { writing_raw: true, ..w }),
{
    assert(w.finished().0 =~= (WriterState { writing_raw: true, ..w }));
}

/// The state in which an entry is under way is one that the other writer could be
/// in, as long as the entry is not too large.
proof fn under_way_is_wf(w: WriterState)
    requires
        w.streaming(),
        w.under_way(),
        !w.writing_to_extra_field,
        w.bytes_written <= ZIP64_BYTES_THR,
    ensures
        w.wf(),
{
}

/// Once it is started, a file will be found again, and nothing was written to it
/// yet. The entries that were complete before are left.
pub proof fn streamed_file_faithful(w: WriterState, name: Seq<char>, options: FileOptions)
    requires
        w.streaming(),
        w.streamed_finished().0.streaming(),
        w.streamed_file(name, options).0.streaming(),
        w.streamed_file(name, options).1 is Ok,
        vstd::utf8::encode_utf8(name).len() <= 0xffff,
    ensures
        w.streamed_file(name, options).0.faithful(),
        w.streamed_file(name, options).0.contents == Seq::<u8>::empty(),
        w.streamed_finished().0.kept_in(
            w.streamed_file(name, options).0,
            w.streamed_finished().0.done(),
        ),
{
    let w1 = w.streamed_finished().0;
    let next = w.streamed_file(name, options).0;
    rest_is_wf(w1);
    let began = w1.entry_begun(name, options, no_raw_values()).0;
    let entry = w.streamed_entry(name, options).0;
    assert(began =~= (WriterState { names: began.names, ..entry }));
    assert(next.files =~= entry.files);
    assert(began.wf());
    file_started_faithful(w1, name, options);
    let other = w1.file_started(name, options).0;
    assert(other =~= (WriterState { names: other.names, sink: other.sink, ..next }));
    assert(other.sink.stream() == next.sink.stream());
    assert(next.contents =~= Seq::empty());
    assert forall|i: int| 0 <= i < w1.done() && (#[trigger] w1.stored(i)) is Some implies
        next.files.len() > i && next.files[i] == w1.files[i] && next.stored(i) == w1.stored(
        i,
    ) by {
        assert(other.stored(i) == w1.stored(i));
    }
}

/// A flush leaves the complete entries, and a file that will be found again such. Nothing
/// that was in the stream before where it stood changes.
pub proof fn streamed_flush_keeps(w: WriterState)
    requires
        w.streaming(),
        w.streamed_flush().0.streaming(),
        w.under_way(),
        !w.writing_to_extra_field,
        w.bytes_written <= ZIP64_BYTES_THR,
    ensures
        w.kept_in(w.streamed_flush().0, w.done()),
        w.streamed_flush().0.done() == w.done(),
        w.streamed_flush().0.contents == w.contents,
        w.streamed_flush().0.sink.stream().pos >= w.sink.stream().pos,
        w.faithful() ==> w.streamed_flush().0.faithful(),
{
    under_way_is_wf(w);
    flushed_keeps(w);
}

/// More contents leave a file that will be found again such, with the contents
/// added, and leave the complete entries.
pub proof fn streamed_data_keeps(w: WriterState, data: Seq<u8>)
    requires
        w.streaming(),
        w.active(),
        w.streamed_data(data).0.streaming(),
        w.streamed_data(data).1 is Ok,
        w.faithful(),
        data.len() <= usize::MAX,
        w.bytes_written + data.len() <= ZIP64_BYTES_THR,
    ensures
        w.streamed_data(data).0.faithful(),
        w.streamed_data(data).0.contents == w.contents + data,
        w.kept_in(w.streamed_data(data).0, w.done()),
{
    let next = w.streamed_data(data).0;
    if data.len() == 0 {
        assert(w.contents + data =~= w.contents);
    } else {
        let past = WriterState {
            writing_to_extra_field: false,
            writing_to_central_extra_field_only: false,
            ..w
        };
        let more = past.data_written(data).0;
        under_way_is_wf(past);
        assert(next =~= (WriterState {
            writing_to_extra_field: w.writing_to_extra_field,
            writing_to_central_extra_field_only: w.writing_to_central_extra_field_only,
            ..more
        }));
        under_way_is_wf(more);
        data_written_keeps(past, data);
        assert forall|k: int| 0 <= k < w.done() && (#[trigger] w.stored(k)) is Some implies
            next.files.len() > k && next.files[k] == w.files[k] && next.stored(k) == w.stored(
            k,
        ) by {
            assert(past.stored(k) == w.stored(k));
            assert(more.stored(k) == past.stored(k));
        }
    }
}

/// A symbolic link will be found again, with its target for contents. The entries that
/// were complete before are left.
pub proof fn streamed_symlink_faithful(
    w: WriterState,
    name: Seq<char>,
    target: Seq<u8>,
    options: FileOptions,
)
    requires
        w.streaming(),
        w.streamed_finished().0.streaming(),
        w.streamed_symlink(name, target, options).0.streaming(),
        w.streamed_symlink(name, target, options).1 is Ok,
        vstd::utf8::encode_utf8(name).len() <= 0xffff,
        target.len() <= ZIP64_BYTES_THR,
    ensures
        w.streamed_symlink(name, target, options).0.faithful(),
        w.streamed_symlink(name, target, options).0.under_way(),
        w.streamed_symlink(name, target, options).0.contents == target,
        w.streamed_finished().0.kept_in(
            w.streamed_symlink(name, target, options).0,
            w.streamed_finished().0.done(),
        ),
{
    let made = FileOptions { compression_level: None, ..typed(options, 0o777, 0o120000) };
    let next = w.streamed_symlink(name, target, options).0;
    let w1 = w.streamed_finished().0;
    let begun = w.streamed_file(name, made).0;
    let f = begun.files.last();
    let at = w1.sink.stream().pos as u64;
    reveal(FileRecord::local_header);
    reveal(FileRecord::local_fixed);
    assert(new_entry(name, made, no_raw_values(), at).local_header() == new_entry(
        name,
        typed(options, 0o777, 0o120000),
        no_raw_values(),
        at,
    ).local_header());
    assert(next.files.last() =~= (FileRecord {
        compression_level: options.compression_level,
        ..f
    }));
    assert(begun.streaming());
    streamed_file_faithful(w, name, made);
    let full = begun.streamed_data(target).0;
    assert(full.streaming());
    streamed_data_keeps(begun, target);
    assert(Seq::<u8>::empty() + target =~= target);
    assert(next.contents =~= target);
    assert forall|k: int| 0 <= k < w1.done() && (#[trigger] w1.stored(k)) is Some implies
        next.files.len() > k && next.files[k] == w1.files[k] && next.stored(k) == w1.stored(
        k,
    ) by {
        assert(begun.stored(k) == w1.stored(k));
        assert(full.stored(k) == begun.stored(k));
    }
}

/// What a complete entry stores is there once the central headers are written.
proof fn headers_keep(w1: WriterState, headers: Seq<u8>, end: Seq<u8>, i: int)
    requires
        w1.sink is Plain,
        !w1.open(),
        w1.stored(i) is Some,
    ensures
        ({
            let s = w1.sink.stream();
            stored_bytes(s.written(headers).written(end).bytes, w1.files[i]) == Ok::<
                Seq<u8>,
                ZipError,
            >(w1.stored(i)->0)
        }),
{
    let s = w1.sink.stream();
    overlay_twice(s.bytes, s.pos as int, headers, end);
    overlay_facts(s.bytes, s.pos as int, headers + end);
    let b = s.written(headers).written(end).bytes;
    stored_before_stays(s.bytes, s.pos as int, b, b.len() as int, w1.files[i]);
    stored_before_is_read(b, b.len() as int, w1.files[i]);
}

/// Once the archive is ended, its last file is found in it, with the contents that
/// were written to it.
pub proof fn streamed_end_found(w: WriterState)
    requires
        w.streaming(),
        w.under_way(),
        !w.writing_to_extra_field,
        w.faithful(),
        w.bytes_written <= ZIP64_BYTES_THR,
        w.sink.recoverable(),
        w.streamed_finished().0.streaming(),
        w.streamed_end().1 is Ok,
    ensures
        ({
            let next = w.streamed_end().0;
            let b = next.sink.stream().bytes;
            let f = next.files.last();
            &&& next.files.len() == w.files.len()
            &&& f.file_name == w.files.last().file_name
            &&& f.uncompressed_size == w.contents.len()
            &&& stored_bytes(b, f) matches Ok(packed) && packed.len() == f.compressed_size
                && contents_of(f, packed) == Ok::<Seq<u8>, ZipError>(w.contents)
                && streamed_contents_of(f, packed) == Ok::<Seq<u8>, ZipError>(w.contents)
        }),
{
    let w1 = w.streamed_finished().0;
    under_way_is_wf(w);
    rest_is_wf(w1);
    contents_ended_found(w);
    headers_keep(
        w1,
        central_headers(w1.files, true),
        directory_end(
            w1.files.len(),
            w1.sink.stream().pos,
            central_headers(w1.files, true).len(),
            w1.comment,
        ),
        w1.files.len() - 1,
    );
}

/// Once the archive is ended, each entry that was complete before is found in it as
/// it was.
pub proof fn streamed_end_keeps(w: WriterState, i: int)
    requires
        w.streaming(),
        !w.writing_to_extra_field,
        w.open() ==> w.under_way() && w.bytes_written <= ZIP64_BYTES_THR,
        w.writing_to_file ==> w.open(),
        w.streamed_finished().0.streaming(),
        w.streamed_end().1 is Ok,
        w.stored(i) is Some,
    ensures
        w.streamed_end().0.files[i] == w.files[i],
        stored_bytes(w.streamed_end().0.sink.stream().bytes, w.files[i]) == Ok::<
            Seq<u8>,
            ZipError,
        >(w.stored(i)->0),
{
    let w1 = w.streamed_finished().0;
    if w.open() {
        under_way_is_wf(w);
    } else {
        rest_is_wf(w);
    }
    contents_ended_keeps(w);
    assert(w1.stored(i) == w.stored(i));
    headers_keep(
        w1,
        central_headers(w1.files, true),
        directory_end(
            w1.files.len(),
            w1.sink.stream().pos,
            central_headers(w1.files, true).len(),
            w1.comment,
        ),
        i,
    );
}

/// Where all entries can be moved, each is.
pub proof fn moved_one_by_one(files: Seq<FileRecord>, by: u64, i: int)
    requires
        all_moved(files, by) is Some,
        0 <= i < files.len(),
    ensures
        all_moved(files, by)->0.len() == files.len(),
        moved(files[i], by) == Some(all_moved(files, by)->0[i]),
    decreases files.len(),
{
    let before = files.drop_last();
    moved_len(files, by);
    moved_len(before, by);
    if i < files.len() - 1 {
        moved_one_by_one(before, by, i);
    }
}

proof fn moved_len(files: Seq<FileRecord>, by: u64)
    requires
        all_moved(files, by) is Some,
    ensures
        all_moved(files, by)->0.len() == files.len(),
    decreases files.len(),
{
    if files.len() > 0 {
        moved_len(files.drop_last(), by);
    }
}

/// What is stored for a file is found where the bytes were copied to.
proof fn copied_is_found(part: Seq<u8>, b: Seq<u8>, by: u64, f: FileRecord)
    requires
        stored_before(part, part.len() as int, f) is Some,
        stands_at(b, by as int, part),
        moved(f, by) is Some,
        b.len() <= u64::MAX,
    ensures
        stored_before(b, by + part.len(), moved(f, by)->0) == stored_before(
            part,
            part.len() as int,
            f,
        ),
{
    let at = f.header_start as int;
    let g = moved(f, by)->0;
    let start = data_start_at(part, at)->Ok_0;
    assert(forall|k: int| 0 <= k < part.len() ==> #[trigger] b[by + k] == part[k]) by {
        assert(b.subrange(by as int, by + part.len()) == part);
        assert(forall|k: int|
            0 <= k < part.len() ==> #[trigger] b.subrange(by as int, by + part.len())[k] == b[by
                + k]);
    }
    reveal(u16_at);
    reveal(u32_at);
    assert(b[by + at] == part[at] && b[by + (at + 1)] == part[at + 1] && b[by + (at + 2)]
        == part[at + 2] && b[by + (at + 3)] == part[at + 3]);
    assert(b[by + (at + 26)] == part[at + 26] && b[by + (at + 27)] == part[at + 27] && b[by + (at
        + 28)] == part[at + 28] && b[by + (at + 29)] == part[at + 29]);
    assert(data_start_at(b, by + at) == Ok::<int, ZipError>(by + start));
    assert(b.subrange(by + start, by + start + f.compressed_size) =~= b.subrange(
        by as int,
        by + part.len(),
    ).subrange(start, start + f.compressed_size));
}

/// What is stored for the entries of an archive that is merged into another is
/// found there just as it was, and what was stored before is left.
pub proof fn merged_is_found(w: WriterState, files: Seq<FileRecord>, before: Seq<u8>, i: int)
    requires
        w.streaming(),
        w.streamed_finished().0.streaming(),
        w.streamed_merge(files, before).0.streaming(),
        w.streamed_merge(files, before).1 is Ok,
        0 <= i < files.len(),
        stored_before(before, before.len() as int, files[i]) is Some,
    ensures
        ({
            let w1 = w.streamed_finished().0;
            let next = w.streamed_merge(files, before).0;
            let j = w1.files.len() + i;
            &&& next.files.len() == w1.files.len() + files.len()
            &&& next.files[j].file_name == files[i].file_name
            &&& next.files[j].crc32 == files[i].crc32
            &&& next.files[j].compression_method == files[i].compression_method
            &&& next.stored(j) == stored_before(before, before.len() as int, files[i])
            &&& w1.kept_in(next, w1.done())
        }),
{
    let w1 = w.streamed_finished().0;
    let next = w.streamed_merge(files, before).0;
    let s = w1.sink.stream();
    let by = s.pos as u64;
    moved_one_by_one(files, by, i);
    overlay_facts(s.bytes, s.pos as int, before);
    let b = next.sink.stream().bytes;
    copied_is_found(before, b, by, files[i]);
    assert forall|k: int| 0 <= k < w1.done() && (#[trigger] w1.stored(k)) is Some implies
        next.files.len() > k && next.files[k] == w1.files[k] && next.stored(k) == w1.stored(
        k,
    ) by {
        stored_before_stays(s.bytes, s.pos as int, b, next.sink.stream().pos as int, w1.files[k]);
    }
}

/// An archive that can be read where a disk number must be right can be read where
/// it need not.
pub proof fn strictness_only_refuses(b: Seq<u8>)
    requires
        archive_of(b, true) is Ok,
    ensures
        archive_of(b, false) == archive_of(b, true),
{
}

/// The archive that is made readable right after it was written is the one that is
/// read from the bytes: it has the same entries, in order, at the same places, and
/// the same comment.
///
/// Each entry must be one that can be read back from its central header, none but the
/// last may have extra data, which is not counted in the header, and the end of the
/// archive must be found where it is.
pub proof fn streamed_archive_reads_back(w: WriterState)
    requires
        w.streaming(),
        w.streamed_finished().0.streaming(),
        w.streamed_end().1 is Ok,
        w.streamed_end().0.streaming(),
        forall|k: int|
            0 <= k < w.streamed_finished().0.files.len() ==> rereadable(
                #[trigger] w.streamed_finished().0.files[k],
                true,
            ),
        counted_up_to_last(w.streamed_finished().0.files, true),
        navigable(
            w.streamed_end().0.sink.stream().bytes,
            w.streamed_finished().0.files,
            w.streamed_finished().0.sink.stream().pos,
            w.comment,
        ),
    ensures
        ({
            let next = w.streamed_end().0;
            let start = w.streamed_end().1->Ok_0;
            archive_of(next.sink.stream().bytes, false) == Ok::<ArchiveRecord, ZipError>(
                ArchiveRecord {
                    files: reread_all(next.files, start as int, true),
                    offset: 0,
                    directory_start: start,
                    comment: next.comment,
                },
            )
        }),
{
    let w1 = w.streamed_finished().0;
    let next = w.streamed_end().0;
    let s = w1.sink.stream();
    let headers = central_headers(w1.files, true);
    let end = directory_end(w1.files.len(), s.pos, headers.len(), w1.comment);
    let b = next.sink.stream().bytes;
    overlay_twice(s.bytes, s.pos as int, headers, end);
    overlay_facts(s.bytes, s.pos as int, headers + end);
    archive_reads_back(b, w1.files, s.pos, w.comment, true);
    strictness_only_refuses(b);
}

} // verus!
