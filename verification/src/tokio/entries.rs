//! What an entry of a streamed archive says is what was asked for when it was made.
use vstd::prelude::*;

use crate::bytes::{stands_at, u16_at, u16_at_of_bytes, u16_bytes};
use crate::codec::can_unpack;
use crate::compression::{code_of_method, CompressionMethod};
use crate::encoder::Given;
use crate::entries::{mode_bits, mode_is_told};
use crate::header::extra_data_flaw;
use crate::read::archive_of;
use crate::roundtrip::{counted_up_to_last, navigable, reread_all, rereadable};
use crate::sink::{packing_goes_on, Sink};
use crate::stream::overlay_facts;
use crate::tokio::keeping::{moved_one_by_one, streamed_archive_reads_back};
use crate::tokio::write::{all_moved, as_file, moved, readable, slashed};
use crate::types::{FileRecord, System};
use crate::write::{
    new_entry, no_raw_values, padding, padding_aligns, typed, FileOptions, WriterState,
};

verus! {

broadcast use crate::bytes::group_byte_lengths;

/// The end of an entry leaves the comment of the archive as it is.
pub proof fn streamed_ended_comment(w: WriterState)
    ensures
        w.streamed_finished().0.comment == w.comment,
        w.streamed_past_extra().comment == w.comment,
{
}

/// An entry that begins comes after the others, which it leaves as they are. It has the name, the
/// way to store contents and the time that were given, and its mode is the one of the options. The
/// comment of the archive stays.
pub proof fn streamed_entry_says(w: WriterState, name: Seq<char>, options: FileOptions)
    requires
        w.streamed_entry(name, options).1 is Ok,
    ensures
        ({
            let ended = w.streamed_finished().0;
            let next = w.streamed_entry(name, options).0;
            let f = next.files.last();
            &&& w.streamed_finished().1 is Ok
            &&& next.files.len() == ended.files.len() + 1
            &&& next.files.drop_last() == ended.files
            &&& next.comment == w.comment
            &&& next.contents.len() == 0
            &&& f.file_name == name
            &&& f.compression_method == options.compression_method
            &&& f.compression_level == options.compression_level
            &&& f.last_modified_time == options.last_modified_time@
            &&& f.large_file == options.large_file
            &&& f.system == System::Unix
            &&& f.version_made_by == 46
            &&& options.permissions matches Some(mode) ==> mode <= 0xffff ==> f.unix_mode() == Some(
                mode,
            )
            &&& options.permissions is None ==> f.unix_mode() == Some(0o100644u32)
            &&& f.crc32 == 0 && f.compressed_size == 0 && f.uncompressed_size == 0
            &&& !f.encrypted && f.aes_mode is None && !f.using_data_descriptor
            &&& f.extra_field.len() == 0
            &&& f.file_comment.len() == 0
            &&& f.header_start == ended.sink.stream().pos as u64
        }),
{
    let ended = w.streamed_finished().0;
    let next = w.streamed_entry(name, options).0;
    assert(next.files.drop_last() =~= ended.files);
    if let Some(mode) = options.permissions {
        if mode <= 0xffff {
            mode_is_told(mode);
        }
    } else {
        mode_is_told(0o100644);
    }
    streamed_ended_comment(w);
}

/// A file that is started is the last entry, with the name, the way to store contents, the time
/// and the permissions that were asked for: it is a regular file, and one that its owner can write
/// and all can read where no permissions were asked for. So it is if its extra data comes first.
pub proof fn streamed_file_says(w: WriterState, name: Seq<char>, options: FileOptions, extra: bool)
    requires
        !extra ==> w.streamed_file(name, as_file(options)).1 is Ok,
        extra ==> w.streamed_extra_started(name, as_file(options)).1 is Ok,
    ensures
        ({
            let ended = w.streamed_finished().0;
            let next = if extra {
                w.streamed_extra_started(name, as_file(options)).0
            } else {
                w.streamed_file(name, as_file(options)).0
            };
            let f = next.files.last();
            &&& next.files.len() == ended.files.len() + 1
            &&& next.files.drop_last() == ended.files
            &&& next.comment == w.comment
            &&& next.contents.len() == 0
            &&& next.writing_to_file
            &&& next.writing_to_extra_field == extra
            &&& extra ==> w.streamed_extra_started(name, as_file(options)).1->Ok_0 == f.data_start
            &&& f.file_name == name
            &&& f.compression_method == options.compression_method
            &&& f.compression_level == options.compression_level
            &&& f.large_file == options.large_file
            &&& f.last_modified_time == options.last_modified_time@
            &&& options.permissions matches Some(mode) ==> mode <= 0xffff ==> f.unix_mode() == Some(
                mode | 0o100000,
            )
            &&& options.permissions is None ==> f.unix_mode() == Some(0o100644u32)
        }),
{
    streamed_entry_says(w, name, as_file(options));
    if let Some(mode) = options.permissions {
        mode_bits(mode);
    } else {
        mode_bits(0o644);
    }
}

/// A directory that is added has a name that ends with a slash: the one that was given, or that
/// with a slash after it. Its mode says that it is a directory, with the permissions that were
/// asked for, or one that its owner can write and all can enter. It is stored as it is.
pub proof fn streamed_directory_says(w: WriterState, name: Seq<char>, options: FileOptions)
    requires
        w.streamed_directory(name, options).1 is Ok,
    ensures
        ({
            let ended = w.streamed_finished().0;
            let next = w.streamed_directory(name, options).0;
            let f = next.files.last();
            &&& next.files.len() == ended.files.len() + 1
            &&& next.files.drop_last() == ended.files
            &&& next.comment == w.comment
            &&& f.file_name.len() > 0 && f.file_name.last() == '/'
            &&& name.is_prefix_of(f.file_name)
            &&& name.len() > 0 && name.last() == '/' ==> f.file_name == name
            &&& name.len() == 0 || name.last() != '/' ==> f.file_name == name.push('/')
            &&& f.compression_method == CompressionMethod::Stored
            &&& f.last_modified_time == options.last_modified_time@
            &&& options.permissions matches Some(mode) ==> mode <= 0o777 ==> (
            f.unix_mode() matches Some(made) && made & 0o777 == mode && made & 0o170000 == 0o40000)
            &&& options.permissions is None ==> f.unix_mode() == Some(0o40755u32)
        }),
{
    streamed_entry_says(w, slashed(name), typed(options, 0o755, 0o40000));
    if let Some(mode) = options.permissions {
        mode_bits(mode);
    } else {
        mode_bits(0o755);
    }
}

/// A symbolic link that is added is an entry whose mode says so, with the permissions that were
/// asked for or else all of them. Its contents are its target, stored as it is.
pub proof fn streamed_symlink_says(
    w: WriterState,
    name: Seq<char>,
    target: Seq<u8>,
    options: FileOptions,
)
    requires
        w.streamed_symlink(name, target, options).1 is Ok,
        w.streamed_entry(name, typed(options, 0o777, 0o120000)).0.streaming(),
        target.len() <= usize::MAX,
    ensures
        ({
            let ended = w.streamed_finished().0;
            let next = w.streamed_symlink(name, target, options).0;
            let f = next.files.last();
            &&& next.files.len() == ended.files.len() + 1
            &&& next.files.drop_last() == ended.files
            &&& next.comment == w.comment
            &&& f.file_name == name
            &&& f.compression_method == CompressionMethod::Stored
            &&& f.last_modified_time == options.last_modified_time@
            &&& options.permissions matches Some(mode) ==> mode <= 0o777 ==> (
            f.unix_mode() matches Some(made) && made & 0o777 == mode && made & 0o170000
                == 0o120000)
            &&& options.permissions is None ==> f.unix_mode() == Some(0o120777u32)
            &&& next.contents == target
            &&& next.bytes_written == target.len()
            &&& stands_at(next.sink.stream().bytes, f.data_start as int, target)
            &&& !next.writing_to_file
        }),
{
    let made = typed(options, 0o777, 0o120000);
    streamed_entry_says(w, name, made);
    if let Some(mode) = options.permissions {
        mode_bits(mode);
    } else {
        mode_bits(0o777);
    }
    let begun = w.streamed_entry(name, made).0;
    let s = begun.sink.stream();
    overlay_facts(s.bytes, s.pos as int, target);
    assert(Seq::<u8>::empty() + target =~= target);
    if target.len() == 0 {
        header_stands(w, name, made);
        assert(s.bytes.subrange(s.pos as int, s.pos as int) =~= target);
        assert(begun.contents =~= target);
    }
}

/// The stream does not stand beyond its end when an entry has begun.
proof fn header_stands(w: WriterState, name: Seq<char>, options: FileOptions)
    requires
        w.streamed_entry(name, options).1 is Ok,
    ensures
        w.streamed_entry(name, options).0.sink.stream().pos <= w.streamed_entry(
            name,
            options,
        ).0.sink.stream().bytes.len(),
{
    let s = w.streamed_finished().0.sink.stream();
    let f = new_entry(name, options, no_raw_values(), s.pos as u64);
    overlay_facts(s.bytes, s.pos as int, f.local_header());
}

/// The entries of an archive that is merged into another come after those that were there, in
/// their order and each as it was but for where it is: as much further along as the other archive
/// had got. The comment stays that of the other.
pub proof fn merged_entries_say(w: WriterState, files: Seq<FileRecord>, before: Seq<u8>)
    requires
        w.streamed_merge(files, before).1 is Ok,
    ensures
        ({
            let ended = w.streamed_finished().0;
            let by = ended.sink.stream().pos as u64;
            let next = w.streamed_merge(files, before).0;
            let n = ended.files.len() as int;
            &&& w.streamed_finished().1 is Ok
            &&& next.files.len() == n + files.len()
            &&& next.files.take(n) == ended.files
            &&& next.comment == w.comment
            &&& files.len() > 0 ==> stands_at(
                next.sink.stream().bytes,
                ended.sink.stream().pos as int,
                before,
            )
            &&& forall|i: int|
                #![trigger files[i]]
                0 <= i < files.len() ==> {
                    let f = files[i];
                    let g = next.files[n + i];
                    &&& g.file_name == f.file_name
                    &&& g.unix_mode() == f.unix_mode()
                    &&& g.last_modified_time == f.last_modified_time
                    &&& g.crc32 == f.crc32
                    &&& g.compressed_size == f.compressed_size
                    &&& g.uncompressed_size == f.uncompressed_size
                    &&& g.compression_method == f.compression_method
                    &&& g.extra_field == f.extra_field
                    &&& g.file_comment == f.file_comment
                    &&& g.encrypted == f.encrypted
                    &&& g.large_file == f.large_file
                    &&& g.header_start == f.header_start + by
                    &&& f.data_start > 0 ==> g.data_start == f.data_start + by
                    &&& f.data_start == 0 ==> g.data_start == 0
                }
        }),
{
    streamed_ended_comment(w);
    let ended = w.streamed_finished().0;
    let by = ended.sink.stream().pos as u64;
    let next = w.streamed_merge(files, before).0;
    let n = ended.files.len() as int;
    let s = ended.sink.stream();
    overlay_facts(s.bytes, s.pos as int, before);
    assert forall|i: int| #![trigger files[i]] 0 <= i < files.len() implies moved(files[i], by)
        == Some(next.files[n + i]) by {
        moved_one_by_one(files, by, i);
    }
    if files.len() > 0 {
        moved_one_by_one(files, by, 0);
    }
    assert(next.files.take(n) =~= ended.files);
}

/// A merge is refused if an entry would be too far away, and only then, where the last entry can
/// be ended.
pub proof fn merge_is_refused(w: WriterState, files: Seq<FileRecord>, before: Seq<u8>)
    requires
        w.streamed_finished().1 is Ok,
    ensures
        ({
            let by = w.streamed_finished().0.sink.stream().pos as u64;
            w.streamed_merge(files, before).1 is Err <==> exists|i: int|
                0 <= i < files.len() && ((#[trigger] files[i]).header_start + by > u64::MAX
                    || files[i].data_start + by > u64::MAX)
        }),
{
    let by = w.streamed_finished().0.sink.stream().pos as u64;
    none_too_far(files, by);
}

proof fn none_too_far(files: Seq<FileRecord>, by: u64)
    ensures
        all_moved(files, by) is None <==> exists|i: int|
            0 <= i < files.len() && ((#[trigger] files[i]).header_start + by > u64::MAX
                || files[i].data_start + by > u64::MAX),
    decreases files.len(),
{
    if files.len() > 0 {
        let first = files.drop_last();
        none_too_far(first, by);
        if all_moved(first, by) is None {
            let i = choose|i: int|
                0 <= i < first.len() && ((#[trigger] first[i]).header_start + by > u64::MAX
                    || first[i].data_start + by > u64::MAX);
            assert(files[i] == first[i]);
        } else if all_moved(files, by) is None {
            assert(files[files.len() - 1] == files.last());
        } else {
            assert forall|i: int| 0 <= i < files.len() implies !((
            #[trigger] files[i]).header_start + by > u64::MAX || files[i].data_start + by
                > u64::MAX) by {
                if i < first.len() {
                    assert(files[i] == first[i]);
                }
            }
        }
    }
}

/// What an archive that is ended tells of its entries is what the writer knew of them: there are
/// as many, in the same order, each with its name, its mode, its time to the even second, its
/// sizes, its checksum and its way to store contents. The comment of the archive is the one that
/// the writer had.
///
/// Each entry must be one that can be read back from its central header, none but the last may
/// have extra data, and the end of the archive must be found where it is.
pub proof fn streamed_archive_says(w: WriterState)
    requires
        w.streaming(),
        w.streamed_finished().0.streaming(),
        w.streamed_end().1 is Ok,
        w.streamed_end().0.streaming(),
        forall|k: int|
            0 <= k < w.streamed_finished().0.files.len() ==> rereadable(
                #[trigger] w.streamed_finished().0.files[k],
                true,
            ),
        counted_up_to_last(w.streamed_finished().0.files, true),
        navigable(
            w.streamed_end().0.sink.stream().bytes,
            w.streamed_finished().0.files,
            w.streamed_finished().0.sink.stream().pos,
            w.comment,
        ),
    ensures
        ({
            let ended = w.streamed_finished().0;
            let b = w.streamed_end().0.sink.stream().bytes;
            let read = archive_of(b, false)->Ok_0;
            &&& archive_of(b, false) is Ok
            &&& w.streamed_end().1->Ok_0 == read.directory_start
            &&& read.comment == w.comment
            &&& read.files.len() == ended.files.len()
            &&& w.streamed_end().0.files == ended.files
            &&& forall|k: int|
                #![trigger read.files[k]]
                #![trigger ended.files[k]]
                0 <= k < ended.files.len() ==> {
                    let f = ended.files[k];
                    let g = read.files[k];
                    &&& g.file_name == f.file_name
                    &&& f.system is Unix || f.system is Dos ==> g.system == f.system
                        && g.unix_mode() == f.unix_mode()
                    &&& g.external_attributes == f.external_attributes
                    &&& g.version_made_by == f.version_made_by
                    &&& g.last_modified_time.year == f.last_modified_time.year
                    &&& g.last_modified_time.month == f.last_modified_time.month
                    &&& g.last_modified_time.day == f.last_modified_time.day
                    &&& g.last_modified_time.hour == f.last_modified_time.hour
                    &&& g.last_modified_time.minute == f.last_modified_time.minute
                    &&& g.last_modified_time.second == f.last_modified_time.second
                        - f.last_modified_time.second % 2
                    &&& g.crc32 == f.crc32
                    &&& g.compressed_size == f.compressed_size
                    &&& g.uncompressed_size == f.uncompressed_size
                    &&& g.header_start == f.header_start
                    &&& g.compression_method.code() == f.compression_method.code()
                    &&& can_unpack(f.compression_method) ==> g.compression_method
                        == f.compression_method
                    &&& g.encrypted == f.encrypted
                    &&& g.aes_mode is None && !g.using_data_descriptor
                }
        }),
{
    streamed_archive_reads_back(w);
    let ended = w.streamed_finished().0;
    let b = w.streamed_end().0.sink.stream().bytes;
    let start = w.streamed_end().1->Ok_0;
    let read = archive_of(b, false)->Ok_0;
    streamed_ended_comment(w);
    assert(read.files == reread_all(ended.files, start as int, true));
    assert forall|k: int|
        #![trigger read.files[k]]
        #![trigger ended.files[k]]
        0 <= k < ended.files.len() implies {
        let f = ended.files[k];
        let g = read.files[k];
        &&& g.compression_method.code() == f.compression_method.code()
        &&& can_unpack(f.compression_method) ==> g.compression_method == f.compression_method
        &&& f.system is Unix || f.system is Dos ==> g.system == f.system
        &&& g.external_attributes == f.external_attributes
        &&& g.version_made_by == f.version_made_by
        &&& g.encrypted == f.encrypted
    } by {
        let f = ended.files[k];
        assert(rereadable(f, true));
        code_of_method(f.compression_method.code());
    }
}

/// What is written goes to the contents of the last entry, after what was written before; or, while
/// the extra data of its local header is written, to that. Nothing is taken where no file was
/// started.
pub proof fn streamed_data_goes_to_last_entry(w: WriterState, data: Seq<u8>)
    requires
        w.bytes_written + data.len() <= u64::MAX,
        data.len() > 0,
    ensures
        ({
            let (next, r) = w.streamed_data(data);
            let f = w.files.last();
            let g = next.files.last();
            &&& !w.writing_to_file ==> r is Err && next == w
            &&& w.writing_to_file && w.in_local_extra() ==> {
                &&& r is Ok
                &&& g.extra_field == f.extra_field + data
                &&& g.file_name == f.file_name
                &&& g.unix_mode() == f.unix_mode()
                &&& next.contents == w.contents
                &&& next.sink == w.sink
                &&& next.files.drop_last() == w.files.drop_last()
            }
            &&& w.writing_to_file && !w.in_local_extra() ==> {
                &&& r is Err <==> w.bytes_written + data.len() > 0xffff_ffff
                &&& next.contents == w.contents + data
                &&& next.bytes_written == w.bytes_written + data.len()
                &&& next.files == w.files
                &&& next.comment == w.comment
                &&& w.sink matches Sink::Plain(s) ==> next.sink == Sink::Plain(s.written(data))
                &&& w.sink matches Sink::Packing(s, packing, given) ==> next.sink.stream()
                    == w.sink.stream().extended(packing.on_given(given, Given::Contents(data)))
            }
        }),
{
    let next = w.streamed_data(data).0;
    if let Sink::Packing(s, packing, given) = w.sink {
        packing_goes_on(s, packing, given, Given::Contents(data));
    }
    if w.writing_to_file && w.in_local_extra() {
        assert(next.files.drop_last() =~= w.files.drop_last());
    }
}

/// A flush puts what the compressor gives out when it is told to into the stream, right after what
/// is there. Where contents are stored as they are, there is nothing to put out.
pub proof fn streamed_flush_arrives(w: WriterState)
    ensures
        ({
            let (next, r) = w.streamed_flush();
            &&& r is Ok
            &&& w.sink is Plain ==> next == w
            &&& w.sink matches Sink::Packing(s, packing, given) ==> next.sink.stream()
                == w.sink.stream().extended(packing.on_given(given, Given::Flush))
            &&& next.files == w.files
            &&& next.contents == w.contents
            &&& next.comment == w.comment
        }),
{
    if let Sink::Packing(s, packing, given) = w.sink {
        packing_goes_on(s, packing, given, Given::Flush);
    }
}

/// Once the extra data of the local header is ended, it stands in the local header, right before
/// where contents start, and the header tells its length. Extra data that is not well-formed is
/// refused, and stays.
pub proof fn streamed_extra_data_says(w: WriterState)
    requires
        w.streaming(),
        w.in_local_extra(),
        w.streamed_extra_ended().0.streaming(),
    ensures
        ({
            let (next, r) = w.streamed_extra_ended();
            let f = w.files.last();
            let g = next.files.last();
            let b = next.sink.stream().bytes;
            &&& extra_data_flaw(f.extra_field) is Some ==> r is Err && next == w
            &&& r is Ok ==> {
                &&& r->Ok_0 == g.data_start == next.start
                &&& g.data_start == f.data_start + f.extra_field.len()
                &&& g == (FileRecord { data_start: g.data_start, ..f })
                &&& next.files.drop_last() == w.files.drop_last()
                &&& stands_at(b, f.data_start as int, f.extra_field)
                &&& u16_at(b, f.header_start + 28) == f.extra_field.len()
                &&& !next.writing_to_extra_field
                &&& next.writing_to_file == w.writing_to_file
                &&& next.comment == w.comment
            }
        }),
{
    let (next, r) = w.streamed_extra_ended();
    let f = w.files.last();
    let s = w.sink.stream();
    if r is Ok {
        let t = s.written(f.extra_field);
        overlay_facts(s.bytes, s.pos as int, f.extra_field);
        overlay_facts(t.bytes, f.header_start + 28, u16_bytes(f.local_extra_len()));
        let b = next.sink.stream().bytes;
        assert(b.subrange(f.data_start as int, f.data_start + f.extra_field.len())
            =~= f.extra_field);
        u16_at_of_bytes(b, f.header_start + 28, f.local_extra_len());
        assert(next.files.drop_last() =~= w.files.drop_last());
    }
}

/// An archive that is made readable right after it was written has the entries and the comment of
/// the writer, and starts where its first entry does.
pub proof fn readable_says(w: WriterState, directory_start: u64)
    requires
        w.files.len() > 0,
    ensures
        readable(w, directory_start).files == w.files,
        readable(w, directory_start).comment == w.comment,
        readable(w, directory_start).directory_start == directory_start,
        readable(w, directory_start).offset == w.files[0].header_start,
{
}

/// The local header of an entry that begins stands in the stream, where the entry says that it
/// does, and contents start right after it.
pub proof fn streamed_header_stands(w: WriterState, name: Seq<char>, options: FileOptions)
    requires
        w.streamed_entry(name, options).1 is Ok,
        w.streamed_finished().0.streaming(),
        w.streamed_entry(name, options).0.streaming(),
    ensures
        ({
            let next = w.streamed_entry(name, options).0;
            let f = next.files.last();
            &&& stands_at(next.sink.stream().bytes, f.header_start as int, f.local_header())
            &&& f.data_start == f.header_start + f.local_header().len()
            &&& next.sink.stream().pos == f.data_start
            &&& next.start == f.data_start
        }),
{
    let s = w.streamed_finished().0.sink.stream();
    let f = new_entry(name, options, no_raw_values(), s.pos as u64);
    let g = w.streamed_entry(name, options).0.files.last();
    overlay_facts(s.bytes, s.pos as int, f.local_header());
    reveal(FileRecord::local_header);
    reveal(FileRecord::local_fixed);
    assert(g.local_header() =~= f.local_header());
}

/// Once the extra data of the local header is ended and that of the central header begins, the
/// entry has none for the central header. What is written then is contents.
pub proof fn streamed_central_extra_data_begins(w: WriterState)
    requires
        w.streaming(),
        w.in_local_extra(),
        w.streamed_extra_ended().0.streaming(),
        w.streamed_local_extra_ended().1 is Ok,
    ensures
        ({
            let next = w.streamed_local_extra_ended().0;
            let f = w.files.last();
            let g = next.files.last();
            &&& w.streamed_local_extra_ended().1->Ok_0 == g.data_start
            &&& g.extra_field.len() == 0
            &&& g.file_name == f.file_name
            &&& g.unix_mode() == f.unix_mode()
            &&& g.data_start == f.data_start + f.extra_field.len()
            &&& stands_at(next.sink.stream().bytes, f.data_start as int, f.extra_field)
            &&& next.writing_to_extra_field && !next.in_local_extra()
            &&& next.writing_to_file == w.writing_to_file
            &&& next.comment == w.comment
        }),
{
    streamed_extra_data_says(w);
}

/// A file that is aligned has its contents start at a multiple of what was asked for. What is
/// returned is how much further along they start than they would otherwise, and that is as little
/// as it can be: nothing, or what a record of extra data takes and less than the alignment.
pub proof fn streamed_aligned_file_says(
    w: WriterState,
    name: Seq<char>,
    options: FileOptions,
    align: u16,
)
    requires
        w.streaming(),
        w.streamed_aligned(name, as_file(options), align).1 is Ok,
        ({
            let begun = w.streamed_extra_started(name, as_file(options)).0;
            let filled = begun.streamed_data(padding(begun.start as int, align as int)).0;
            &&& begun.streaming()
            &&& begun.streamed_extra_ended().0.streaming()
            &&& filled.streaming()
            &&& filled.streamed_extra_ended().0.streaming()
        }),
    ensures
        ({
            let next = w.streamed_aligned(name, as_file(options), align).0;
            let padded = w.streamed_aligned(name, as_file(options), align).1->Ok_0;
            let unpadded = w.streamed_extra_started(name, as_file(options)).1->Ok_0;
            let f = next.files.last();
            &&& w.streamed_extra_started(name, as_file(options)).1 is Ok
            &&& f.data_start == unpadded + padded
            &&& f.data_start == next.start
            &&& align > 1 ==> f.data_start as int % align as int == 0
            &&& align <= 1 || unpadded as int % align as int == 0 ==> padded == 0
            &&& padded > 0 ==> 4 <= padded < align + 4
            &&& f.file_name == name
            &&& f.compression_method == options.compression_method
            &&& f.last_modified_time == options.last_modified_time@
            &&& f.extra_field.len() == 0
            &&& options.permissions matches Some(mode) ==> mode <= 0xffff ==> f.unix_mode() == Some(
                mode | 0o100000,
            )
            &&& options.permissions is None ==> f.unix_mode() == Some(0o100644u32)
            &&& next.comment == w.comment
            &&& next.writing_to_file && !next.writing_to_extra_field
        }),
{
    streamed_file_says(w, name, options, true);
    streamed_entry_says(w, name, as_file(options));
    let begun = w.streamed_extra_started(name, as_file(options)).0;
    let start = begun.files.last().data_start;
    if align > 1 && start as int % align as int != 0 {
        padding_aligns(start as int, align as int);
        let pad = padding(start as int, align as int);
        let filled = begun.streamed_data(pad).0;
        assert(Seq::<u8>::empty() + pad =~= pad);
        assert(filled.files.last().extra_field =~= pad);
        streamed_extra_data_says(filled);
    } else {
        streamed_extra_data_says(begun);
    }
}

} // verus!
