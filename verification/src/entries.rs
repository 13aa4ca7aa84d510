//! What an entry says is what was asked for when it was made.
use vstd::prelude::*;

use crate::bytes::{stands_at, u16_at, u16_at_of_bytes, u16_bytes, u32_at, u64_at};
use crate::codec::can_unpack;
use crate::compression::{code_of_method, CompressionMethod};
use crate::crc32::crc32_of;
use crate::encoder::Given;
use crate::header::extra_data_flaw;
use crate::keeping::{
    contents_ended_found, data_written_keeps, file_started_faithful, finished_archive_reads_back,
    finished_keeps, raw_copied_found, stored_before, stored_before_is_read,
};
use crate::layout::completed_local_header_tells;
use crate::read::{
    archive_of, archive_times_are_even, contents_of, named_facts, stored_bytes, ArchiveRecord,
};
use crate::result::ZipError;
use crate::roundtrip::{navigable, reread_all, rereadable};
use crate::sink::{packing_for, packing_goes_on, packing_keeps, Sink};
use crate::stream::{overlay_facts, StreamState};
use crate::types::{unix_mode_of, FileRecord, System};
use crate::write::{
    copies, directory_name, new_entry, no_raw_values, normalized, padding, padding_aligns,
    raw_values_of, typed, FileOptions, WriterState, ZipRawValues,
};

verus! {

broadcast use crate::bytes::group_byte_lengths;

/// A mode of sixteen bits that is put into the upper half of the attributes of a unix file is the
/// mode of that file.
pub proof fn mode_is_told(mode: u32)
    requires
        mode <= 0xffff,
    ensures
        unix_mode_of(System::Unix, mode << 16) == Some(mode),
{
    assert((mode << 16) >> 16 == mode) by (bit_vector)
        requires
            mode <= 0xffff,
    ;
}

/// Bits of permissions and the type of a file do not get into each other's way.
pub proof fn mode_bits(mode: u32)
    ensures
        mode <= 0xffff ==> mode | 0o100000 <= 0xffff && mode | 0o40000 <= 0xffff && mode | 0o120000
            <= 0xffff,
        mode <= 0o777 ==> (mode | 0o100000) & 0o777 == mode && (mode | 0o40000) & 0o777 == mode && (
        mode | 0o120000) & 0o777 == mode,
        mode <= 0o777 ==> (mode | 0o100000) & 0o170000 == 0o100000 && (mode | 0o40000) & 0o170000
            == 0o40000 && (mode | 0o120000) & 0o170000 == 0o120000,
        mode & 0o777 <= 0o777,
        0o644u32 | 0o100000 == 0o100644,
        0o755u32 | 0o40000 == 0o40755,
        0o777u32 | 0o120000 == 0o120777,
{
    assert(mode <= 0xffff ==> mode | 0o100000 <= 0xffff && mode | 0o40000 <= 0xffff && mode
        | 0o120000 <= 0xffff) by (bit_vector);
    assert(mode <= 0o777 ==> (mode | 0o100000) & 0o777 == mode && (mode | 0o40000) & 0o777 == mode
        && (mode | 0o120000) & 0o777 == mode) by (bit_vector);
    assert(mode <= 0o777 ==> (mode | 0o100000) & 0o170000 == 0o100000 && (mode | 0o40000)
        & 0o170000 == 0o40000 && (mode | 0o120000) & 0o170000 == 0o120000) by (bit_vector);
    assert(mode & 0o777 <= 0o777) by (bit_vector);
    assert(0o644u32 | 0o100000 == 0o100644 && 0o755u32 | 0o40000 == 0o40755 && 0o777u32 | 0o120000
        == 0o120777) by (bit_vector);
}

/// An entry that begins comes after the others, which it leaves as they are. It has the name, the
/// way to store contents and the time that were given, and its mode is the one of the options.
/// Nothing else is said of it yet but what came with it. The comment of the archive stays.
pub proof fn begun_entry_says(
    w: WriterState,
    name: Seq<char>,
    options: FileOptions,
    raw: ZipRawValues,
)
    requires
        w.entry_begun(name, options, raw).1 is Ok,
    ensures
        ({
            let ended = w.finished().0;
            let next = w.entry_begun(name, options, raw).0;
            let f = next.files.last();
            &&& w.finished().1 is Ok
            &&& next.files.len() == ended.files.len() + 1
            &&& next.files.drop_last() == ended.files
            &&& !ended.names.contains_key(name)
            &&& next.names == ended.names.insert(name, ended.files.len() as usize)
            &&& next.comment == w.comment
            &&& next.contents.len() == 0
            &&& f.file_name == name
            &&& f.compression_method == options.compression_method
            &&& f.compression_level == options.compression_level
            &&& f.last_modified_time == options.last_modified_time@
            &&& f.large_file == options.large_file
            &&& f.system == System::Unix
            &&& f.version_made_by == 46
            &&& options.permissions matches Some(mode) ==> mode <= 0xffff ==> f.unix_mode() == Some(
                mode,
            )
            &&& options.permissions is None ==> f.unix_mode() == Some(0o100644u32)
            &&& f.crc32 == raw.crc32
            &&& f.compressed_size == raw.compressed_size
            &&& f.uncompressed_size == raw.uncompressed_size
            &&& !f.encrypted && f.aes_mode is None && !f.using_data_descriptor
            &&& f.extra_field.len() == 0
            &&& f.file_comment.len() == 0
            &&& f.header_start == ended.sink.stream().pos as u64
        }),
{
    let ended = w.finished().0;
    let next = w.entry_begun(name, options, raw).0;
    assert(next.files.drop_last() =~= ended.files);
    if let Some(mode) = options.permissions {
        if mode <= 0xffff {
            mode_is_told(mode);
        }
    } else {
        mode_is_told(0o100644);
    }
    ended_comment(w);
}

/// The end of an entry leaves the comment of the archive as it is.
pub proof fn ended_comment(w: WriterState)
    ensures
        w.finished().0.comment == w.comment,
        w.past_extra().comment == w.comment,
        w.contents_ended().0.comment == w.comment,
{
}

/// A file that is started is the last entry, with the name, the way to store contents, the time
/// and the permissions that were asked for: it is a regular file, and one that its owner can write
/// and all can read where no permissions were asked for.
pub proof fn started_file_says(
    w: WriterState,
    name: Seq<char>,
    options: FileOptions,
    made: FileOptions,
)
    requires
        normalized(options, made),
        w.file_started(name, made).1 is Ok,
    ensures
        ({
            let ended = w.finished().0;
            let next = w.file_started(name, made).0;
            let f = next.files.last();
            &&& next.files.len() == ended.files.len() + 1
            &&& next.files.drop_last() == ended.files
            &&& !ended.names.contains_key(name)
            &&& next.names == ended.names.insert(name, ended.files.len() as usize)
            &&& next.comment == w.comment
            &&& next.contents.len() == 0
            &&& next.writing_to_file && !next.writing_to_extra_field
            &&& f.file_name == name
            &&& f.compression_method == options.compression_method
            &&& f.compression_level == options.compression_level
            &&& f.large_file == options.large_file
            &&& options.last_modified_time@.in_bounds() ==> f.last_modified_time
                == options.last_modified_time@
            &&& f.last_modified_time.in_bounds()
            &&& options.permissions matches Some(mode) ==> mode <= 0xffff ==> f.unix_mode() == Some(
                mode | 0o100000,
            )
            &&& options.permissions is None ==> f.unix_mode() == Some(0o100644u32)
        }),
{
    begun_entry_says(w, name, made, no_raw_values());
    if let Some(mode) = options.permissions {
        mode_bits(mode);
    } else {
        mode_bits(0o644);
    }
}

/// An entry that is made the copy of another has the name that was asked for, and the permissions,
/// the time, the sizes, the checksum and the way to store contents of the other. It is a regular
/// file.
pub proof fn raw_copy_says(
    w: WriterState,
    f: FileRecord,
    name: Seq<char>,
    made: FileOptions,
    packed: Seq<u8>,
)
    requires
        copies(f, made),
        w.raw_copied(name, made, raw_values_of(f), packed).1 is Ok,
    ensures
        ({
            let ended = w.finished().0;
            let next = w.raw_copied(name, made, raw_values_of(f), packed).0;
            let g = next.files.last();
            &&& next.files.len() == ended.files.len() + 1
            &&& next.files.drop_last() == ended.files
            &&& !ended.names.contains_key(name)
            &&& next.names == ended.names.insert(name, ended.files.len() as usize)
            &&& next.comment == w.comment
            &&& g.file_name == name
            &&& g.crc32 == f.crc32
            &&& g.compressed_size == f.compressed_size
            &&& g.uncompressed_size == f.uncompressed_size
            &&& g.compression_method == f.compression_method
            &&& g.large_file == (f.compressed_size > 0xffff_ffff || f.uncompressed_size
                > 0xffff_ffff)
            &&& f.last_modified_time.in_bounds() ==> g.last_modified_time == f.last_modified_time
            &&& f.unix_mode() matches Some(mode) ==> (g.unix_mode() matches Some(copied) && copied
                & 0o777 == mode & 0o777 && copied & 0o170000 == 0o100000)
            &&& f.unix_mode() is None ==> g.unix_mode() == Some(0o100644u32)
        }),
{
    let raw = raw_values_of(f);
    begun_entry_says(w, name, made, raw);
    if let Some(mode) = f.unix_mode() {
        mode_bits(mode);
        mode_bits(mode & 0o777);
    } else {
        mode_bits(0o644);
    }
}

/// A file that is copied within an archive, with its contents, is there twice: under its own name
/// as it was, and under the other with the same permissions, time, sizes, checksum and way to
/// store contents, and with the same bytes stored for it.
pub proof fn deep_copy_says(w: WriterState, src: Seq<char>, dest: Seq<char>, made: FileOptions)
    requires
        w.wf(),
        w.past_extra().wf(),
        w.finished().0.wf(),
        ({
            let ended = w.finished().0;
            let f = ended.files[ended.names[src] as int];
            let copied = ended.raw_copied(
                dest,
                made,
                raw_values_of(f),
                stored_bytes(ended.sink.stream().bytes, f)->Ok_0,
            );
            &&& copies(f, made)
            &&& ended.entry_begun(dest, made, raw_values_of(f)).0.wf()
            &&& copied.0.wf()
            &&& ended.past_extra().wf()
            &&& ended.finished().0.wf()
            &&& stored_bytes(ended.sink.stream().bytes, f) matches Ok(packed) ==> packed.len()
                <= usize::MAX
        }),
        w.deep_copied(src, dest, made).1 is Ok,
    ensures
        ({
            let ended = w.finished().0;
            let next = w.deep_copied(src, dest, made).0;
            let i = ended.names[src] as int;
            let f = ended.files[i];
            let last = ended.files.len() as int;
            let g = next.files[last];
            &&& w.finished().1 is Ok
            &&& ended.names.contains_key(src)
            &&& f.file_name == src
            &&& next.files.len() == last + 1
            &&& next.files.drop_last() == ended.files
            &&& !ended.names.contains_key(dest)
            &&& next.names == ended.names.insert(dest, ended.files.len() as usize)
            &&& next.comment == w.comment
            &&& g.file_name == dest
            &&& g.crc32 == f.crc32
            &&& g.compressed_size == f.compressed_size
            &&& g.uncompressed_size == f.uncompressed_size
            &&& g.compression_method == f.compression_method
            &&& g.large_file == (f.compressed_size > 0xffff_ffff || f.uncompressed_size
                > 0xffff_ffff)
            &&& f.last_modified_time.in_bounds() ==> g.last_modified_time == f.last_modified_time
            &&& f.unix_mode() matches Some(mode) ==> (g.unix_mode() matches Some(copied) && copied
                & 0o777 == mode & 0o777 && copied & 0o170000 == 0o100000)
            &&& f.unix_mode() is None ==> g.unix_mode() == Some(0o100644u32)
            &&& ended.stored(i) is Some && vstd::utf8::encode_utf8(dest).len() <= 0xffff
                ==> next.stored(last) == ended.stored(i) && next.stored(i) == ended.stored(i)
        }),
{
    let ended = w.finished().0;
    let i = ended.names[src] as int;
    let f = ended.files[i];
    let packed = stored_bytes(ended.sink.stream().bytes, f)->Ok_0;
    let raw = raw_values_of(f);
    ended_comment(w);
    ended_twice(w);
    assert(ended.names.contains_key(src));
    raw_copy_says(ended, f, dest, made, packed);
    let copied = ended.raw_copied(dest, made, raw, packed).0;
    let next = w.deep_copied(src, dest, made).0;
    assert(next.files == copied.files);
    if ended.stored(i) is Some && vstd::utf8::encode_utf8(dest).len() <= 0xffff {
        stored_before_is_read(ended.sink.stream().bytes, ended.floor(), f);
        raw_copied_found(ended, dest, made, raw, packed);
        finished_keeps(copied);
        assert(copied.past_extra() == copied);
        assert(copied.stored(ended.files.len() as int) == Some(packed));
        assert(ended.stored(i) == Some(packed));
        assert(copied.stored(i) == ended.stored(i));
    }
}

/// To end an entry twice is to end it once.
pub proof fn ended_twice(w: WriterState)
    requires
        w.finished().1 is Ok,
    ensures
        w.finished().0.finished() == (w.finished().0, Ok::<(), ZipError>(())),
{
    let ended = w.finished().0;
    assert(ended.finished().0 =~= ended);
}

/// A directory that is added has a name that ends with a slash: the one that was given, or that
/// with a slash after it. Its mode says that it is a directory, with the permissions that were
/// asked for, or one that its owner can write and all can enter. It is stored as it is.
pub proof fn added_directory_says(w: WriterState, name: Seq<char>, options: FileOptions)
    requires
        w.directory_added(name, options).1 is Ok,
    ensures
        ({
            let ended = w.finished().0;
            let next = w.directory_added(name, options).0;
            let f = next.files.last();
            &&& next.files.len() == ended.files.len() + 1
            &&& next.files.drop_last() == ended.files
            &&& next.comment == w.comment
            &&& f.file_name.len() > 0
            &&& f.file_name.last() == '/' || f.file_name.last() == '\\'
            &&& name.is_prefix_of(f.file_name)
            &&& name.len() > 0 && (name.last() == '/' || name.last() == '\\') ==> f.file_name == name
            &&& name.len() == 0 || (name.last() != '/' && name.last() != '\\') ==> f.file_name
                == name.push('/')
            &&& f.compression_method == CompressionMethod::Stored
            &&& f.last_modified_time == options.last_modified_time@
            &&& options.permissions matches Some(mode) ==> mode <= 0o777 ==> (
            f.unix_mode() matches Some(made) && made & 0o777 == mode && made & 0o170000 == 0o40000)
            &&& options.permissions is None ==> f.unix_mode() == Some(0o40755u32)
            &&& f.crc32 == 0 && f.compressed_size == 0 && f.uncompressed_size == 0
            &&& !next.writing_to_file || w.writing_to_file
        }),
{
    let made = typed(options, 0o755, 0o40000);
    begun_entry_says(w, directory_name(name), made, no_raw_values());
    if let Some(mode) = options.permissions {
        mode_bits(mode);
    } else {
        mode_bits(0o755);
    }
}

/// A symbolic link that is added is an entry whose mode says so, with the permissions that were
/// asked for or else all of them. Its contents are its target, stored as it is.
pub proof fn added_symlink_says(
    w: WriterState,
    name: Seq<char>,
    target: Seq<u8>,
    options: FileOptions,
)
    requires
        w.symlink_added(name, target, options).1 is Ok,
        w.entry_begun(name, typed(options, 0o777, 0o120000), no_raw_values()).0.wf(),
        target.len() <= usize::MAX,
    ensures
        ({
            let ended = w.finished().0;
            let next = w.symlink_added(name, target, options).0;
            let f = next.files.last();
            &&& next.files.len() == ended.files.len() + 1
            &&& next.files.drop_last() == ended.files
            &&& next.comment == w.comment
            &&& f.file_name == name
            &&& f.compression_method == CompressionMethod::Stored
            &&& f.last_modified_time == options.last_modified_time@
            &&& options.permissions matches Some(mode) ==> mode <= 0o777 ==> (
            f.unix_mode() matches Some(made) && made & 0o777 == mode && made & 0o170000
                == 0o120000)
            &&& options.permissions is None ==> f.unix_mode() == Some(0o120777u32)
            &&& next.contents == target
            &&& next.sink is Plain
            &&& stands_at(next.sink.stream().bytes, f.data_start as int, target)
            &&& !next.writing_to_file
        }),
{
    let made = typed(options, 0o777, 0o120000);
    begun_entry_says(w, name, made, no_raw_values());
    if let Some(mode) = options.permissions {
        mode_bits(mode);
    } else {
        mode_bits(0o777);
    }
    let begun = w.entry_begun(name, made, no_raw_values()).0;
    let next = w.symlink_added(name, target, options).0;
    let s = begun.sink.stream();
    overlay_facts(s.bytes, s.pos as int, target);
    assert(Seq::<u8>::empty() + target =~= target);
}

/// A file that is copied within an archive, without its contents, is there twice: under its own
/// name as it was, and under the other with all else the same.
pub proof fn shallow_copy_says(w: WriterState, src: Seq<char>, dest: Seq<char>)
    requires
        w.finished().0.wf(),
    ensures
        ({
            let (ended, r) = w.finished();
            let (next, copied) = w.shallow_copied(src, dest);
            let f = ended.files[ended.names[src] as int];
            let g = next.files.last();
            &&& r is Ok && !ended.names.contains_key(src) ==> copied == Err::<(), ZipError>(
                ZipError::FileNotFound,
            )
            &&& r is Ok && ended.names.contains_key(src) ==> (copied is Ok
                <==> !ended.names.contains_key(dest))
            &&& copied is Err ==> next == ended
            &&& copied is Ok ==> {
                &&& f.file_name == src
                &&& next.files.drop_last() == ended.files
                &&& next.files.len() == ended.files.len() + 1
                &&& next.names == ended.names.insert(dest, ended.files.len() as usize)
                &&& next.comment == w.comment
                &&& g.file_name == dest
                &&& g.unix_mode() == f.unix_mode()
                &&& g.last_modified_time == f.last_modified_time
                &&& g.crc32 == f.crc32
                &&& g.compressed_size == f.compressed_size
                &&& g.uncompressed_size == f.uncompressed_size
                &&& g.compression_method == f.compression_method
                &&& g.header_start == f.header_start
                &&& g.extra_field == f.extra_field
                &&& g.large_file == f.large_file
                &&& g.encrypted == f.encrypted
                &&& next.sink == ended.sink
            }
        }),
{
    ended_comment(w);
    let ended = w.finished().0;
    let next = w.shallow_copied(src, dest).0;
    if w.shallow_copied(src, dest).1 is Ok {
        assert(next.files.drop_last() =~= ended.files);
        assert(ended.names.contains_key(src));
    }
}

/// To remove the last entry leaves those before it and the comment. Its name is free again, and no
/// other is, and what comes next is written where it began.
pub proof fn aborted_entry_is_gone(w: WriterState)
    requires
        w.sound(),
        w.files.len() > 0,
        !(w.sink is Closed),
    ensures
        ({
            let next = w.aborted();
            let f = w.files.last();
            &&& next.files == w.files.drop_last()
            &&& !next.names.contains_key(f.file_name)
            &&& forall|name: Seq<char>|
                name != f.file_name ==> #[trigger] next.names.contains_key(name)
                    == w.names.contains_key(name)
            &&& forall|name: Seq<char>|
                next.names.contains_key(name) ==> #[trigger] next.names[name] == w.names[name]
            &&& next.comment == w.comment
            &&& next.sink is Plain
            &&& next.sink.stream().pos == f.header_start
            &&& !next.writing_to_file && !next.writing_to_extra_field
            &&& next.endable()
            &&& next.finished() == (next, Ok::<(), ZipError>(()))
            &&& forall|options: FileOptions, raw: ZipRawValues| #[trigger]
                next.entry_begun(f.file_name, options, raw).1 is Ok
        }),
{
    let next = w.aborted();
    assert(next.finished().0 =~= next);
}

/// What an archive that is finished tells of its entries is what the writer knew of them: there
/// are as many, in the same order, each with its name, its mode, its time to the even second, its
/// sizes, its checksum, its way to store contents and its extra data. The comment of the archive
/// is the one that the writer had.
///
/// Each entry must be one that can be read back from its central header, and the end of the
/// archive must be found where it is.
pub proof fn finished_archive_says(w: WriterState)
    requires
        w.wf(),
        w.past_extra().wf(),
        w.finished().0.wf(),
        w.finalized().0.wf(),
        w.finalized().1 is Ok,
        forall|k: int|
            0 <= k < w.finished().0.files.len() ==> rereadable(
                #[trigger] w.finished().0.files[k],
                false,
            ),
        navigable(
            w.finalized().0.sink.stream().bytes,
            w.finished().0.files,
            w.finished().0.sink.stream().pos,
            w.comment,
        ),
    ensures
        ({
            let ended = w.finished().0;
            let b = w.finalized().0.sink.stream().bytes;
            let read = archive_of(b, true)->Ok_0;
            &&& archive_of(b, true) is Ok
            &&& read.comment == w.comment
            &&& read.offset == 0
            &&& read.files.len() == ended.files.len()
            &&& forall|k: int|
                #![trigger read.files[k]]
                #![trigger ended.files[k]]
                0 <= k < ended.files.len() ==> {
                    let f = ended.files[k];
                    let g = read.files[k];
                    &&& g.file_name == f.file_name
                    &&& f.system is Unix || f.system is Dos ==> g.system == f.system
                        && g.unix_mode() == f.unix_mode()
                    &&& g.external_attributes == f.external_attributes
                    &&& g.version_made_by == f.version_made_by
                    &&& g.last_modified_time.year == f.last_modified_time.year
                    &&& g.last_modified_time.month == f.last_modified_time.month
                    &&& g.last_modified_time.day == f.last_modified_time.day
                    &&& g.last_modified_time.hour == f.last_modified_time.hour
                    &&& g.last_modified_time.minute == f.last_modified_time.minute
                    &&& g.last_modified_time.second == f.last_modified_time.second
                        - f.last_modified_time.second % 2
                    &&& g.crc32 == f.crc32
                    &&& g.compressed_size == f.compressed_size
                    &&& g.uncompressed_size == f.uncompressed_size
                    &&& g.header_start == f.header_start
                    &&& g.compression_method.code() == f.compression_method.code()
                    &&& can_unpack(f.compression_method) ==> g.compression_method
                        == f.compression_method
                    &&& f.extra_field.len() <= g.extra_field.len()
                    &&& g.extra_field.skip(g.extra_field.len() - f.extra_field.len())
                        == f.extra_field
                    &&& f.compressed_size <= 0xffff_ffff && f.uncompressed_size <= 0xffff_ffff
                        && f.header_start <= 0xffff_ffff ==> g.extra_field == f.extra_field
                    &&& !g.encrypted && g.aes_mode is None && !g.using_data_descriptor
                }
        }),
{
    finished_archive_reads_back(w);
    let ended = w.finished().0;
    let b = w.finalized().0.sink.stream().bytes;
    let start = ended.sink.stream().pos as int;
    let read = archive_of(b, true)->Ok_0;
    assert(read.files == reread_all(ended.files, start, false));
    assert forall|k: int|
        #![trigger read.files[k]]
        #![trigger ended.files[k]]
        0 <= k < ended.files.len() implies {
        let f = ended.files[k];
        let g = read.files[k];
        &&& g.compression_method.code() == f.compression_method.code()
        &&& can_unpack(f.compression_method) ==> g.compression_method == f.compression_method
        &&& f.extra_field.len() <= g.extra_field.len()
        &&& g.extra_field.skip(g.extra_field.len() - f.extra_field.len()) == f.extra_field
        &&& f.compressed_size <= 0xffff_ffff && f.uncompressed_size <= 0xffff_ffff
            && f.header_start <= 0xffff_ffff ==> g.extra_field == f.extra_field
        &&& f.system is Unix || f.system is Dos ==> g.system == f.system
        &&& g.external_attributes == f.external_attributes
        &&& g.version_made_by == f.version_made_by
        &&& g.header_start == f.header_start
        &&& !g.encrypted && g.aes_mode is None && !g.using_data_descriptor
    } by {
        let f = ended.files[k];
        let g = read.files[k];
        assert(rereadable(f, false));
        code_of_method(f.compression_method.code());
        assert(g.extra_field.skip(g.extra_field.len() - f.extra_field.len()) =~= f.extra_field);
        if f.compressed_size <= 0xffff_ffff && f.uncompressed_size <= 0xffff_ffff && f.header_start
            <= 0xffff_ffff {
            reveal(FileRecord::central_zip64);
            assert(g.extra_field =~= f.extra_field);
        }
    }
}

/// An archive to which more is to be added has its entries, its bytes and its comment as they were
/// read. What comes next is written where its central headers start.
pub proof fn appended_archive_says(stream: StreamState, archive: ArchiveRecord)
    requires
        archive_of(stream.bytes, true) == Ok::<ArchiveRecord, ZipError>(archive),
        archive.files.len() <= usize::MAX,
    ensures
        ({
            let w = WriterState::appended(stream, archive);
            &&& w.comment == archive.comment
            &&& w.files == archive.files
            &&& forall|i: int|
                0 <= i < archive.files.len() ==> w.names.contains_key(
                    (#[trigger] archive.files[i]).file_name,
                )
            &&& forall|name: Seq<char>| #[trigger]
                w.names.contains_key(name) ==> w.names[name] < archive.files.len()
                    && archive.files[w.names[name] as int].file_name == name
            &&& w.sink is Plain
            &&& w.sink.stream().bytes == stream.bytes
            &&& w.sink.stream().pos == archive.directory_start
            &&& !w.writing_to_file
            &&& !w.open()
            &&& w.endable() && w.on_course()
            &&& w.finished() == (w, Ok::<(), ZipError>(()))
            &&& forall|i: int|
                0 <= i < archive.files.len() ==> #[trigger] w.stored(i) == stored_before(
                    stream.bytes,
                    archive.directory_start as int,
                    archive.files[i],
                )
        }),
{
    named_facts(archive.files);
    let w = WriterState::appended(stream, archive);
    assert(w.finished().0 =~= w);
}

/// An archive that is opened to add to it, and finished at once, is read with the same entries and
/// with the same comment.
pub proof fn appended_and_finished_says(stream: StreamState, archive: ArchiveRecord)
    requires
        archive_of(stream.bytes, true) == Ok::<ArchiveRecord, ZipError>(archive),
        WriterState::appended(stream, archive).wf(),
        WriterState::appended(stream, archive).finalized().0.wf(),
        forall|k: int|
            0 <= k < archive.files.len() ==> rereadable(#[trigger] archive.files[k], false),
        navigable(
            WriterState::appended(stream, archive).finalized().0.sink.stream().bytes,
            archive.files,
            archive.directory_start as nat,
            archive.comment,
        ),
    ensures
        ({
            let b = WriterState::appended(stream, archive).finalized().0.sink.stream().bytes;
            let read = archive_of(b, true)->Ok_0;
            &&& WriterState::appended(stream, archive).finalized().1 is Ok
            &&& archive_of(b, true) is Ok
            &&& read.comment == archive.comment
            &&& read.files.len() == archive.files.len()
            &&& forall|k: int|
                #![trigger read.files[k]]
                #![trigger archive.files[k]]
                0 <= k < archive.files.len() ==> {
                    let f = archive.files[k];
                    let g = read.files[k];
                    &&& g.file_name == f.file_name
                    &&& f.system is Unix || f.system is Dos ==> g.unix_mode() == f.unix_mode()
                    &&& g.last_modified_time == f.last_modified_time
                    &&& g.crc32 == f.crc32
                    &&& g.compressed_size == f.compressed_size
                    &&& g.uncompressed_size == f.uncompressed_size
                    &&& g.header_start == f.header_start
                    &&& g.compression_method.code() == f.compression_method.code()
                    &&& stored_before(stream.bytes, archive.directory_start as int, f) matches Some(
                        packed,
                    ) ==> stored_bytes(b, g) == Ok::<Seq<u8>, ZipError>(packed)
                }
        }),
{
    let w = WriterState::appended(stream, archive);
    appended_archive_says(stream, archive);
    finished_archive_says(w);
    finished_archive_reads_back(w);
    archive_times_are_even(stream.bytes, true);
    let b = w.finalized().0.sink.stream().bytes;
    let read = archive_of(b, true)->Ok_0;
    assert forall|k: int|
        #![trigger read.files[k]]
        #![trigger archive.files[k]]
        0 <= k < archive.files.len() implies {
        let f = archive.files[k];
        let g = read.files[k];
        &&& g.last_modified_time == f.last_modified_time
        &&& stored_before(stream.bytes, archive.directory_start as int, f) matches Some(
            packed,
        ) ==> stored_bytes(b, g) == Ok::<Seq<u8>, ZipError>(packed)
    } by {
        assert(w.files[k] == archive.files[k]);
        assert(archive.files[k].last_modified_time.second % 2 == 0);
        let at = w.stored(k);
    }
}

/// Once the extra data of the local header is ended, it stands in the local header, right before
/// where contents start, and the header tells its length; the entry keeps it for the central
/// header. Extra data that is not well-formed, or a level of compression that there is not, removes
/// the entry.
pub proof fn ended_extra_data_says(w: WriterState)
    requires
        w.wf(),
        w.in_local_extra(),
        w.extra_data_ended().0.wf(),
    ensures
        ({
            let (next, r) = w.extra_data_ended();
            let f = w.files.last();
            let g = next.files.last();
            let b = next.sink.stream().bytes;
            &&& r is Ok <==> extra_data_flaw(f.extra_field) is None && packing_for(
                f.compression_method,
                f.compression_level,
            ) is Ok
            &&& r is Err ==> next.files == w.files.drop_last() && !next.names.contains_key(
                f.file_name,
            )
            &&& r is Ok ==> {
                &&& r->Ok_0 == g.data_start == next.start
                &&& g.data_start == f.data_start + f.extra_field.len()
                &&& g == (FileRecord { data_start: g.data_start, ..f })
                &&& next.files.drop_last() == w.files.drop_last()
                &&& stands_at(b, f.data_start as int, f.extra_field)
                &&& u16_at(b, f.header_start + 28) == (f.extra_field.len() + if f.large_file {
                    20int
                } else {
                    0
                }) % 0x1_0000
                &&& !next.writing_to_extra_field
                &&& next.writing_to_file == w.writing_to_file
                &&& next.comment == w.comment
            }
        }),
{
    let (next, r) = w.extra_data_ended();
    let f = w.files.last();
    let s = w.sink.stream();
    if r is Ok {
        let t = s.written(f.extra_field);
        overlay_facts(s.bytes, s.pos as int, f.extra_field);
        overlay_facts(t.bytes, f.header_start + 28, u16_bytes(f.local_extra_len()));
        let b = next.sink.stream().bytes;
        assert(b.subrange(f.data_start as int, f.data_start + f.extra_field.len())
            =~= f.extra_field);
        u16_at_of_bytes(b, f.header_start + 28, f.local_extra_len());
        assert(next.files.drop_last() =~= w.files.drop_last());
    }
}

/// Once the extra data of the local header is ended and that of the central header begins, the
/// entry has none for the central header yet.
pub proof fn central_extra_data_begins(w: WriterState)
    requires
        w.wf(),
        w.in_local_extra(),
        w.extra_data_ended().0.wf(),
        w.local_extra_ended().1 is Ok,
    ensures
        ({
            let next = w.local_extra_ended().0;
            let f = w.files.last();
            let g = next.files.last();
            let b = next.sink.stream().bytes;
            &&& w.local_extra_ended().1->Ok_0 == g.data_start
            &&& g.extra_field.len() == 0
            &&& g.file_name == f.file_name
            &&& g.unix_mode() == f.unix_mode()
            &&& g.data_start == f.data_start + f.extra_field.len()
            &&& stands_at(b, f.data_start as int, f.extra_field)
            &&& next.writing_to_extra_field && !next.in_local_extra()
            &&& forall|data: Seq<u8>| #[trigger]
                next.data_written(data).0.files.last().extra_field == data
                    && next.data_written(data).0.contents == w.contents
        }),
{
    ended_extra_data_says(w);
    let next = w.local_extra_ended().0;
    assert forall|data: Seq<u8>| #[trigger]
        next.data_written(data).0.files.last().extra_field == data && next.data_written(
            data,
        ).0.contents == w.contents by {
        assert(Seq::<u8>::empty() + data =~= data);
    }
}

/// A file that is aligned has its contents start at a multiple of what was asked for. What is
/// returned is how much further along they start than they would if the file had been started with
/// extra data of which there is none, and that is as little as it can be: nothing, or what a
/// record of extra data takes and less than the alignment.
pub proof fn aligned_file_says(
    w: WriterState,
    name: Seq<char>,
    options: FileOptions,
    made: FileOptions,
    align: u16,
)
    requires
        w.wf(),
        normalized(options, made),
        w.aligned(name, made, align).1 is Ok,
        w.extra_data_started(name, made).0.wf(),
        ({
            let begun = w.extra_data_started(name, made).0;
            let pad = padding(begun.start as int, align as int);
            &&& begun.extra_data_ended().0.wf()
            &&& begun.data_written(pad).0.wf()
            &&& begun.data_written(pad).0.extra_data_ended().0.wf()
        }),
    ensures
        ({
            let next = w.aligned(name, made, align).0;
            let padded = w.aligned(name, made, align).1->Ok_0;
            let unpadded = w.extra_data_started(name, made).1->Ok_0;
            let f = next.files.last();
            &&& w.extra_data_started(name, made).1 is Ok
            &&& f.data_start == unpadded + padded
            &&& f.data_start == next.start
            &&& align > 1 ==> f.data_start as int % align as int == 0
            &&& align <= 1 || unpadded as int % align as int == 0 ==> padded == 0
            &&& padded > 0 ==> 4 <= padded < align + 4
            &&& f.file_name == name
            &&& f.compression_method == options.compression_method
            &&& f.extra_field.len() == 0
            &&& options.permissions matches Some(mode) ==> mode <= 0xffff ==> f.unix_mode() == Some(
                mode | 0o100000,
            )
            &&& options.permissions is None ==> f.unix_mode() == Some(0o100644u32)
            &&& options.last_modified_time@.in_bounds() ==> f.last_modified_time
                == options.last_modified_time@
            &&& next.comment == w.comment
            &&& next.writing_to_file && !next.writing_to_extra_field
        }),
{
    begun_entry_says(w, name, made, no_raw_values());
    if let Some(mode) = options.permissions {
        mode_bits(mode);
    } else {
        mode_bits(0o644);
    }
    let begun = w.extra_data_started(name, made).0;
    let start = begun.files.last().data_start;
    if align > 1 && start as int % align as int != 0 {
        padding_aligns(start as int, align as int);
        let pad = padding(start as int, align as int);
        let filled = begun.data_written(pad).0;
        assert(Seq::<u8>::empty() + pad =~= pad);
        assert(filled.files.last().extra_field =~= pad);
        ended_extra_data_says(filled);
    } else {
        ended_extra_data_says(begun);
    }
}

/// A new archive has no entries, no names and no comment, and what comes is written where the
/// stream stands.
pub proof fn fresh_archive_says(stream: StreamState)
    ensures
        ({
            let w = WriterState::fresh(stream);
            &&& w.files.len() == 0
            &&& forall|name: Seq<char>| !#[trigger] w.names.contains_key(name)
            &&& w.comment.len() == 0
            &&& w.sink == Sink::Plain(stream)
            &&& !w.writing_to_file
            &&& w.finished().1 is Ok
            &&& w.finished().0.files.len() == 0
            &&& w.finished().0.sink == Sink::Plain(stream)
        }),
{
}

/// A name that is taken is refused, and nothing changes but that the last entry is ended. A name
/// that is not taken is accepted.
pub proof fn taken_names_are_refused(
    w: WriterState,
    name: Seq<char>,
    options: FileOptions,
    raw: ZipRawValues,
)
    requires
        w.finished().1 is Ok,
    ensures
        w.finished().0.names.contains_key(name) ==> w.entry_begun(name, options, raw) == (
            w.finished().0,
            Err::<(), ZipError>(ZipError::InvalidArchive("Duplicate filename")),
        ),
        !w.finished().0.names.contains_key(name) ==> w.entry_begun(name, options, raw).1 is Ok,
{
}

/// What is written goes to the contents of the last entry, after what was written before; or, while
/// its extra data is written, to that. Nothing is taken where no file was started, or where the
/// archive is finished. An entry that turns out to be too large for what was allowed is removed.
pub proof fn data_goes_to_last_entry(w: WriterState, data: Seq<u8>)
    requires
        w.wf(),
        w.bytes_written + data.len() <= u64::MAX,
        data.len() <= usize::MAX,
    ensures
        ({
            let (next, r) = w.data_written(data);
            let f = w.files.last();
            let g = next.files.last();
            let too_large = w.bytes_written + data.len() > 0xffff_ffff && !f.large_file;
            &&& !w.writing_to_file ==> r is Err && next == w
            &&& w.sink is Closed ==> r is Err && next == w
            &&& r matches Ok(n) ==> n == data.len()
            &&& w.writing_to_file && w.writing_to_extra_field ==> {
                &&& r is Ok
                &&& g.extra_field == f.extra_field + data
                &&& g.file_name == f.file_name
                &&& g.unix_mode() == f.unix_mode()
                &&& next.contents == w.contents
                &&& next.sink == w.sink
                &&& next.files.drop_last() == w.files.drop_last()
            }
            &&& w.writing_to_file && !w.writing_to_extra_field ==> (r is Err <==> too_large)
            &&& w.writing_to_file && !w.writing_to_extra_field && r is Ok ==> {
                &&& next.contents == w.contents + data
                &&& next.bytes_written == w.bytes_written + data.len()
                &&& next.files == w.files
                &&& next.comment == w.comment
                &&& next.writing_to_file
                &&& w.sink matches Sink::Plain(s) ==> next.sink == Sink::Plain(s.written(data))
                &&& w.sink matches Sink::Packing(s, packing, given) ==> next.sink.stream()
                    == w.sink.stream().extended(packing.on_given(given, Given::Contents(data)))
            }
            &&& w.writing_to_file && !w.writing_to_extra_field && r is Err ==> {
                &&& next.files == w.files.drop_last()
                &&& !next.names.contains_key(f.file_name)
                &&& !next.writing_to_file
            }
        }),
{
    let (next, r) = w.data_written(data);
    if let Sink::Packing(s, packing, given) = w.sink {
        packing_goes_on(s, packing, given, Given::Contents(data));
    }
    if w.writing_to_file && w.writing_to_extra_field {
        assert(next.files.drop_last() =~= w.files.drop_last());
    }
}

/// A flush puts what the compressor gives out when it is told to into the archive, right after
/// what is there. Where contents are stored as they are, there is nothing to put out. Entries,
/// contents and comment stay as they are.
pub proof fn flush_arrives(w: WriterState)
    ensures
        ({
            let (next, r) = w.flushed();
            &&& r is Err <==> w.sink is Closed
            &&& w.sink is Plain || w.sink is Closed ==> next == w
            &&& w.sink matches Sink::Packing(s, packing, given) ==> next.sink.stream()
                == w.sink.stream().extended(packing.on_given(given, Given::Flush))
            &&& next.files == w.files
            &&& next.contents == w.contents
            &&& next.comment == w.comment
            &&& next.bytes_written == w.bytes_written
            &&& next.writing_to_file == w.writing_to_file
        }),
{
    if let Sink::Packing(s, packing, given) = w.sink {
        packing_goes_on(s, packing, given, Given::Flush);
    }
}

/// The local header of an entry that begins stands in the archive, where the entry says that it
/// does, and contents start right after it.
pub proof fn begun_header_stands(
    w: WriterState,
    name: Seq<char>,
    options: FileOptions,
    raw: ZipRawValues,
)
    requires
        w.entry_begun(name, options, raw).1 is Ok,
        w.finished().0.wf(),
        w.entry_begun(name, options, raw).0.wf(),
    ensures
        ({
            let next = w.entry_begun(name, options, raw).0;
            let f = next.files.last();
            &&& stands_at(next.sink.stream().bytes, f.header_start as int, f.local_header())
            &&& f.data_start == f.header_start + f.local_header().len()
            &&& next.sink.stream().pos == f.data_start
            &&& next.start == f.data_start
        }),
{
    let s = w.finished().0.sink.stream();
    let f = new_entry(name, options, raw, s.pos as u64);
    let g = w.entry_begun(name, options, raw).0.files.last();
    overlay_facts(s.bytes, s.pos as int, f.local_header());
    reveal(FileRecord::local_header);
    reveal(FileRecord::local_fixed);
    assert(g.local_header() =~= f.local_header());
}

/// Once an entry is ended, its local header tells the checksum and the sizes of its contents, in
/// their places or, for a large file, in the ZIP64 record after the name.
pub proof fn ended_header_tells(w: WriterState)
    requires
        w.wf(),
        w.faithful(),
        !w.writing_to_extra_field,
        w.contents_ended().1 is Ok,
        w.contents_ended().0.wf(),
    ensures
        ({
            let next = w.contents_ended().0;
            let f = next.files.last();
            let b = next.sink.stream().bytes;
            let at = f.header_start as int;
            let sizes = at + 30 + f.name_bytes().len() + 4;
            &&& f.crc32 == crc32_of(w.contents)
            &&& f.uncompressed_size == w.contents.len()
            &&& next.sink.stream().pos == w.start + f.compressed_size
            &&& u32_at(b, at + 14) == f.crc32
            &&& !f.large_file ==> u32_at(b, at + 18) == f.compressed_size && u32_at(b, at + 22)
                == f.uncompressed_size
            &&& f.large_file ==> u64_at(b, sizes) == f.uncompressed_size && u64_at(b, sizes + 8)
                == f.compressed_size
        }),
{
    let s = w.sink.ended();
    let f = w.completed(s.pos);
    if let Sink::Packing(t, packing, given) = w.sink {
        packing_keeps(t, packing, given);
    }
    completed_local_header_tells(s.bytes, f);
}

/// A file that is started, written to and left in an archive that is finished is read from the
/// archive, as its last entry: with the name, the permissions, the time to the even second and the
/// way to store contents that were asked for, and with the contents that were written. The comment
/// is the one that the archive had.
pub proof fn written_file_is_read(
    w: WriterState,
    name: Seq<char>,
    options: FileOptions,
    made: FileOptions,
    data: Seq<u8>,
)
    requires
        w.wf(),
        w.past_extra().wf(),
        w.finished().0.wf(),
        w.entry_begun(name, made, no_raw_values()).0.wf(),
        normalized(options, made),
        vstd::utf8::encode_utf8(name).len() <= 0xffff,
        data.len() <= usize::MAX,
        ({
            let started = w.file_started(name, made);
            let written = started.0.data_written(data);
            &&& started.1 is Ok
            &&& started.0.wf()
            &&& written.1 is Ok
            &&& written.0.wf()
            &&& written.0.sink.recoverable()
            &&& written.0.finished().0.wf()
            &&& written.0.finalized().1 is Ok
            &&& written.0.finalized().0.wf()
            &&& forall|k: int|
                0 <= k < written.0.finished().0.files.len() ==> rereadable(
                    #[trigger] written.0.finished().0.files[k],
                    false,
                )
            &&& navigable(
                written.0.finalized().0.sink.stream().bytes,
                written.0.finished().0.files,
                written.0.finished().0.sink.stream().pos,
                w.comment,
            )
        }),
    ensures
        ({
            let b = w.file_started(name, made).0.data_written(
                data,
            ).0.finalized().0.sink.stream().bytes;
            let read = archive_of(b, true)->Ok_0;
            let g = read.files.last();
            &&& archive_of(b, true) is Ok
            &&& read.comment == w.comment
            &&& read.files.len() == w.finished().0.files.len() + 1
            &&& g.file_name == name
            &&& g.compression_method == options.compression_method
            &&& options.permissions matches Some(mode) ==> mode <= 0xffff ==> g.unix_mode() == Some(
                mode | 0o100000,
            )
            &&& options.permissions is None ==> g.unix_mode() == Some(0o100644u32)
            &&& options.last_modified_time@.in_bounds() ==> {
                let (m, t) = (g.last_modified_time, options.last_modified_time@);
                &&& m.year == t.year && m.month == t.month && m.day == t.day
                &&& m.hour == t.hour && m.minute == t.minute
                &&& m.second == t.second - t.second % 2
            }
            &&& g.uncompressed_size == data.len()
            &&& stored_bytes(b, g) is Ok
            &&& stored_bytes(b, g)->Ok_0.len() == g.compressed_size
            &&& contents_of(g, stored_bytes(b, g)->Ok_0) == Ok::<Seq<u8>, ZipError>(data)
        }),
{
    let started = w.file_started(name, made).0;
    let written = started.data_written(data).0;
    let ended = written.finished().0;
    started_file_says(w, name, options, made);
    file_started_faithful(w, name, made);
    data_written_keeps(started, data);
    assert(started.contents + data =~= data);
    assert(written.past_extra() == written);
    assert(written.files == started.files);
    contents_ended_found(written);
    finished_archive_says(written);
    finished_archive_reads_back(written);
    let last = ended.files.len() - 1;
    let f = ended.files[last];
    let b = written.finalized().0.sink.stream().bytes;
    let read = archive_of(b, true)->Ok_0;
    assert(ended.stored(last) is Some);
    assert(read.files[last] == read.files.last());
    assert(f.unix_mode() == started.files.last().unix_mode());
    assert(f.system is Unix) by {
        begun_entry_says(w, name, made, no_raw_values());
    }
    assert(can_unpack(f.compression_method));
}

/// A file that is started with extra data is the last entry, with the name, the way to store
/// contents, the time and the permissions that were asked for. It has no extra data yet, and what
/// is returned is where its contents would start.
pub proof fn extra_file_says(
    w: WriterState,
    name: Seq<char>,
    options: FileOptions,
    made: FileOptions,
)
    requires
        normalized(options, made),
        w.extra_data_started(name, made).1 is Ok,
    ensures
        ({
            let ended = w.finished().0;
            let next = w.extra_data_started(name, made).0;
            let f = next.files.last();
            &&& next.files.len() == ended.files.len() + 1
            &&& next.files.drop_last() == ended.files
            &&& next.comment == w.comment
            &&& next.writing_to_file && next.writing_to_extra_field
            &&& w.extra_data_started(name, made).1->Ok_0 == f.data_start
            &&& f.file_name == name
            &&& f.extra_field.len() == 0
            &&& f.compression_method == options.compression_method
            &&& f.compression_level == options.compression_level
            &&& f.large_file == options.large_file
            &&& options.last_modified_time@.in_bounds() ==> f.last_modified_time
                == options.last_modified_time@
            &&& options.permissions matches Some(mode) ==> mode <= 0xffff ==> f.unix_mode() == Some(
                mode | 0o100000,
            )
            &&& options.permissions is None ==> f.unix_mode() == Some(0o100644u32)
        }),
{
    begun_entry_says(w, name, made, no_raw_values());
    if let Some(mode) = options.permissions {
        mode_bits(mode);
    } else {
        mode_bits(0o644);
    }
}

} // verus!
