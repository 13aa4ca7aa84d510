//! What is written is what is read back.
use vstd::prelude::*;
use vstd::utf8::{
    decode_utf8, encode_utf8_decode_utf8, encode_utf8_valid_utf8, is_ascii_chars,
    is_ascii_chars_encode_utf8, valid_utf8,
};

use crate::bytes::{
    stands_at, stands_at_within, u16_at, u16_at_of_bytes, u16_bytes, u32_at, u32_at_of_bytes,
    u32_bytes, u64_at, u64_at_of_bytes, u64_bytes,
};
use crate::compression::method_of;
use crate::cp437::{cp437_ascii, cp437_text};
use crate::header::{capped, extra_flaw, header_lengths, is_mapped};
use crate::read::{
    archive_of, central_fields, central_len, directory_counts, entries_at, entry_at, entry_of,
    extra_applied, extra_step, flagged_text, zip64_applied, ArchiveRecord, ExtraStep,
};
use crate::result::ZipError;
use crate::spec::{
    footer_at_of_bytes, footer_found, footer_search_start, last_footer, locator_at,
    locator_at_of_bytes, zip64_end_of_bytes, Footer, Zip64CentralDirectoryEnd,
    Zip64CentralDirectoryEndLocator, CENTRAL_DIRECTORY_HEADER_SIGNATURE, ZIP64_BYTES_THR,
};
use crate::types::{moment_of_parts, system_of, FileRecord};
use crate::write::{
    central_headers, directory_end, footer_for, locator_for, needs_zip64, zip64_end_for,
};

verus! {

broadcast use crate::bytes::group_byte_lengths;

/// The fields of a central header can be read where they stand.
pub proof fn central_fixed_first(f: FileRecord, streamed: bool)
    ensures
        f.central_fixed(streamed).len() == 46,
        u32_at(f.central_fixed(streamed), 0) == CENTRAL_DIRECTORY_HEADER_SIGNATURE,
        u16_at(f.central_fixed(streamed), 4) == (f.system.code() * 256 + f.version_made_by) as u16,
        u16_at(f.central_fixed(streamed), 8) == f.central_flags(streamed),
        u16_at(f.central_fixed(streamed), 10) == f.compression_method.code(),
        u16_at(f.central_fixed(streamed), 12) == f.last_modified_time.timepart(),
        u16_at(f.central_fixed(streamed), 14) == f.last_modified_time.datepart(),
        u32_at(f.central_fixed(streamed), 16) == f.crc32,
{
    reveal(FileRecord::central_fixed);
    let s = f.central_fixed(streamed);
    assert(s.subrange(0, 4) =~= u32_bytes(CENTRAL_DIRECTORY_HEADER_SIGNATURE));
    u32_at_of_bytes(s, 0, CENTRAL_DIRECTORY_HEADER_SIGNATURE);
    let version = (f.system.code() * 256 + f.version_made_by) as u16;
    assert(s.subrange(4, 6) =~= u16_bytes(version));
    u16_at_of_bytes(s, 4, version);
    assert(s.subrange(8, 10) =~= u16_bytes(f.central_flags(streamed)));
    u16_at_of_bytes(s, 8, f.central_flags(streamed));
    assert(s.subrange(10, 12) =~= u16_bytes(f.compression_method.code()));
    u16_at_of_bytes(s, 10, f.compression_method.code());
    assert(s.subrange(12, 14) =~= u16_bytes(f.last_modified_time.timepart()));
    u16_at_of_bytes(s, 12, f.last_modified_time.timepart());
    assert(s.subrange(14, 16) =~= u16_bytes(f.last_modified_time.datepart()));
    u16_at_of_bytes(s, 14, f.last_modified_time.datepart());
    assert(s.subrange(16, 20) =~= u32_bytes(f.crc32));
    u32_at_of_bytes(s, 16, f.crc32);
}

/// The fields of a central header can be read where they stand.
pub proof fn central_fixed_second(f: FileRecord, streamed: bool)
    ensures
        u32_at(f.central_fixed(streamed), 20) == capped(f.compressed_size),
        u32_at(f.central_fixed(streamed), 24) == capped(f.uncompressed_size),
        u16_at(f.central_fixed(streamed), 28) == f.name_bytes().len() as u16,
        u16_at(f.central_fixed(streamed), 30) == f.central_extra_len(streamed),
        u16_at(f.central_fixed(streamed), 32) == 0,
        u32_at(f.central_fixed(streamed), 38) == f.external_attributes,
        u32_at(f.central_fixed(streamed), 42) == capped(f.header_start),
{
    reveal(FileRecord::central_fixed);
    let s = f.central_fixed(streamed);
    assert(s.subrange(20, 24) =~= u32_bytes(capped(f.compressed_size)));
    u32_at_of_bytes(s, 20, capped(f.compressed_size));
    assert(s.subrange(24, 28) =~= u32_bytes(capped(f.uncompressed_size)));
    u32_at_of_bytes(s, 24, capped(f.uncompressed_size));
    assert(s.subrange(28, 30) =~= u16_bytes(f.name_bytes().len() as u16));
    u16_at_of_bytes(s, 28, f.name_bytes().len() as u16);
    assert(s.subrange(30, 32) =~= u16_bytes(f.central_extra_len(streamed)));
    u16_at_of_bytes(s, 30, f.central_extra_len(streamed));
    assert(s.subrange(32, 34) =~= u16_bytes(0));
    u16_at_of_bytes(s, 32, 0);
    assert(s.subrange(38, 42) =~= u32_bytes(f.external_attributes));
    u32_at_of_bytes(s, 38, f.external_attributes);
    assert(s.subrange(42, 46) =~= u32_bytes(capped(f.header_start)));
    u32_at_of_bytes(s, 42, capped(f.header_start));
}

/// An integer read from a part of some bytes is read from the bytes.
pub proof fn read_within(b: Seq<u8>, i: int, part: Seq<u8>, k: int)
    requires
        stands_at(b, i, part),
        0 <= k,
    ensures
        k + 2 <= part.len() ==> u16_at(b, i + k) == u16_at(part, k),
        k + 4 <= part.len() ==> u32_at(b, i + k) == u32_at(part, k),
        k + 8 <= part.len() ==> u64_at(b, i + k) == u64_at(part, k),
{
    reveal(u16_at);
    reveal(u32_at);
    reveal(u64_at);
    assert forall|j: int| 0 <= j < part.len() implies b[i + j] == part[j] by {
        assert(b.subrange(i, i + part.len())[j] == b[i + j]);
    }
    if k + 2 <= part.len() {
        assert(b[i + k] == part[k] && b[i + (k + 1)] == part[k + 1]);
    }
    if k + 4 <= part.len() {
        assert(b[i + (k + 2)] == part[k + 2] && b[i + (k + 3)] == part[k + 3]);
    }
    if k + 8 <= part.len() {
        assert(b[i + (k + 4)] == part[k + 4] && b[i + (k + 5)] == part[k + 5]);
        assert(b[i + (k + 6)] == part[k + 6] && b[i + (k + 7)] == part[k + 7]);
    }
}

/// A name is read back from its bytes, by the flag that goes with it.
pub proof fn name_reads_back(f: FileRecord)
    ensures
        flagged_text(f.name_bytes(), f.flags() / 2048 % 2 == 1) == f.file_name,
{
    let name = f.file_name;
    let raw = f.name_bytes();
    if is_ascii_chars(name) {
        is_ascii_chars_encode_utf8(name);
        assert forall|i: int| 0 <= i < raw.len() implies raw[i] < 128 by {
            assert(is_ascii_chars(name));
        }
        cp437_ascii(raw);
        assert(cp437_text(raw) =~= name);
    } else {
        encode_utf8_valid_utf8(name);
        encode_utf8_decode_utf8(name);
    }
}

/// Whether the records of the extra field `x`, from the one at `p` on, say
/// nothing that a reader acts on: none is an AES record, and none is a ZIP64
/// record where `zip64` forbids it.
pub open spec fn inert(x: Seq<u8>, p: int, zip64: bool) -> bool
    decreases
            if p >= x.len() {
                0
            } else {
                x.len() - p
            },
{
    if p >= x.len() || p + 4 > x.len() {
        true
    } else {
        &&& u16_at(x, p) != 0x9901
        &&& u16_at(x, p) == 0x0001 ==> zip64
        &&& inert(x, p + 4 + u16_at(x, p + 2), zip64)
    }
}

/// Whether no size or offset of a file is just the value that stands for one
/// that is too large.
pub open spec fn no_field_at_limit(f: FileRecord) -> bool {
    &&& f.uncompressed_size != ZIP64_BYTES_THR
    &&& f.compressed_size != ZIP64_BYTES_THR
    &&& f.header_start != ZIP64_BYTES_THR
}

/// An extra field that says nothing leaves a file as it is.
pub proof fn inert_extra(f: FileRecord, x: Seq<u8>, p: int, zip64: bool)
    requires
        0 <= p,
        inert(x, p, zip64),
        zip64 ==> no_field_at_limit(f),
    ensures
        extra_applied(f, x, p).0 == f,
        extra_applied(f, x, p).1 matches Some(e) ==> e is Io,
    decreases
            if p >= x.len() {
                0
            } else {
                x.len() - p
            },
{
    reveal(zip64_applied);
    if p < x.len() && p + 4 <= x.len() {
        let next = p + 4 + u16_at(x, p + 2);
        assert(extra_step(f, x, p) == ExtraStep::Next(f, next));
        inert_extra(f, x, next, zip64);
    }
}

/// Extra data that a writer accepts says nothing that a reader acts on.
pub proof fn flawless_is_inert(x: Seq<u8>, p: int, zip64: bool)
    requires
        0 <= p <= x.len(),
        extra_flaw(x, p) is None,
    ensures
        inert(x, p, zip64),
    decreases x.len() - p,
{
    if p < x.len() {
        assert(is_mapped(0x9901));
        flawless_is_inert(x, p + 4 + u16_at(x, p + 2), zip64);
    }
}

/// What comes before records does not matter to what they say.
proof fn inert_after(pre: Seq<u8>, x: Seq<u8>, p: int, zip64: bool)
    requires
        0 <= p,
        inert(x, p, zip64),
    ensures
        inert(pre + x, pre.len() + p, zip64),
    decreases
            if p >= x.len() {
                0
            } else {
                x.len() - p
            },
{
    if p < x.len() && p + 4 <= x.len() {
        assert(stands_at(pre + x, pre.len() as int, x)) by {
            assert((pre + x).subrange(pre.len() as int, (pre.len() + x.len()) as int) =~= x);
        }
        read_within(pre + x, pre.len() as int, x, p);
        read_within(pre + x, pre.len() as int, x, p + 2);
        inert_after(pre, x, p + 4 + u16_at(x, p + 2), zip64);
    }
}

/// Whether a file can be read back from its central header.
///
/// Its name and the extra data that is counted must be short enough for their lengths
/// to be written. It must not be marked as encrypted with AES. Where the header has
/// a ZIP64 record, no size or offset may be just the value that stands for one
/// that is too large.
pub open spec fn rereadable(f: FileRecord, streamed: bool) -> bool {
    let extra = f.counted_extra(streamed);
    &&& f.name_bytes().len() <= 0xffff
    &&& f.central_zip64().len() + extra.len() <= 0xffff
    &&& f.last_modified_time.fits()
    &&& f.compression_method.code() != 99
    &&& (no_field_at_limit(f) && inert(extra, 0, true)) || (f.central_zip64().len() == 0 && inert(
        extra,
        0,
        false,
    ))
}

/// What is read back of a file from its central header at `i`.
///
/// An odd second becomes the even one before it. The comment and what only the
/// writer knows are not there, and a ZIP64 record shows up in the extra field. That
/// the file is encrypted is read only from a header that is streamed, and the rest of
/// the extra field only from one that is not.
pub open spec fn reread(f: FileRecord, i: int, streamed: bool) -> FileRecord {
    FileRecord {
        system: system_of(f.system.code() as u8),
        version_made_by: f.version_made_by,
        encrypted: streamed && f.encrypted,
        using_data_descriptor: false,
        compression_method: method_of(f.compression_method.code()),
        compression_level: None,
        last_modified_time: f.last_modified_time.even(),
        crc32: f.crc32,
        compressed_size: f.compressed_size,
        uncompressed_size: f.uncompressed_size,
        file_name: f.file_name,
        file_name_raw: f.name_bytes(),
        extra_field: f.central_zip64() + f.counted_extra(streamed),
        file_comment: Seq::empty(),
        header_start: f.header_start,
        central_header_start: i as u64,
        data_start: 0,
        external_attributes: f.external_attributes,
        large_file: f.compressed_size > ZIP64_BYTES_THR || f.uncompressed_size > ZIP64_BYTES_THR,
        aes_mode: None,
    }
}

/// How much of the extra data in a central header is not counted.
pub open spec fn uncounted(f: FileRecord, streamed: bool) -> int {
    f.extra_field.len() - f.counted_extra(streamed).len()
}

/// Whether all extra data in the central headers of files is counted, but for that of
/// the last one, which no other follows.
pub open spec fn counted_up_to_last(files: Seq<FileRecord>, streamed: bool) -> bool {
    forall|k: int|
        0 <= k < files.len() - 1 ==> uncounted(#[trigger] files[k], streamed) == 0
}

/// What is read of a central header before its ZIP64 record is looked at.
spec fn reread_base(f: FileRecord, i: int, streamed: bool) -> FileRecord {
    FileRecord {
        compressed_size: capped(f.compressed_size) as u64,
        uncompressed_size: capped(f.uncompressed_size) as u64,
        header_start: capped(f.header_start) as u64,
        large_file: false,
        ..reread(f, i, streamed)
    }
}

/// The fixed part of a central header is read back.
proof fn central_fields_read_back(b: Seq<u8>, i: int, f: FileRecord, streamed: bool)
    requires
        stands_at(b, i, f.central_header(streamed)),
        rereadable(f, streamed),
    ensures
        u32_at(b, i) == CENTRAL_DIRECTORY_HEADER_SIGNATURE,
        i + 46 <= b.len(),
        central_len(b, i) == f.central_header(streamed).len() - uncounted(f, streamed),
        central_fields(b, i) == reread_base(f, i, streamed),
{
    header_lengths(f);
    let whole = f.central_header(streamed);
    let fixed = f.central_fixed(streamed);
    let name_start = 46int;
    let extra_start = 46 + f.name_bytes().len();
    assert(stands_at(whole, 0, fixed)) by {
        reveal(FileRecord::central_header);
        assert(whole.subrange(0, 46) =~= fixed);
    }
    assert(stands_at(whole, 46, f.name_bytes())) by {
        reveal(FileRecord::central_header);
        assert(whole.subrange(46, extra_start as int) =~= f.name_bytes());
    }
    let extra = f.central_zip64() + f.counted_extra(streamed);
    assert(stands_at(whole, extra_start as int, extra)) by {
        reveal(FileRecord::central_header);
        assert(whole.subrange(extra_start as int, (extra_start + extra.len()) as int) =~= extra);
    }
    stands_at_within(b, i, whole, 0, fixed);
    stands_at_within(b, i, whole, 46, f.name_bytes());
    stands_at_within(b, i, whole, extra_start as int, extra);
    central_fixed_first(f, streamed);
    central_fixed_second(f, streamed);
    read_within(b, i, fixed, 0);
    read_within(b, i, fixed, 4);
    read_within(b, i, fixed, 8);
    read_within(b, i, fixed, 10);
    read_within(b, i, fixed, 12);
    read_within(b, i, fixed, 14);
    read_within(b, i, fixed, 16);
    read_within(b, i, fixed, 20);
    read_within(b, i, fixed, 24);
    read_within(b, i, fixed, 28);
    read_within(b, i, fixed, 30);
    read_within(b, i, fixed, 32);
    read_within(b, i, fixed, 38);
    read_within(b, i, fixed, 42);
    moment_of_parts(f.last_modified_time);
    name_reads_back(f);
    let end = i + central_len(b, i);
    let comment = b.subrange(end, end);
    assert(comment =~= Seq::empty());
    assert(cp437_text(comment) =~= Seq::empty());
    assert(valid_utf8(comment));
    assert(decode_utf8(comment) =~= Seq::empty());
    assert(central_fields(b, i) =~= reread_base(f, i, streamed));
}

/// The ZIP64 record of a central header is read back.
proof fn zip64_reads_back(f: FileRecord, i: int, streamed: bool)
    requires
        rereadable(f, streamed),
        f.central_zip64().len() > 0,
    ensures
        extra_step(reread_base(f, i, streamed), reread(f, i, streamed).extra_field, 0)
            == ExtraStep::Next(reread(f, i, streamed), f.central_zip64().len() as int),
{
    reveal(FileRecord::central_zip64);
    reveal(zip64_applied);
    let x = reread(f, i, streamed).extra_field;
    let data = f.central_zip64_data();
    let n = data.len() as u16;
    assert(x.subrange(0, 2) =~= u16_bytes(0x0001));
    assert(x.subrange(2, 4) =~= u16_bytes(n));
    u16_at_of_bytes(x, 0, 0x0001);
    u16_at_of_bytes(x, 2, n);
    let p1 = 4int;
    let p2 = p1 + if f.uncompressed_size > ZIP64_BYTES_THR {
        8int
    } else {
        0
    };
    let p3 = p2 + if f.compressed_size > ZIP64_BYTES_THR {
        8int
    } else {
        0
    };
    if f.uncompressed_size > ZIP64_BYTES_THR {
        assert(x.subrange(p1, p1 + 8) =~= u64_bytes(f.uncompressed_size));
        u64_at_of_bytes(x, p1, f.uncompressed_size);
    }
    if f.compressed_size > ZIP64_BYTES_THR {
        assert(x.subrange(p2, p2 + 8) =~= u64_bytes(f.compressed_size));
        u64_at_of_bytes(x, p2, f.compressed_size);
    }
    if f.header_start > ZIP64_BYTES_THR {
        assert(x.subrange(p3, p3 + 8) =~= u64_bytes(f.header_start));
        u64_at_of_bytes(x, p3, f.header_start);
    }
    let (g, end) = zip64_applied(reread_base(f, i, streamed), x, 4);
    assert(g =~= reread(f, i, streamed));
    assert(end == Some(4 + data.len() as int));
}

/// A file whose central header is written at `i` is read back from there.
pub proof fn entry_reads_back(b: Seq<u8>, i: int, f: FileRecord, streamed: bool)
    requires
        stands_at(b, i, f.central_header(streamed)),
        rereadable(f, streamed),
    ensures
        entry_at(b, i, 0) == Ok::<(FileRecord, int), ZipError>(
            (reread(f, i, streamed), i + f.central_header(streamed).len() - uncounted(f, streamed)),
        ),
{
    central_fields_read_back(b, i, f, streamed);
    let base = reread_base(f, i, streamed);
    let g = reread(f, i, streamed);
    let x = g.extra_field;
    assert(base.extra_field == x);
    if f.central_zip64().len() == 0 {
        assert(f.central_zip64() =~= Seq::empty());
        assert(x =~= f.counted_extra(streamed));
        assert(f.compressed_size <= ZIP64_BYTES_THR && f.uncompressed_size <= ZIP64_BYTES_THR
            && f.header_start <= ZIP64_BYTES_THR) by {
            reveal(FileRecord::central_zip64);
        }
        assert(base =~= g);
        if inert(f.counted_extra(streamed), 0, false) {
            inert_extra(g, x, 0, false);
        } else {
            inert_extra(g, x, 0, true);
        }
    } else {
        zip64_reads_back(f, i, streamed);
        inert_after(f.central_zip64(), f.counted_extra(streamed), 0, true);
        inert_extra(g, x, f.central_zip64().len() as int, true);
        assert(extra_applied(base, x, 0) == extra_applied(g, x, f.central_zip64().len() as int));
    }
    assert(entry_of(base, 0) == Ok::<FileRecord, ZipError>(g));
}

/// What is read back of files whose central headers are written one after the
/// other, the first of them at `i`.
pub open spec fn reread_all(files: Seq<FileRecord>, i: int, streamed: bool) -> Seq<FileRecord> {
    Seq::new(
        files.len(),
        |k: int| reread(files[k], i + central_headers(files.take(k), streamed).len(), streamed),
    )
}

/// Files whose central headers are written one after the other are read back.
pub proof fn entries_read_back(b: Seq<u8>, i: int, files: Seq<FileRecord>, streamed: bool)
    requires
        stands_at(b, i, central_headers(files, streamed)),
        forall|k: int| 0 <= k < files.len() ==> rereadable(#[trigger] files[k], streamed),
        counted_up_to_last(files, streamed),
    ensures
        entries_at(b, i, 0, files.len()) == Ok::<(Seq<FileRecord>, int), ZipError>(
            (
                reread_all(files, i, streamed),
                i + central_headers(files, streamed).len() - if files.len() == 0 {
                    0
                } else {
                    uncounted(files.last(), streamed)
                },
            ),
        ),
    decreases files.len(),
{
    if files.len() == 0 {
        assert(reread_all(files, i, streamed) =~= Seq::empty());
    } else {
        let before = files.drop_last();
        let all = central_headers(files, streamed);
        let head = central_headers(before, streamed);
        let last = files.last();
        assert(stands_at(all, 0, head)) by {
            assert(all.subrange(0, head.len() as int) =~= head);
        }
        assert(stands_at(all, head.len() as int, last.central_header(streamed))) by {
            assert(all.subrange(head.len() as int, all.len() as int) =~= last.central_header(
                streamed,
            ));
        }
        stands_at_within(b, i, all, 0, head);
        stands_at_within(b, i, all, head.len() as int, last.central_header(streamed));
        assert forall|k: int| 0 <= k < before.len() implies rereadable(
            #[trigger] before[k],
            streamed,
        ) by {
            assert(before[k] == files[k]);
        }
        entries_read_back(b, i, before, streamed);
        assert(rereadable(files[files.len() - 1], streamed));
        entry_reads_back(b, i + head.len(), last, streamed);
        assert(files.take(files.len() - 1) == before);
        assert(reread_all(files, i, streamed) =~= reread_all(before, i, streamed).push(
            reread(last, i + head.len(), streamed),
        )) by {
            assert forall|k: int| 0 <= k < before.len() implies reread_all(files, i, streamed)[k]
                == reread_all(before, i, streamed)[k] by {
                assert(files.take(k) == before.take(k));
            }
        }
    }
}

/// The position of the last end record in a finished archive.
pub open spec fn footer_position(
    files: Seq<FileRecord>,
    central_start: nat,
    comment: Seq<u8>,
) -> int {
    let headers = central_headers(files, false);
    central_start + headers.len() + directory_end(
        files.len(),
        central_start,
        headers.len(),
        comment,
    ).len() - 22 - comment.len()
}

/// Whether a reader finds its way in the bytes of a finished archive.
///
/// The comment must be short enough for its length to be written. The end
/// record must be the last thing in the reach of the search that looks like
/// one. What stands where the locator of a ZIP64 record would stand must be one
/// just if the archive has one, and then nothing may follow the archive.
pub open spec fn navigable(
    b: Seq<u8>,
    files: Seq<FileRecord>,
    central_start: nat,
    comment: Seq<u8>,
) -> bool {
    let end = footer_position(files, central_start, comment);
    &&& comment.len() <= 0xffff
    &&& last_footer(b, b.len() - 22, footer_search_start(b.len() as int)) == Some(end)
    &&& if needs_zip64(files.len(), central_start, central_headers(files, false).len()) {
        b.len() == end + 22 + comment.len()
    } else {
        b.len() >= 42 + comment.len() ==> !(locator_at(b, b.len() - 42 - comment.len()) is Ok)
    }
}

/// Without a comment, and with nothing after it, the end record of an archive is
/// the one that the search comes upon.
pub proof fn plain_end_is_found(b: Seq<u8>, footer: Footer)
    requires
        footer.zip_file_comment.len() == 0,
        b.len() >= 22,
        stands_at(b, b.len() - 22, footer.bytes()),
    ensures
        last_footer(b, b.len() - 22, footer_search_start(b.len() as int)) == Some(b.len() - 22),
{
    footer_at_of_bytes(b, b.len() - 22, footer);
}

/// A finished archive is read back: its entries, in order, and its comment.
pub proof fn archive_reads_back(
    b: Seq<u8>,
    files: Seq<FileRecord>,
    central_start: nat,
    comment: Seq<u8>,
    streamed: bool,
)
    requires
        stands_at(
            b,
            central_start as int,
            central_headers(files, streamed) + directory_end(
                files.len(),
                central_start,
                central_headers(files, streamed).len(),
                comment,
            ),
        ),
        b.len() <= usize::MAX,
        forall|k: int| 0 <= k < files.len() ==> rereadable(#[trigger] files[k], streamed),
        counted_up_to_last(files, streamed),
        navigable(b, files, central_start, comment),
    ensures
        archive_of(b, true) == Ok::<ArchiveRecord, ZipError>(
            ArchiveRecord {
                files: reread_all(files, central_start as int, streamed),
                offset: 0,
                directory_start: central_start as u64,
                comment,
            },
        ),
{
    let headers = central_headers(files, streamed);
    let n = files.len();
    let size = headers.len();
    let end = directory_end(n, central_start, size, comment);
    let whole = headers + end;
    let footer = footer_for(n, central_start, size, comment);
    let cde = footer_position(files, central_start, comment);
    let zip64 = needs_zip64(n, central_start, size);
    record_lengths(footer, zip64_end_for(n, central_start, size), locator_for(central_start + size));
    central_headers_len(files, streamed);
    let tail = footer.bytes();
    let front = end.len() - tail.len();
    assert(stands_at(whole, 0, headers)) by {
        assert(whole.subrange(0, size as int) =~= headers);
    }
    assert(stands_at(whole, size + front, tail)) by {
        assert(whole.subrange(size + front, whole.len() as int) =~= tail);
    }
    stands_at_within(b, central_start as int, whole, 0, headers);
    stands_at_within(b, central_start as int, whole, size + front, tail);
    assert(cde == central_start + size + front);
    footer_at_of_bytes(b, cde, footer);
    assert(footer_found(b) == Ok::<(Footer, int), ZipError>((footer, cde)));
    entries_read_back(b, central_start as int, files, streamed);
    if zip64 {
        let first = zip64_end_for(n, central_start, size);
        let second = locator_for(central_start + size);
        assert(stands_at(whole, size as int, first.bytes())) by {
            assert(whole.subrange(size as int, size as int + 56) =~= first.bytes());
        }
        assert(stands_at(whole, size as int + 56, second.bytes())) by {
            assert(whole.subrange(size as int + 56, size as int + 76) =~= second.bytes());
        }
        stands_at_within(b, central_start as int, whole, size as int, first.bytes());
        stands_at_within(b, central_start as int, whole, size as int + 56, second.bytes());
        let at = (central_start + size) as int;
        zip64_end_of_bytes(b, at, cde - 60, first);
        locator_at_of_bytes(b, at + 56, second);
        assert(b.len() - (20 + 22 + comment.len()) == at + 56);
        assert(directory_counts(b, footer, cde) == Ok::<(u64, u64, usize), ZipError>(
            (0u64, central_start as u64, n as usize),
        ));
    } else {
        assert(directory_counts(b, footer, cde) == Ok::<(u64, u64, usize), ZipError>(
            (0u64, central_start as u64, n as usize),
        ));
    }
}

/// The lengths of the records that end an archive.
proof fn record_lengths(
    footer: Footer,
    end: Zip64CentralDirectoryEnd,
    locator: Zip64CentralDirectoryEndLocator,
)
    ensures
        footer.bytes().len() == 22 + footer.zip_file_comment.len(),
        end.bytes().len() == 56,
        locator.bytes().len() == 20,
{
    reveal(Footer::bytes);
    reveal(Zip64CentralDirectoryEnd::bytes);
    reveal(Zip64CentralDirectoryEndLocator::bytes);
}

/// A central header has at least its fixed part, and is as long if it is streamed as if it
/// is not.
proof fn central_headers_len(files: Seq<FileRecord>, streamed: bool)
    ensures
        central_headers(files, streamed).len() >= 46 * files.len(),
        central_headers(files, streamed).len() == central_headers(files, false).len(),
    decreases files.len(),
{
    if files.len() > 0 {
        central_headers_len(files.drop_last(), streamed);
        header_lengths(files.last());
    }
}

} // verus!
