//! What stands in an archive, byte by byte, and what is read of it.
use vstd::prelude::*;
use vstd::utf8::{
    encode_utf8, encode_utf8_decode_utf8, encode_utf8_valid_utf8, is_ascii_chars,
    is_ascii_chars_encode_utf8,
};

use crate::bytes::{
    stands_at, stands_at_within, u16_at, u16_at_of_bytes, u16_bytes, u32_at, u32_at_of_bytes,
    u32_bytes, u64_at, u64_at_of_bytes, u64_bytes,
};
use crate::compression::code_of_method;
use crate::cp437::{cp437_ascii, cp437_text};
use crate::header::{header_lengths, local_patched};
use crate::read::{
    aes_applied, answer, archive_of, central_fields, data_start_at, directory_counts, entries_at,
    entry_at, entry_of, extra_applied, extra_keeps, extra_step, flagged_text, stored_bytes,
    zip64_applied, ExtraStep,
};
use crate::result::ZipError;
use crate::roundtrip::{
    central_fixed_first, central_fixed_second, inert, inert_extra, read_within,
};
use crate::spec::{
    end_record_is_found, footer_at_of_bytes, footer_found, footer_search_start, last_footer,
    locator_at, locator_at_of_bytes, zip64_end_fields, zip64_end_found, zip64_end_of_bytes, Footer,
    Zip64CentralDirectoryEnd, Zip64CentralDirectoryEndLocator,
};
use crate::stream::{overlay, overlay_facts};
use crate::types::{parts_of_moment, FileRecord};
use crate::write::{directory_end, footer_for, locator_for, needs_zip64, zip64_end_for};

verus! {

broadcast use crate::bytes::group_byte_lengths;

/// Text is read back from its bytes in UTF-8 where a flag says that it is in UTF-8, and where it
/// is ASCII in any case.
pub proof fn text_reads_back(text: Seq<char>, is_utf8: bool)
    requires
        is_utf8 || is_ascii_chars(text),
    ensures
        flagged_text(encode_utf8(text), is_utf8) == text,
{
    let raw = encode_utf8(text);
    if is_utf8 {
        encode_utf8_valid_utf8(text);
        encode_utf8_decode_utf8(text);
    } else {
        is_ascii_chars_encode_utf8(text);
        assert forall|i: int| 0 <= i < raw.len() implies raw[i] < 128 by {
            assert(is_ascii_chars(text));
        }
        cp437_ascii(raw);
        assert(cp437_text(raw) =~= text);
    }
}

/// What the records of an extra field leave as it is: sizes and an offset that are not at their
/// limit, and the way to store contents unless the file is encrypted with AES.
proof fn extra_leaves(f: FileRecord, x: Seq<u8>, p: int)
    requires
        0 <= p,
    ensures
        ({
            let g = extra_applied(f, x, p).0;
            &&& f.uncompressed_size != 0xffff_ffff ==> g.uncompressed_size == f.uncompressed_size
            &&& f.compressed_size != 0xffff_ffff ==> g.compressed_size == f.compressed_size
            &&& f.header_start != 0xffff_ffff ==> g.header_start == f.header_start
            &&& g.aes_mode is None ==> g.compression_method == f.compression_method && f.aes_mode
                is None
        }),
    decreases
            if p >= x.len() {
                0
            } else {
                x.len() - p
            },
{
    reveal(zip64_applied);
    reveal(aes_applied);
    if p < x.len() {
        if let ExtraStep::Next(g, q) = extra_step(f, x, p) {
            extra_leaves(g, x, q);
        }
    }
}

/// A central header tells what its fields hold: whatever fixed part it has, with a name, an extra
/// field and a comment of the lengths that the fixed part tells, one after the other.
///
/// Name and comment are in UTF-8 where bit eleven of the flags says so; ASCII stands for itself in
/// any case. A size or an offset that is at its limit may be told by the extra field. Where the
/// archive has something before it, offsets are shifted.
pub proof fn central_header_tells(
    b: Seq<u8>,
    i: int,
    shift: u64,
    fixed: Seq<u8>,
    name: Seq<char>,
    extra: Seq<u8>,
    comment: Seq<char>,
)
    requires
        fixed.len() == 46,
        u16_at(fixed, 28) == encode_utf8(name).len(),
        u16_at(fixed, 30) == extra.len(),
        u16_at(fixed, 32) == encode_utf8(comment).len(),
        stands_at(b, i, fixed + encode_utf8(name) + extra + encode_utf8(comment)),
        u16_at(fixed, 8) / 2048 % 2 == 1 || (is_ascii_chars(name) && is_ascii_chars(comment)),
        entry_at(b, i, shift) is Ok,
    ensures
        ({
            let (f, end) = entry_at(b, i, shift)->Ok_0;
            &&& end == i + 46 + encode_utf8(name).len() + extra.len() + encode_utf8(comment).len()
            &&& f.file_name == name
            &&& f.file_name_raw == encode_utf8(name)
            &&& f.file_comment == comment
            &&& f.extra_field == extra
            &&& f.version_made_by == u16_at(fixed, 4) % 256
            &&& u16_at(fixed, 4) / 256 == 3 ==> f.unix_mode() == Some(u32_at(fixed, 38) >> 16)
            &&& f.system is Unix <==> u16_at(fixed, 4) / 256 == 3
            &&& f.system is Dos <==> u16_at(fixed, 4) / 256 == 0
            &&& f.external_attributes == u32_at(fixed, 38)
            &&& f.encrypted <==> u16_at(fixed, 8) % 2 == 1
            &&& f.using_data_descriptor <==> u16_at(fixed, 8) / 8 % 2 == 1
            &&& f.aes_mode is None ==> f.compression_method.code() == u16_at(fixed, 10)
            &&& f.last_modified_time.fits()
            &&& f.last_modified_time.timepart() == u16_at(fixed, 12)
            &&& f.last_modified_time.datepart() == u16_at(fixed, 14)
            &&& f.crc32 == u32_at(fixed, 16)
            &&& u32_at(fixed, 20) != 0xffff_ffff ==> f.compressed_size == u32_at(fixed, 20)
            &&& u32_at(fixed, 24) != 0xffff_ffff ==> f.uncompressed_size == u32_at(fixed, 24)
            &&& u32_at(fixed, 42) != 0xffff_ffff ==> f.header_start == u32_at(fixed, 42) + shift
            &&& f.central_header_start == i as u64
        }),
{
    let whole = fixed + encode_utf8(name) + extra + encode_utf8(comment);
    let n = encode_utf8(name).len() as int;
    let m = extra.len() as int;
    let k = encode_utf8(comment).len() as int;
    assert(stands_at(whole, 0, fixed)) by {
        assert(whole.subrange(0, 46) =~= fixed);
    }
    assert(stands_at(whole, 46, encode_utf8(name))) by {
        assert(whole.subrange(46, 46 + n) =~= encode_utf8(name));
    }
    assert(stands_at(whole, 46 + n, extra)) by {
        assert(whole.subrange(46 + n, 46 + n + m) =~= extra);
    }
    assert(stands_at(whole, 46 + n + m, encode_utf8(comment))) by {
        assert(whole.subrange(46 + n + m, 46 + n + m + k) =~= encode_utf8(comment));
    }
    stands_at_within(b, i, whole, 0, fixed);
    stands_at_within(b, i, whole, 46, encode_utf8(name));
    stands_at_within(b, i, whole, 46 + n, extra);
    stands_at_within(b, i, whole, 46 + n + m, encode_utf8(comment));
    read_within(b, i, fixed, 4);
    read_within(b, i, fixed, 8);
    read_within(b, i, fixed, 10);
    read_within(b, i, fixed, 12);
    read_within(b, i, fixed, 14);
    read_within(b, i, fixed, 16);
    read_within(b, i, fixed, 20);
    read_within(b, i, fixed, 24);
    read_within(b, i, fixed, 28);
    read_within(b, i, fixed, 30);
    read_within(b, i, fixed, 32);
    read_within(b, i, fixed, 38);
    read_within(b, i, fixed, 42);
    let is_utf8 = u16_at(fixed, 8) / 2048 % 2 == 1;
    text_reads_back(name, is_utf8);
    text_reads_back(comment, is_utf8);
    parts_of_moment(u16_at(fixed, 14), u16_at(fixed, 12));
    code_of_method(u16_at(fixed, 10));
    let base = central_fields(b, i);
    extra_keeps(base, extra, 0);
    extra_leaves(base, extra, 0);
    assert(base.extra_field == extra);
    assert(base.file_comment == comment);
}

/// A central header is accepted if it begins as one should, is all there, has an extra field that
/// says nothing, is not marked as encrypted with AES, and is not too far along.
pub proof fn central_header_is_accepted(b: Seq<u8>, i: int, shift: u64)
    requires
        0 <= i,
        i + 46 <= b.len(),
        u32_at(b, i) == 0x02014b50,
        i + 46 + u16_at(b, i + 28) + u16_at(b, i + 30) + u16_at(b, i + 32) <= b.len(),
        u16_at(b, i + 10) != 99,
        inert(
            b.subrange(
                i + 46 + u16_at(b, i + 28),
                i + 46 + u16_at(b, i + 28) + u16_at(b, i + 30),
            ),
            0,
            false,
        ),
        u32_at(b, i + 42) + shift <= u64::MAX,
    ensures
        entry_at(b, i, shift) is Ok,
{
    let base = central_fields(b, i);
    inert_extra(base, base.extra_field, 0, false);
    code_of_method(u16_at(b, i + 10));
}

/// What is not a central header is refused: what begins otherwise, and what is not all there.
pub proof fn central_header_is_refused(b: Seq<u8>, i: int, shift: u64)
    requires
        0 <= i,
    ensures
        i + 4 > b.len() ==> entry_at(b, i, shift) is Err,
        i + 4 <= b.len() && u32_at(b, i) != 0x02014b50 ==> (entry_at(b, i, shift) matches Err(e)
            && e is InvalidArchive),
        i + 46 > b.len() ==> entry_at(b, i, shift) is Err,
        i + 46 + u16_at(b, i + 28) + u16_at(b, i + 30) + u16_at(b, i + 32) > b.len() ==> entry_at(
            b,
            i,
            shift,
        ) is Err,
{
}

/// An AES record tells the strength of the encryption, the version of the scheme and the way in
/// which contents are stored below it. All else stays as it is.
pub proof fn aes_record_tells(f: FileRecord, version: u16, strength: u8, method: u16, shift: u64)
    requires
        f.extra_field == u16_bytes(0x9901) + u16_bytes(7) + u16_bytes(version) + seq![
            0x41u8,
            0x45u8,
        ] + seq![strength] + u16_bytes(method),
        version == 1 || version == 2,
        1 <= strength <= 3,
        method != 99,
        f.header_start + shift <= u64::MAX,
    ensures
        ({
            let g = entry_of(f, shift)->Ok_0;
            &&& entry_of(f, shift) is Ok
            &&& g == (FileRecord {
                header_start: (f.header_start + shift) as u64,
                aes_mode: g.aes_mode,
                compression_method: g.compression_method,
                ..f
            })
            &&& g.compression_method.code() == method
            &&& g.aes_mode matches Some((mode, scheme)) && (strength == 1 <==> mode is Aes128) && (
            strength == 2 <==> mode is Aes192) && (strength == 3 <==> mode is Aes256) && (version
                == 1 <==> scheme is Ae1) && (version == 2 <==> scheme is Ae2)
        }),
{
    reveal(aes_applied);
    reveal_with_fuel(extra_applied, 3);
    let x = f.extra_field;
    assert(x.len() == 11);
    assert(x.subrange(0, 2) =~= u16_bytes(0x9901));
    assert(x.subrange(2, 4) =~= u16_bytes(7));
    assert(x.subrange(4, 6) =~= u16_bytes(version));
    assert(x.subrange(9, 11) =~= u16_bytes(method));
    assert(x[6] == 0x41u8 && x[7] == 0x45u8 && x[8] == strength);
    u16_at_of_bytes(x, 0, 0x9901);
    u16_at_of_bytes(x, 2, 7);
    u16_at_of_bytes(x, 4, version);
    u16_at_of_bytes(x, 9, method);
    assert(u16_at(x, 6) == 0x4541) by {
        reveal(u16_at);
    }
    code_of_method(method);
    let g = aes_applied(f, x, 4, 7)->Ok_0;
    assert(extra_step(f, x, 0) == ExtraStep::Next(g, 18));
    assert(extra_applied(f, x, 0) == (g, None::<ZipError>));
}

/// Where the central header of an entry begins makes no difference to what its extra field tells.
proof fn extra_elsewhere(f: FileRecord, at: u64, x: Seq<u8>, p: int)
    requires
        0 <= p,
    ensures
        ({
            let (g, stop) = extra_applied(f, x, p);
            extra_applied(FileRecord { central_header_start: at, ..f }, x, p) == (
                FileRecord { central_header_start: at, ..g },
                stop,
            )
        }),
    decreases
            if p >= x.len() {
                0
            } else {
                x.len() - p
            },
{
    reveal(zip64_applied);
    reveal(aes_applied);
    let moved = FileRecord { central_header_start: at, ..f };
    if p < x.len() {
        match extra_step(f, x, p) {
            ExtraStep::Stop(g, e) => {
                assert(extra_step(moved, x, p) == ExtraStep::Stop(
                    FileRecord { central_header_start: at, ..g },
                    e,
                ));
            },
            ExtraStep::Next(g, q) => {
                assert(extra_step(moved, x, p) == ExtraStep::Next(
                    FileRecord { central_header_start: at, ..g },
                    q,
                ));
                extra_elsewhere(g, at, x, q);
            },
        }
    }
}

/// A central header that has something before it tells the same, but for where things are.
proof fn entry_further_on(before: Seq<u8>, b: Seq<u8>, i: int, shift: u64)
    requires
        0 <= i,
        entry_at(b, i, shift) is Ok,
        entry_at(b, i, shift)->Ok_0.0.header_start + before.len() <= u64::MAX,
        shift + before.len() <= u64::MAX,
    ensures
        ({
            let k = before.len() as int;
            let (f, end) = entry_at(b, i, shift)->Ok_0;
            entry_at(before + b, i + k, (shift + k) as u64) == Ok::<(FileRecord, int), ZipError>(
                (
                    FileRecord {
                        header_start: (f.header_start + k) as u64,
                        central_header_start: (i + k) as u64,
                        ..f
                    },
                    end + k,
                ),
            )
        }),
{
    let k = before.len() as int;
    let whole = before + b;
    assert(stands_at(whole, k, b)) by {
        assert(whole.subrange(k, k + b.len()) =~= b);
    }
    read_within(whole, k, b, i);
    read_within(whole, k, b, i + 4);
    read_within(whole, k, b, i + 8);
    read_within(whole, k, b, i + 10);
    read_within(whole, k, b, i + 12);
    read_within(whole, k, b, i + 14);
    read_within(whole, k, b, i + 16);
    read_within(whole, k, b, i + 20);
    read_within(whole, k, b, i + 24);
    read_within(whole, k, b, i + 28);
    read_within(whole, k, b, i + 30);
    read_within(whole, k, b, i + 32);
    read_within(whole, k, b, i + 38);
    read_within(whole, k, b, i + 42);
    let (f, end) = entry_at(b, i, shift)->Ok_0;
    let name_start = i + 46;
    let extra_start = name_start + u16_at(b, i + 28);
    let comment_start = extra_start + u16_at(b, i + 30);
    assert(whole.subrange(name_start + k, extra_start + k) =~= b.subrange(name_start, extra_start));
    assert(whole.subrange(extra_start + k, comment_start + k) =~= b.subrange(
        extra_start,
        comment_start,
    ));
    assert(whole.subrange(comment_start + k, end + k) =~= b.subrange(comment_start, end));
    let base = central_fields(b, i);
    let further = central_fields(whole, i + k);
    assert(further =~= FileRecord { central_header_start: (i + k) as u64, ..base });
    extra_elsewhere(base, (i + k) as u64, base.extra_field, 0);
}

/// Central headers that have something before them tell the same, but for where things are.
proof fn entries_further_on(before: Seq<u8>, b: Seq<u8>, i: int, shift: u64, n: nat)
    requires
        0 <= i,
        entries_at(b, i, shift, n) is Ok,
        forall|j: int|
            0 <= j < entries_at(b, i, shift, n)->Ok_0.0.len() ==> (
            #[trigger] entries_at(b, i, shift, n)->Ok_0.0[j]).header_start + before.len()
                <= u64::MAX,
        shift + before.len() <= u64::MAX,
    ensures
        ({
            let k = before.len() as int;
            let (files, end) = entries_at(b, i, shift, n)->Ok_0;
            let further = entries_at(before + b, i + k, (shift + k) as u64, n);
            &&& i <= end
            &&& further is Ok
            &&& further->Ok_0.1 == end + k
            &&& further->Ok_0.0.len() == files.len() == n
            &&& forall|j: int|
                #![trigger further->Ok_0.0[j]]
                #![trigger files[j]]
                0 <= j < n ==> further->Ok_0.0[j] == (FileRecord {
                    header_start: (files[j].header_start + k) as u64,
                    central_header_start: further->Ok_0.0[j].central_header_start,
                    ..files[j]
                })
        }),
    decreases n,
{
    if n > 0 {
        let k = before.len() as int;
        let (files, end) = entries_at(b, i, shift, n)->Ok_0;
        let (first, next) = entries_at(b, i, shift, (n - 1) as nat)->Ok_0;
        assert(files.drop_last() =~= first);
        assert forall|j: int| 0 <= j < first.len() implies (#[trigger] first[j]).header_start
            + before.len() <= u64::MAX by {
            assert(files[j] == first[j]);
        }
        entries_further_on(before, b, i, shift, (n - 1) as nat);
        assert(files[n - 1] == entry_at(b, next, shift)->Ok_0.0);
        entry_further_on(before, b, next, shift);
        let further = entries_at(before + b, i + k, (shift + k) as u64, n)->Ok_0.0;
        let further_first = entries_at(
            before + b,
            i + k,
            (shift + k) as u64,
            (n - 1) as nat,
        )->Ok_0.0;
        assert forall|j: int|
            #![trigger further[j]]
            #![trigger files[j]]
            0 <= j < n implies further[j] == (FileRecord {
            header_start: (files[j].header_start + k) as u64,
            central_header_start: further[j].central_header_start,
            ..files[j]
        }) by {
            if j < n - 1 {
                assert(further[j] == further_first[j]);
                assert(files[j] == first[j]);
            }
        }
    }
}

/// The search for the end record comes upon the same one when something is put before the bytes.
proof fn last_footer_further_on(before: Seq<u8>, b: Seq<u8>, from: int, lo: int, lo2: int)
    requires
        last_footer(b, from, lo) is Some,
        0 <= lo,
        lo2 <= lo + before.len(),
        from + 4 <= b.len(),
    ensures
        last_footer(before + b, from + before.len(), lo2) == Some(
            last_footer(b, from, lo)->0 + before.len(),
        ),
        lo <= last_footer(b, from, lo)->0 <= from,
    decreases from - lo + 1,
{
    let k = before.len() as int;
    assert(stands_at(before + b, k, b)) by {
        assert((before + b).subrange(k, k + b.len()) =~= b);
    }
    if from >= lo {
        read_within(before + b, k, b, from);
        if u32_at(b, from) != 0x06054b50 {
            last_footer_further_on(before, b, from - 1, lo, lo2);
        }
    }
}

/// An archive that has something before it is read as if it had not: with the same entries, in the
/// same order, the same bytes stored for each of them, and the same comment. Its offset tells how
/// much there is before it, and everything is that much further along.
///
/// If the archive has a ZIP64 record at its end, nothing between where that would be by itself and
/// where it is may begin as one.
#[verifier::rlimit(40)]
pub proof fn prepended_archive_reads_alike(before: Seq<u8>, b: Seq<u8>, strict: bool)
    requires
        archive_of(b, strict) is Ok,
        (before + b).len() <= isize::MAX,
        ({
            let (footer, at) = footer_found(b)->Ok_0;
            let comment = archive_of(b, strict)->Ok_0.comment;
            &&& b.len() >= 42 + comment.len()
            &&& locator_at(b, b.len() - 42 - comment.len()) matches Ok(locator) ==> {
                let nominal = locator.end_of_central_directory_offset as int;
                let found = zip64_end_found(b, nominal, nominal, at - 60);
                forall|j: int|
                    nominal <= j < nominal + found->Ok_0.1 + before.len() ==> #[trigger] u32_at(
                        before + b,
                        j,
                    ) != 0x06064b50
            }
        }),
        archive_of(b, strict)->Ok_0.directory_start + before.len() <= u64::MAX,
        forall|j: int|
            0 <= j < archive_of(b, strict)->Ok_0.files.len() ==> (
            #[trigger] archive_of(b, strict)->Ok_0.files[j]).header_start + before.len()
                <= u64::MAX,
    ensures
        ({
            let k = before.len() as int;
            let plain = archive_of(b, strict)->Ok_0;
            let read = archive_of(before + b, strict)->Ok_0;
            &&& archive_of(before + b, strict) is Ok
            &&& read.offset == plain.offset + k
            &&& read.directory_start == plain.directory_start + k
            &&& read.comment == plain.comment
            &&& read.files.len() == plain.files.len()
            &&& forall|j: int|
                #![trigger read.files[j]]
                #![trigger plain.files[j]]
                0 <= j < plain.files.len() ==> {
                    let f = plain.files[j];
                    let g = read.files[j];
                    &&& g == (FileRecord {
                        header_start: (f.header_start + k) as u64,
                        central_header_start: g.central_header_start,
                        ..f
                    })
                    &&& stored_bytes(b, f) is Ok ==> stored_bytes(before + b, g) == stored_bytes(
                        b,
                        f,
                    )
                }
        }),
{
    let k = before.len() as int;
    let whole = before + b;
    let plain = archive_of(b, strict)->Ok_0;
    let (footer, at) = footer_found(b)->Ok_0;
    let (offset, start, count) = directory_counts(b, footer, at)->Ok_0;
    counts_further_on(before, b);
    let files = entries_at(b, start as int, offset, count as nat)->Ok_0.0;
    assert(plain.files == files);
    entries_further_on(before, b, start as int, offset, count as nat);
    let read = archive_of(whole, strict)->Ok_0;
    assert forall|j: int|
        #![trigger read.files[j]]
        #![trigger plain.files[j]]
        0 <= j < plain.files.len() implies {
        let f = plain.files[j];
        let g = read.files[j];
        &&& g == (FileRecord {
            header_start: (f.header_start + k) as u64,
            central_header_start: g.central_header_start,
            ..f
        })
        &&& stored_bytes(b, f) is Ok ==> stored_bytes(whole, g) == stored_bytes(b, f)
    } by {
        if stored_bytes(b, plain.files[j]) is Ok {
            stored_further_on(before, b, plain.files[j], read.files[j]);
        }
    }
}

/// The end record is found as much further along as there is before it, and so is all that it
/// tells of.
proof fn counts_further_on(before: Seq<u8>, b: Seq<u8>)
    requires
        footer_found(b) is Ok,
        directory_counts(b, footer_found(b)->Ok_0.0, footer_found(b)->Ok_0.1) is Ok,
        (before + b).len() <= isize::MAX,
        ({
            let (footer, at) = footer_found(b)->Ok_0;
            let comment = footer.zip_file_comment;
            &&& b.len() >= 42 + comment.len()
            &&& locator_at(b, b.len() - 42 - comment.len()) matches Ok(locator) ==> {
                let nominal = locator.end_of_central_directory_offset as int;
                let found = zip64_end_found(b, nominal, nominal, at - 60);
                forall|j: int|
                    nominal <= j < nominal + found->Ok_0.1 + before.len() ==> #[trigger] u32_at(
                        before + b,
                        j,
                    ) != 0x06064b50
            }
            &&& directory_counts(b, footer, at)->Ok_0.1 + before.len() <= u64::MAX
        }),
    ensures
        ({
            let k = before.len() as int;
            let (footer, at) = footer_found(b)->Ok_0;
            let (offset, start, count) = directory_counts(b, footer, at)->Ok_0;
            &&& footer_found(before + b) == Ok::<(Footer, int), ZipError>((footer, at + k))
            &&& directory_counts(before + b, footer, at + k) == Ok::<(u64, u64, usize), ZipError>(
                ((offset + k) as u64, (start + k) as u64, count),
            )
            &&& offset + k <= u64::MAX
            &&& start + k <= u64::MAX
        }),
{
    let k = before.len() as int;
    let whole = before + b;
    let (footer, at) = footer_found(b)->Ok_0;
    let lo = footer_search_start(b.len() as int);
    let lo2 = footer_search_start(whole.len() as int);
    last_footer_further_on(before, b, b.len() - 22, lo, lo2);
    assert(whole.len() - 22 == b.len() - 22 + k);
    assert(stands_at(whole, k, b)) by {
        assert(whole.subrange(k, k + b.len()) =~= b);
    }
    read_within(whole, k, b, at);
    read_within(whole, k, b, at + 4);
    read_within(whole, k, b, at + 6);
    read_within(whole, k, b, at + 8);
    read_within(whole, k, b, at + 10);
    read_within(whole, k, b, at + 12);
    read_within(whole, k, b, at + 16);
    read_within(whole, k, b, at + 20);
    let n = u16_at(b, at + 20);
    assert(whole.subrange(at + k + 22, at + k + 22 + n) =~= b.subrange(at + 22, at + 22 + n));
    assert(footer_found(whole) == Ok::<(Footer, int), ZipError>((footer, at + k)));
    let locator = b.len() - 42 - footer.zip_file_comment.len();
    read_within(whole, k, b, locator);
    read_within(whole, k, b, locator + 4);
    read_within(whole, k, b, locator + 8);
    read_within(whole, k, b, locator + 16);
    if let Ok(told) = locator_at(b, locator) {
        assert(locator_at(whole, locator + k) == locator_at(b, locator));
        let nominal = told.end_of_central_directory_offset as int;
        let (end, shift) = zip64_end_found(b, nominal, nominal, at - 60)->Ok_0;
        zip64_end_bounds(b, nominal, nominal, at - 60);
        let p = nominal + shift;
        read_within(whole, k, b, p);
        read_within(whole, k, b, p + 12);
        read_within(whole, k, b, p + 14);
        read_within(whole, k, b, p + 16);
        read_within(whole, k, b, p + 20);
        read_within(whole, k, b, p + 24);
        read_within(whole, k, b, p + 32);
        read_within(whole, k, b, p + 40);
        read_within(whole, k, b, p + 48);
        zip64_end_at(whole, nominal, nominal, p + k, at + k - 60);
        assert(zip64_end_fields(whole, p + k) == zip64_end_fields(b, p));
    } else {
        assert(!(locator_at(whole, locator + k) is Ok));
    }
    assert(b.len() - (20 + 22 + footer.zip_file_comment.len()) == locator);
    assert(whole.len() - (20 + 22 + footer.zip_file_comment.len()) == locator + k);
}

/// The ZIP64 end record that is found is all there, in the bounds of the search.
proof fn zip64_end_bounds(b: Seq<u8>, nominal: int, pos: int, hi: int)
    requires
        zip64_end_found(b, nominal, pos, hi) is Ok,
    ensures
        ({
            let (end, shift) = zip64_end_found(b, nominal, pos, hi)->Ok_0;
            &&& pos <= nominal + shift <= hi
            &&& nominal + shift + 56 <= b.len()
            &&& u32_at(b, nominal + shift) == 0x06064b50
            &&& end == zip64_end_fields(b, nominal + shift)
        }),
    decreases hi - pos + 1,
{
    if u32_at(b, pos) != 0x06064b50 {
        zip64_end_bounds(b, nominal, pos + 1, hi);
    }
}

/// The first thing that begins as a ZIP64 end record does is the one that is found.
proof fn zip64_end_at(b: Seq<u8>, nominal: int, pos: int, p: int, hi: int)
    requires
        pos <= p <= hi,
        p + 56 <= b.len(),
        u32_at(b, p) == 0x06064b50,
        forall|j: int| pos <= j < p ==> #[trigger] u32_at(b, j) != 0x06064b50,
    ensures
        zip64_end_found(b, nominal, pos, hi) == Ok::<(Zip64CentralDirectoryEnd, int), ZipError>(
            (zip64_end_fields(b, p), p - nominal),
        ),
    decreases p - pos,
{
    if pos < p {
        assert(u32_at(b, pos) != 0x06064b50);
        zip64_end_at(b, nominal, pos + 1, p, hi);
    }
}

/// What is stored for a file is the same where something is put before the bytes.
proof fn stored_further_on(before: Seq<u8>, b: Seq<u8>, f: FileRecord, g: FileRecord)
    requires
        (before + b).len() <= isize::MAX,
        stored_bytes(b, f) is Ok,
        g.header_start == f.header_start + before.len(),
        g.compressed_size == f.compressed_size,
    ensures
        stored_bytes(before + b, g) == stored_bytes(b, f),
{
    let k = before.len() as int;
    let whole = before + b;
    let h = f.header_start as int;
    assert(stands_at(whole, k, b)) by {
        assert(whole.subrange(k, k + b.len()) =~= b);
    }
    read_within(whole, k, b, h);
    read_within(whole, k, b, h + 26);
    read_within(whole, k, b, h + 28);
    let from = data_start_at(b, h)->Ok_0;
    assert(data_start_at(whole, h + k) == Ok::<int, ZipError>(from + k));
    assert(stored_bytes(whole, g)->Ok_0 =~= stored_bytes(b, f)->Ok_0);
}

/// What a request for a file is answered: a number that there is not, a file that is encrypted or
/// one that is stored in a way that cannot be undone is refused; else it is the bytes that follow
/// the local header, as many as the entry tells, or as there are.
pub proof fn answer_tells(b: Seq<u8>, files: Seq<FileRecord>, i: int)
    requires
        0 <= i,
        b.len() <= isize::MAX,
    ensures
        ({
            let f = files[i];
            let at = f.header_start as int;
            let start = at + 30 + u16_at(b, at + 26) + u16_at(b, at + 28);
            let r = answer(b, files, i);
            &&& i >= files.len() ==> r == Err::<Seq<u8>, ZipError>(ZipError::FileNotFound)
            &&& i < files.len() && f.encrypted ==> (r matches Err(e) && e is UnsupportedArchive)
            &&& i < files.len() && !(f.compression_method is Stored || f.compression_method
                is Deflated || f.compression_method is Bzip2 || f.compression_method is Zstd)
                ==> r is Err
            &&& i < files.len() && (at + 30 > b.len() || u32_at(b, at) != 0x04034b50) ==> r is Err
            &&& i < files.len() && !f.encrypted && at + 30 <= b.len() && u32_at(b, at) == 0x04034b50
                && (f.compression_method is Stored || f.compression_method is Deflated
                || f.compression_method is Bzip2 || f.compression_method is Zstd) ==> {
                &&& r is Ok
                &&& start + f.compressed_size <= b.len() ==> r->Ok_0 == b.subrange(
                    start,
                    start + f.compressed_size,
                )
                &&& start + f.compressed_size > b.len() && start <= b.len() ==> r->Ok_0
                    == b.subrange(start, b.len() as int)
                &&& start > b.len() ==> r->Ok_0.len() == 0
            }
        }),
{
    let f = files[i];
    let at = f.header_start as int;
    let start = at + 30 + u16_at(b, at + 26) + u16_at(b, at + 28);
    if start == b.len() {
        assert(b.subrange(start, start) =~= Seq::<u8>::empty());
        assert(b.skip(start) =~= Seq::<u8>::empty());
    } else if start < b.len() {
        assert(b.skip(start) =~= b.subrange(start, b.len() as int));
    }
}

/// The local header that is written for an entry: its signature, the version that is needed, the
/// flags, the way to store contents, the time, the checksum, the sizes, and the lengths of what
/// follows, which is the name and, for a large file, a ZIP64 record with the sizes.
pub proof fn local_header_is_laid_out(f: FileRecord)
    requires
        f.name_bytes().len() <= 0xffff,
        f.extra_field.len() == 0,
    ensures
        ({
            let h = f.local_header();
            let n = f.name_bytes().len() as int;
            &&& h.len() == 30 + n + if f.large_file {
                20int
            } else {
                0
            }
            &&& u32_at(h, 0) == 0x04034b50
            &&& u16_at(h, 4) == if f.compression_method is Bzip2 {
                46int
            } else {
                20
            }
            &&& u16_at(h, 6) == if is_ascii_chars(f.file_name) {
                0int
            } else {
                0x800
            }
            &&& u16_at(h, 8) == f.compression_method.code()
            &&& u16_at(h, 10) == f.last_modified_time.timepart()
            &&& u16_at(h, 12) == f.last_modified_time.datepart()
            &&& u32_at(h, 14) == f.crc32
            &&& u16_at(h, 26) == n
            &&& h.subrange(30, 30 + n) == encode_utf8(f.file_name)
            &&& !f.large_file ==> {
                &&& u16_at(h, 28) == 0
                &&& f.compressed_size <= 0xffff_ffff ==> u32_at(h, 18) == f.compressed_size
                &&& f.uncompressed_size <= 0xffff_ffff ==> u32_at(h, 22) == f.uncompressed_size
            }
            &&& f.large_file ==> {
                &&& u16_at(h, 28) == 20
                &&& u32_at(h, 18) == 0xffff_ffff
                &&& u32_at(h, 22) == 0xffff_ffff
                &&& u16_at(h, 30 + n) == 1
                &&& u16_at(h, 30 + n + 2) == 16
                &&& u64_at(h, 30 + n + 4) == f.uncompressed_size
                &&& u64_at(h, 30 + n + 12) == f.compressed_size
            }
        }),
{
    header_lengths(f);
    reveal(FileRecord::local_fixed);
    reveal(FileRecord::local_header);
    let h = f.local_header();
    let n = f.name_bytes().len() as int;
    assert(h.subrange(0, 4) =~= u32_bytes(0x04034b50));
    u32_at_of_bytes(h, 0, 0x04034b50);
    assert(h.subrange(4, 6) =~= u16_bytes(f.version_needed()));
    u16_at_of_bytes(h, 4, f.version_needed());
    assert(h.subrange(6, 8) =~= u16_bytes(f.flags()));
    u16_at_of_bytes(h, 6, f.flags());
    assert(h.subrange(8, 10) =~= u16_bytes(f.compression_method.code()));
    u16_at_of_bytes(h, 8, f.compression_method.code());
    assert(h.subrange(10, 12) =~= u16_bytes(f.last_modified_time.timepart()));
    u16_at_of_bytes(h, 10, f.last_modified_time.timepart());
    assert(h.subrange(12, 14) =~= u16_bytes(f.last_modified_time.datepart()));
    u16_at_of_bytes(h, 12, f.last_modified_time.datepart());
    assert(h.subrange(14, 18) =~= u32_bytes(f.crc32));
    u32_at_of_bytes(h, 14, f.crc32);
    assert(h.subrange(26, 28) =~= u16_bytes(n as u16));
    u16_at_of_bytes(h, 26, n as u16);
    assert(h.subrange(28, 30) =~= u16_bytes(f.local_extra_len()));
    u16_at_of_bytes(h, 28, f.local_extra_len());
    assert(h.subrange(30, 30 + n) =~= encode_utf8(f.file_name));
    if f.large_file {
        assert(h.subrange(18, 22) =~= u32_bytes(0xffff_ffff));
        u32_at_of_bytes(h, 18, 0xffff_ffff);
        assert(h.subrange(22, 26) =~= u32_bytes(0xffff_ffff));
        u32_at_of_bytes(h, 22, 0xffff_ffff);
        assert(h.subrange(30 + n, 30 + n + 2) =~= u16_bytes(1));
        u16_at_of_bytes(h, 30 + n, 1);
        assert(h.subrange(30 + n + 2, 30 + n + 4) =~= u16_bytes(16));
        u16_at_of_bytes(h, 30 + n + 2, 16);
        assert(h.subrange(30 + n + 4, 30 + n + 12) =~= u64_bytes(f.uncompressed_size));
        u64_at_of_bytes(h, 30 + n + 4, f.uncompressed_size);
        assert(h.subrange(30 + n + 12, 30 + n + 20) =~= u64_bytes(f.compressed_size));
        u64_at_of_bytes(h, 30 + n + 12, f.compressed_size);
    } else {
        assert(h.subrange(18, 22) =~= u32_bytes(f.compressed_size as u32));
        u32_at_of_bytes(h, 18, f.compressed_size as u32);
        assert(h.subrange(22, 26) =~= u32_bytes(f.uncompressed_size as u32));
        u32_at_of_bytes(h, 22, f.uncompressed_size as u32);
    }
}

/// Once a local header is completed, the checksum and the sizes of the entry stand in it, in their
/// places or, for a large file, in the ZIP64 record after the name. Nothing else changes.
pub proof fn completed_local_header_tells(b: Seq<u8>, f: FileRecord)
    requires
        f.header_start + 30 + f.name_bytes().len() + f.local_zip64_len() <= b.len(),
        f.large_file || (f.compressed_size <= 0xffff_ffff && f.uncompressed_size <= 0xffff_ffff),
    ensures
        ({
            let c = local_patched(b, f);
            let at = f.header_start as int;
            let sizes = at + 30 + f.name_bytes().len() + 4;
            &&& c.len() == b.len()
            &&& u32_at(c, at + 14) == f.crc32
            &&& !f.large_file ==> {
                &&& u32_at(c, at + 18) == f.compressed_size
                &&& u32_at(c, at + 22) == f.uncompressed_size
                &&& forall|i: int|
                    0 <= i < b.len() && !(at + 14 <= i < at + 26) ==> #[trigger] c[i] == b[i]
            }
            &&& f.large_file ==> {
                &&& u64_at(c, sizes) == f.uncompressed_size
                &&& u64_at(c, sizes + 8) == f.compressed_size
                &&& forall|i: int|
                    0 <= i < b.len() && !(at + 14 <= i < at + 18) && !(sizes <= i < sizes + 16)
                        ==> #[trigger] c[i] == b[i]
            }
        }),
{
    reveal(local_patched);
    let c = local_patched(b, f);
    let at = f.header_start as int;
    let sizes = at + 30 + f.name_bytes().len() + 4;
    if f.large_file {
        let d = overlay(b, at + 14, u32_bytes(f.crc32));
        overlay_facts(b, at + 14, u32_bytes(f.crc32));
        overlay_facts(d, sizes, f.zip64_sizes());
        assert(c.subrange(at + 14, at + 18) =~= u32_bytes(f.crc32));
        u32_at_of_bytes(c, at + 14, f.crc32);
        assert(c.subrange(sizes, sizes + 8) =~= u64_bytes(f.uncompressed_size));
        u64_at_of_bytes(c, sizes, f.uncompressed_size);
        assert(c.subrange(sizes + 8, sizes + 16) =~= u64_bytes(f.compressed_size));
        u64_at_of_bytes(c, sizes + 8, f.compressed_size);
    } else {
        let part = u32_bytes(f.crc32) + u32_bytes(f.compressed_size as u32) + u32_bytes(
            f.uncompressed_size as u32,
        );
        overlay_facts(b, at + 14, part);
        assert(c.subrange(at + 14, at + 18) =~= u32_bytes(f.crc32));
        u32_at_of_bytes(c, at + 14, f.crc32);
        assert(c.subrange(at + 18, at + 22) =~= u32_bytes(f.compressed_size as u32));
        u32_at_of_bytes(c, at + 18, f.compressed_size as u32);
        assert(c.subrange(at + 22, at + 26) =~= u32_bytes(f.uncompressed_size as u32));
        u32_at_of_bytes(c, at + 22, f.uncompressed_size as u32);
    }
}

/// The central header that is written for an entry: its signature, the version and system that it
/// was made by, the version that is needed, the flags, the way to store contents, the time, the
/// checksum, the sizes, the lengths of what follows, the attributes and where the local header is.
/// What follows is the name, a ZIP64 record if a size or the offset needs one, and the extra data.
pub proof fn central_header_is_laid_out(f: FileRecord)
    requires
        f.name_bytes().len() <= 0xffff,
        f.central_zip64().len() + f.extra_field.len() <= 0xffff,
    ensures
        ({
            let h = f.central_header(false);
            let n = f.name_bytes().len() as int;
            let m = f.central_zip64().len() as int;
            let large = |x: u64| x > 0xffff_ffff;
            let at_uncompressed = 46 + n + 4;
            let at_compressed = at_uncompressed + if large(f.uncompressed_size) {
                8int
            } else {
                0
            };
            let at_offset = at_compressed + if large(f.compressed_size) {
                8int
            } else {
                0
            };
            &&& h.len() == 46 + n + m + f.extra_field.len()
            &&& u32_at(h, 0) == 0x02014b50
            &&& u16_at(h, 4) == (f.system.code() * 256 + f.version_made_by) as u16
            &&& u16_at(h, 6) == if f.compression_method is Bzip2 {
                46int
            } else {
                20
            }
            &&& u16_at(h, 8) == if is_ascii_chars(f.file_name) {
                0int
            } else {
                0x800
            }
            &&& u16_at(h, 10) == f.compression_method.code()
            &&& u16_at(h, 12) == f.last_modified_time.timepart()
            &&& u16_at(h, 14) == f.last_modified_time.datepart()
            &&& u32_at(h, 16) == f.crc32
            &&& u32_at(h, 20) == if large(f.compressed_size) {
                0xffff_ffffu64
            } else {
                f.compressed_size
            }
            &&& u32_at(h, 24) == if large(f.uncompressed_size) {
                0xffff_ffffu64
            } else {
                f.uncompressed_size
            }
            &&& u16_at(h, 28) == n
            &&& u16_at(h, 30) == m + f.extra_field.len()
            &&& u16_at(h, 32) == 0
            &&& u16_at(h, 34) == 0
            &&& u16_at(h, 36) == 0
            &&& u32_at(h, 38) == f.external_attributes
            &&& u32_at(h, 42) == if large(f.header_start) {
                0xffff_ffffu64
            } else {
                f.header_start
            }
            &&& h.subrange(46, 46 + n) == encode_utf8(f.file_name)
            &&& h.subrange(46 + n + m, h.len() as int) == f.extra_field
            &&& m == 0 <==> !large(f.uncompressed_size) && !large(f.compressed_size) && !large(
                f.header_start,
            )
            &&& m > 0 ==> u16_at(h, 46 + n) == 1 && u16_at(h, 46 + n + 2) == m - 4
            &&& large(f.uncompressed_size) ==> u64_at(h, at_uncompressed) == f.uncompressed_size
            &&& large(f.compressed_size) ==> u64_at(h, at_compressed) == f.compressed_size
            &&& large(f.header_start) ==> u64_at(h, at_offset) == f.header_start
        }),
{
    header_lengths(f);
    central_fixed_first(f, false);
    central_fixed_second(f, false);
    reveal(FileRecord::central_header);
    reveal(FileRecord::central_zip64);
    let h = f.central_header(false);
    let n = f.name_bytes().len() as int;
    let m = f.central_zip64().len() as int;
    let fixed = f.central_fixed(false);
    assert(stands_at(h, 0, fixed)) by {
        assert(h.subrange(0, 46) =~= fixed);
    }
    assert(u16_at(fixed, 6) == f.version_needed() && u16_at(fixed, 34) == 0 && u16_at(fixed, 36)
        == 0) by {
        reveal(FileRecord::central_fixed);
        assert(fixed.subrange(6, 8) =~= u16_bytes(f.version_needed()));
        u16_at_of_bytes(fixed, 6, f.version_needed());
        assert(fixed.subrange(34, 36) =~= u16_bytes(0));
        u16_at_of_bytes(fixed, 34, 0);
        assert(fixed.subrange(36, 38) =~= u16_bytes(0));
        u16_at_of_bytes(fixed, 36, 0);
    }
    read_within(h, 0, fixed, 0);
    read_within(h, 0, fixed, 4);
    read_within(h, 0, fixed, 6);
    read_within(h, 0, fixed, 8);
    read_within(h, 0, fixed, 10);
    read_within(h, 0, fixed, 12);
    read_within(h, 0, fixed, 14);
    read_within(h, 0, fixed, 16);
    read_within(h, 0, fixed, 20);
    read_within(h, 0, fixed, 24);
    read_within(h, 0, fixed, 28);
    read_within(h, 0, fixed, 30);
    read_within(h, 0, fixed, 32);
    read_within(h, 0, fixed, 34);
    read_within(h, 0, fixed, 36);
    read_within(h, 0, fixed, 38);
    read_within(h, 0, fixed, 42);
    assert(h.subrange(46, 46 + n) =~= encode_utf8(f.file_name));
    assert(h.subrange(46 + n + m, h.len() as int) =~= f.extra_field);
    let at_uncompressed = 46 + n + 4;
    let at_compressed = at_uncompressed + if f.uncompressed_size > 0xffff_ffff {
        8int
    } else {
        0
    };
    let at_offset = at_compressed + if f.compressed_size > 0xffff_ffff {
        8int
    } else {
        0
    };
    if m > 0 {
        assert(h.subrange(46 + n, 46 + n + 2) =~= u16_bytes(1));
        u16_at_of_bytes(h, 46 + n, 1);
        assert(h.subrange(46 + n + 2, 46 + n + 4) =~= u16_bytes((m - 4) as u16));
        u16_at_of_bytes(h, 46 + n + 2, (m - 4) as u16);
    }
    if f.uncompressed_size > 0xffff_ffff {
        assert(h.subrange(at_uncompressed, at_uncompressed + 8) =~= u64_bytes(f.uncompressed_size));
        u64_at_of_bytes(h, at_uncompressed, f.uncompressed_size);
    }
    if f.compressed_size > 0xffff_ffff {
        assert(h.subrange(at_compressed, at_compressed + 8) =~= u64_bytes(f.compressed_size));
        u64_at_of_bytes(h, at_compressed, f.compressed_size);
    }
    if f.header_start > 0xffff_ffff {
        assert(h.subrange(at_offset, at_offset + 8) =~= u64_bytes(f.header_start));
        u64_at_of_bytes(h, at_offset, f.header_start);
    }
}

/// The end of an archive: how many entries there are, where their central headers start, how long
/// they are, and the comment. Where one of these is too large for its place, a ZIP64 record before
/// it tells, and a locator tells where that is.
pub proof fn directory_end_is_laid_out(n: nat, start: nat, size: nat, comment: Seq<u8>)
    requires
        n <= u64::MAX,
        start + size <= u64::MAX,
        comment.len() <= 0xffff,
    ensures
        ({
            let e = directory_end(n, start, size, comment);
            let large = n > 0xffff || start > 0xffff_ffff || size > 0xffff_ffff;
            let at = if large {
                76int
            } else {
                0
            };
            &&& e.len() == at + 22 + comment.len()
            &&& u32_at(e, at) == 0x06054b50
            &&& u16_at(e, at + 4) == 0
            &&& u16_at(e, at + 6) == 0
            &&& u16_at(e, at + 8) == if n > 0xffff {
                0xffffnat
            } else {
                n
            }
            &&& u16_at(e, at + 10) == u16_at(e, at + 8)
            &&& u32_at(e, at + 12) == if size > 0xffff_ffff {
                0xffff_ffffnat
            } else {
                size
            }
            &&& u32_at(e, at + 16) == if start > 0xffff_ffff {
                0xffff_ffffnat
            } else {
                start
            }
            &&& u16_at(e, at + 20) == comment.len()
            &&& e.subrange(at + 22, e.len() as int) == comment
            &&& large ==> {
                &&& u32_at(e, 0) == 0x06064b50
                &&& u64_at(e, 4) == 44
                &&& u16_at(e, 12) == 46
                &&& u16_at(e, 14) == 46
                &&& u32_at(e, 16) == 0
                &&& u32_at(e, 20) == 0
                &&& u64_at(e, 24) == n
                &&& u64_at(e, 32) == n
                &&& u64_at(e, 40) == size
                &&& u64_at(e, 48) == start
                &&& u32_at(e, 56) == 0x07064b50
                &&& u32_at(e, 60) == 0
                &&& u64_at(e, 64) == start + size
                &&& u32_at(e, 72) == 1
            }
        }),
{
    reveal(Footer::bytes);
    reveal(Zip64CentralDirectoryEnd::bytes);
    reveal(Zip64CentralDirectoryEndLocator::bytes);
    let e = directory_end(n, start, size, comment);
    let large = needs_zip64(n, start, size);
    let at = if large {
        76int
    } else {
        0
    };
    let footer = footer_for(n, start, size, comment);
    assert(stands_at(e, at, footer.bytes())) by {
        assert(e.subrange(at, e.len() as int) =~= footer.bytes());
    }
    footer_at_of_bytes(e, at, footer);
    let count = footer.number_of_files;
    assert(u16_at(e, at + 20) == comment.len()) by {
        assert(e.subrange(at + 20, at + 22) =~= u16_bytes(comment.len() as u16));
        u16_at_of_bytes(e, at + 20, comment.len() as u16);
    }
    assert(e.subrange(at + 22, e.len() as int) =~= comment);
    if large {
        let end = zip64_end_for(n, start, size);
        let locator = locator_for(start + size);
        assert(e.subrange(0, 56) =~= end.bytes());
        zip64_end_of_bytes(e, 0, 0, end);
        assert(e.subrange(4, 12) =~= u64_bytes(44));
        u64_at_of_bytes(e, 4, 44);
        assert(e.subrange(56, 76) =~= locator.bytes());
        locator_at_of_bytes(e, 56, locator);
        assert(e.subrange(0, 4) =~= u32_bytes(0x06064b50));
        u32_at_of_bytes(e, 0, 0x06064b50);
        assert(e.subrange(56, 60) =~= u32_bytes(0x07064b50));
        u32_at_of_bytes(e, 56, 0x07064b50);
    }
}

/// An archive that is spread over several disks is refused: where the end record tells that the
/// central directory is on another disk than it is itself.
pub proof fn many_disks_are_refused(b: Seq<u8>)
    requires
        footer_found(b) is Ok,
        footer_found(b)->Ok_0.0.disk_number != footer_found(b)->Ok_0.0.disk_with_central_directory,
    ensures
        archive_of(b, true) matches Err(e) && e is UnsupportedArchive,
        !footer_found(b)->Ok_0.0.too_small() ==> (archive_of(b, false) matches Err(e) && e
            is UnsupportedArchive),
{
}

/// What an archive tells comes from its end record and its central headers: its comment is that of
/// the end record, it has as many entries as are told, and each is what is read as a central
/// header, the first where the directory starts, and the others right after each other.
pub proof fn archive_is_what_its_records_tell(b: Seq<u8>, strict: bool)
    requires
        archive_of(b, strict) is Ok,
        b.len() <= usize::MAX,
    ensures
        ({
            let a = archive_of(b, strict)->Ok_0;
            let (footer, at) = footer_found(b)->Ok_0;
            let locator = b.len() - 42 - footer.zip_file_comment.len();
            &&& footer_found(b) is Ok
            &&& a.comment == footer.zip_file_comment
            &&& entries_at(b, a.directory_start as int, a.offset, a.files.len()) is Ok
            &&& entries_at(b, a.directory_start as int, a.offset, a.files.len())->Ok_0.0 == a.files
            &&& locator < 0 || !(locator_at(b, locator) is Ok) ==> {
                &&& a.files.len() == footer.number_of_files_on_this_disk
                &&& a.directory_start == at - footer.central_directory_size
                &&& a.offset == a.directory_start - footer.central_directory_offset
            }
            &&& locator >= 0 && locator_at(b, locator) is Ok ==> {
                let nominal = locator_at(b, locator)->Ok_0.end_of_central_directory_offset as int;
                let (end, shift) = zip64_end_found(b, nominal, nominal, at - 60)->Ok_0;
                &&& end.number_of_files <= usize::MAX ==> a.files.len() == end.number_of_files
                &&& a.directory_start == end.central_directory_offset + shift
                &&& a.offset == shift
                &&& end.disk_number == end.disk_with_central_directory
            }
        }),
{
    let (footer, at) = footer_found(b)->Ok_0;
    let (offset, start, n) = directory_counts(b, footer, at)->Ok_0;
    entries_are_as_many(b, start as int, offset, n as nat);
    end_record_is_found(b);
    let locator = b.len() - 42 - footer.zip_file_comment.len();
    if locator >= 0 && locator_at(b, locator) is Ok {
        let nominal = locator_at(b, locator)->Ok_0.end_of_central_directory_offset as int;
        zip64_end_bounds(b, nominal, nominal, at - 60);
    }
}

proof fn entries_are_as_many(b: Seq<u8>, i: int, shift: u64, n: nat)
    ensures
        entries_at(b, i, shift, n) matches Ok((files, _)) ==> files.len() == n,
    decreases n,
{
    if n > 0 {
        entries_are_as_many(b, i, shift, (n - 1) as nat);
    }
}

/// The central header of a streamed archive is that of another, but that it tells whether the file
/// is encrypted, and does not count the extra data after the ZIP64 record.
pub proof fn streamed_central_header_is_laid_out(f: FileRecord)
    requires
        f.name_bytes().len() <= 0xffff,
    ensures
        ({
            let h = f.central_header(true);
            let p = f.central_header(false);
            &&& h.len() == p.len()
            &&& forall|i: int|
                0 <= i < h.len() && !(8 <= i < 10) && !(30 <= i < 32) ==> #[trigger] h[i] == p[i]
            &&& u16_at(h, 8) == (if is_ascii_chars(f.file_name) {
                0int
            } else {
                0x800
            }) + (if f.encrypted {
                1int
            } else {
                0
            })
            &&& u16_at(h, 30) == f.central_zip64().len()
        }),
{
    header_lengths(f);
    central_fixed_first(f, true);
    central_fixed_second(f, true);
    reveal(FileRecord::central_header);
    let h = f.central_header(true);
    let p = f.central_header(false);
    let fixed = f.central_fixed(true);
    let plain = f.central_fixed(false);
    assert(stands_at(h, 0, fixed)) by {
        assert(h.subrange(0, 46) =~= fixed);
    }
    read_within(h, 0, fixed, 8);
    read_within(h, 0, fixed, 30);
    assert forall|i: int| 0 <= i < 46 && !(8 <= i < 10) && !(30 <= i < 32) implies fixed[i]
        == plain[i] by {
        reveal(FileRecord::central_fixed);
    }
    assert forall|i: int| 0 <= i < h.len() && !(8 <= i < 10) && !(30 <= i < 32) implies
        #[trigger] h[i] == p[i] by {
        if i < 46 {
            assert(h[i] == fixed[i] && p[i] == plain[i]);
        }
    }
}

/// An AES record that is not of a scheme or of a strength that there is, or not from the vendor
/// that there is, is refused.
pub proof fn aes_records_are_refused(
    f: FileRecord,
    version: u16,
    vendor: u16,
    strength: u8,
    method: u16,
    shift: u64,
)
    requires
        f.extra_field == u16_bytes(0x9901) + u16_bytes(7) + u16_bytes(version) + u16_bytes(vendor)
            + seq![strength] + u16_bytes(method),
        vendor != 0x4541 || version < 1 || version > 2 || strength < 1 || strength > 3,
    ensures
        entry_of(f, shift) matches Err(e) && e is InvalidArchive,
{
    reveal(aes_applied);
    let x = f.extra_field;
    assert(x.len() == 11);
    assert(x.subrange(0, 2) =~= u16_bytes(0x9901));
    assert(x.subrange(2, 4) =~= u16_bytes(7));
    assert(x.subrange(4, 6) =~= u16_bytes(version));
    assert(x.subrange(6, 8) =~= u16_bytes(vendor));
    assert(x[8] == strength);
    u16_at_of_bytes(x, 0, 0x9901);
    u16_at_of_bytes(x, 2, 7);
    u16_at_of_bytes(x, 4, version);
    u16_at_of_bytes(x, 6, vendor);
}

/// A file that is marked as encrypted with AES without a record that tells of it is refused.
pub proof fn aes_without_record_is_refused(f: FileRecord, shift: u64)
    requires
        inert(f.extra_field, 0, false),
        f.compression_method is AES,
        f.aes_mode is None,
    ensures
        entry_of(f, shift) matches Err(e) && e is InvalidArchive,
{
    inert_extra(f, f.extra_field, 0, false);
}

} // verus!
