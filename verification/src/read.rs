//! Types for reading ZIP archives.
use vstd::prelude::*;

use crate::bytes::{get_u16, get_u32, get_u64, u16_at, u32_at, u64_at};
use crate::compression::{method_of, CompressionMethod};
use crate::cp437::{cp437_text, from_cp437};
use crate::result::{eof, eof_error, ZipError, ZipResult};
use crate::spec::{
    footer_found, locator_at, piece, zip64_end_found, CentralDirectoryEnd, Footer,
    Zip64CentralDirectoryEnd, Zip64CentralDirectoryEndLocator, CENTRAL_DIRECTORY_HEADER_SIGNATURE,
    LOCAL_FILE_HEADER_SIGNATURE, ZIP64_BYTES_THR,
};
use crate::text::{from_utf8_lossy, utf8_text};
use crate::codec::{can_unpack, decoded};
use crate::crc32::crc32_of;
use crate::decoder::Unpacker;
use crate::stream::{Cursor, Readable};
use crate::tokio::crc32::{Checked, Crc32Reader, Feed, Left};
use crate::tokio::WrappedPin;
use crate::types::{
    moment_of, system_of, AesMode, AesVendorVersion, DateTime, FileRecord, System, ZipFileData,
};
use crate::util::{dos_parts, msdos_datetime_to_tm, Tm};
use vstd::hash_map::StringHashMap;

verus! {

/// What the end records say of the central directory: how far everything is
/// shifted from where the records place it, where the directory starts, and
/// how many headers it has.
pub open spec fn directory_counts(b: Seq<u8>, footer: Footer, cde_start: int) -> ZipResult<
    (u64, u64, usize),
> {
    let locator_pos = b.len() - (20 + 22 + footer.zip_file_comment.len());
    if locator_pos >= 0 && locator_at(b, locator_pos) is Ok {
        let locator = locator_at(b, locator_pos)->Ok_0;
        if !footer.too_small() && footer.disk_number != locator.disk_with_central_directory {
            Err(
                ZipError::UnsupportedArchive("Support for multi-disk files is not implemented"),
            )
        } else if cde_start < 60 {
            Err(ZipError::InvalidArchive("File cannot contain ZIP64 central directory end"))
        } else {
            let nominal = locator.end_of_central_directory_offset as int;
            match zip64_end_found(b, nominal, nominal, cde_start - 60) {
                Err(e) => Err(e),
                Ok((end, shift)) => if end.disk_number != end.disk_with_central_directory {
                    Err(
                        ZipError::UnsupportedArchive(
                            "Support for multi-disk files is not implemented",
                        ),
                    )
                } else if end.central_directory_offset + shift > u64::MAX {
                    Err(ZipError::InvalidArchive("Invalid central directory size or offset"))
                } else {
                    Ok(
                        (
                            shift as u64,
                            (end.central_directory_offset + shift) as u64,
                            end.number_of_files as usize,
                        ),
                    )
                },
            }
        }
    } else {
        let shift = cde_start - footer.central_directory_size - footer.central_directory_offset;
        if shift < 0 {
            Err(ZipError::InvalidArchive("Invalid central directory size or offset"))
        } else {
            Ok(
                (
                    shift as u64,
                    (footer.central_directory_offset + shift) as u64,
                    footer.number_of_files_on_this_disk as usize,
                ),
            )
        }
    }
}

/// Get the directory start offset and number of files, and how far both are
/// shifted. This is done in a separate function to ease the control flow
/// design.
pub fn get_directory_counts(data: &[u8], footer: &CentralDirectoryEnd, cde_start_pos: u64) -> (r:
    ZipResult<(u64, u64, usize)>)
    requires
        footer.zip_file_comment@.len() <= 0xffff,
    ensures
        r == directory_counts(data@, footer@, cde_start_pos as int),
{
    // See if there's a ZIP64 footer. The ZIP64 locator if present will
    // have its signature 20 bytes in front of the standard footer. The
    // standard footer, in turn, is 22+N bytes large, where N is the
    // comment length. Therefore:
    let back: usize = 20 + 22 + footer.zip_file_comment.len();
    let zip64locator: Option<Zip64CentralDirectoryEndLocator> = if data.len() >= back {
        match Zip64CentralDirectoryEndLocator::parse(data, data.len() - back) {
            Ok(locator) => Some(locator),
            // No ZIP64 header; that's actually fine. We're done here.
            Err(_) => None,
        }
    } else {
        // Empty Zip files will have nothing else so this might be fine. If
        // not, we'll find out soon.
        None
    };

    match zip64locator {
        None => {
            // Some zip files have data prepended to them, resulting in the
            // offsets all being too small. Get the amount of error by comparing
            // the actual file position we found the CDE at with the offset
            // recorded in the CDE.
            let size: u64 = footer.central_directory_size as u64;
            let offset: u64 = footer.central_directory_offset as u64;
            if cde_start_pos < size || cde_start_pos - size < offset {
                return Err(ZipError::InvalidArchive("Invalid central directory size or offset"));
            }
            let archive_offset: u64 = cde_start_pos - size - offset;
            let directory_start: u64 = offset + archive_offset;
            let number_of_files: usize = footer.number_of_files_on_this_disk as usize;
            Ok((archive_offset, directory_start, number_of_files))
        },
        Some(locator64) => {
            // If we got here, this is indeed a ZIP64 file.
            if !footer.record_too_small() && footer.disk_number as u32
                != locator64.disk_with_central_directory {
                return Err(
                    ZipError::UnsupportedArchive("Support for multi-disk files is not implemented"),
                );
            }
            // We need to reassess `archive_offset`. We know where the ZIP64
            // central-directory-end structure *should* be, but unfortunately we
            // don't know how to precisely relate that location to our current
            // actual offset in the file, since there may be junk at its
            // beginning. Therefore we need to perform another search, as for
            // the standard footer, except now we search forward.

            if cde_start_pos < 60 {
                // minimum size of Zip64CentralDirectoryEnd + Zip64CentralDirectoryEndLocator
                return Err(
                    ZipError::InvalidArchive("File cannot contain ZIP64 central directory end"),
                );
            }
            match Zip64CentralDirectoryEnd::find_and_parse(
                data,
                locator64.end_of_central_directory_offset,
                cde_start_pos - 60,
            ) {
                Err(e) => Err(e),
                Ok((end, archive_offset)) => {
                    if end.disk_number != end.disk_with_central_directory {
                        return Err(
                            ZipError::UnsupportedArchive(
                                "Support for multi-disk files is not implemented",
                            ),
                        );
                    }
                    match end.central_directory_offset.checked_add(archive_offset) {
                        None => Err(
                            ZipError::InvalidArchive("Invalid central directory size or offset"),
                        ),
                        Some(directory_start) => Ok(
                            (archive_offset, directory_start, end.number_of_files as usize),
                        ),
                    }
                },
            }
        },
    }
}

/// The text that raw bytes stand for: UTF-8 where the flags say so, and
/// codepage 437 where they do not.
pub open spec fn flagged_text(raw: Seq<u8>, is_utf8: bool) -> Seq<char> {
    if is_utf8 {
        utf8_text(raw)
    } else {
        cp437_text(raw)
    }
}

/// The text that raw bytes stand for.
fn decode_text(raw: &[u8], is_utf8: bool) -> (s: String)
    ensures
        s@ == flagged_text(raw@, is_utf8),
{
    if is_utf8 {
        from_utf8_lossy(raw)
    } else {
        from_cp437(raw)
    }
}

/// The length of the central header at `i`.
pub open spec fn central_len(b: Seq<u8>, i: int) -> int {
    46 + u16_at(b, i + 28) + u16_at(b, i + 30) + u16_at(b, i + 32)
}

/// What the central header at `i` says, before its extra field is looked at.
pub open spec fn central_fields(b: Seq<u8>, i: int) -> FileRecord {
    let flags = u16_at(b, i + 8);
    let is_utf8 = flags / 2048 % 2 == 1;
    let name_start = i + 46;
    let extra_start = name_start + u16_at(b, i + 28);
    let comment_start = extra_start + u16_at(b, i + 30);
    let name = b.subrange(name_start, extra_start);
    FileRecord {
        system: system_of((u16_at(b, i + 4) / 256) as u8),
        version_made_by: (u16_at(b, i + 4) % 256) as u8,
        encrypted: flags % 2 == 1,
        using_data_descriptor: flags / 8 % 2 == 1,
        compression_method: method_of(u16_at(b, i + 10)),
        compression_level: None,
        last_modified_time: moment_of(u16_at(b, i + 14), u16_at(b, i + 12)),
        crc32: u32_at(b, i + 16),
        compressed_size: u32_at(b, i + 20) as u64,
        uncompressed_size: u32_at(b, i + 24) as u64,
        file_name: flagged_text(name, is_utf8),
        file_name_raw: name,
        extra_field: b.subrange(extra_start, comment_start),
        file_comment: flagged_text(b.subrange(comment_start, i + central_len(b, i)), is_utf8),
        header_start: u32_at(b, i + 42) as u64,
        central_header_start: i as u64,
        data_start: 0,
        external_attributes: u32_at(b, i + 38),
        large_file: false,
        aes_mode: None,
    }
}

/// What a ZIP64 record, whose data begins at `p` in the extra field `x`, makes
/// of a file: each of three fields that is at its limit is taken from the next
/// eight bytes. Besides the file, where the data that was taken ends; `None`
/// if `x` ends before.
#[verifier::opaque]
pub open spec fn zip64_applied(f: FileRecord, x: Seq<u8>, p: int) -> (FileRecord, Option<int>) {
    let (f, p) = if f.uncompressed_size != ZIP64_BYTES_THR {
        (f, Some(p))
    } else if p + 8 > x.len() {
        (FileRecord { large_file: true, ..f }, None)
    } else {
        (FileRecord { large_file: true, uncompressed_size: u64_at(x, p), ..f }, Some(p + 8))
    };
    let (f, p) = match p {
        None => (f, None),
        Some(p) => if f.compressed_size != ZIP64_BYTES_THR {
            (f, Some(p))
        } else if p + 8 > x.len() {
            (FileRecord { large_file: true, ..f }, None)
        } else {
            (FileRecord { large_file: true, compressed_size: u64_at(x, p), ..f }, Some(p + 8))
        },
    };
    match p {
        None => (f, None),
        Some(p) => if f.header_start != ZIP64_BYTES_THR {
            (f, Some(p))
        } else if p + 8 > x.len() {
            (f, None)
        } else {
            (FileRecord { header_start: u64_at(x, p), ..f }, Some(p + 8))
        },
    }
}

/// The AES scheme and strength with the given numbers.
pub open spec fn aes_mode_of(version: u16, strength: u8) -> ZipResult<(AesMode, AesVendorVersion)> {
    if version != 1 && version != 2 {
        Err(ZipError::InvalidArchive("Invalid AES vendor version"))
    } else if strength < 1 || strength > 3 {
        Err(ZipError::InvalidArchive("Invalid AES encryption strength"))
    } else {
        Ok(
            (
                if strength == 1 {
                    AesMode::Aes128
                } else if strength == 2 {
                    AesMode::Aes192
                } else {
                    AesMode::Aes256
                },
                if version == 1 {
                    AesVendorVersion::Ae1
                } else {
                    AesVendorVersion::Ae2
                },
            ),
        )
    }
}

/// What an AES record, whose data begins at `p` in the extra field `x`, makes
/// of a file.
#[verifier::opaque]
pub open spec fn aes_applied(f: FileRecord, x: Seq<u8>, p: int, len: u16) -> ZipResult<
    FileRecord,
> {
    if len != 7 {
        Err(ZipError::UnsupportedArchive("AES extra data field has an unsupported length"))
    } else if p + 7 > x.len() {
        Err(eof())
    } else if u16_at(x, p + 2) != 0x4541 {
        Err(ZipError::InvalidArchive("Invalid AES vendor"))
    } else {
        match aes_mode_of(u16_at(x, p), x[p + 4]) {
            Err(e) => Err(e),
            Ok(mode) => Ok(
                FileRecord {
                    aes_mode: Some(mode),
                    compression_method: method_of(u16_at(x, p + 5)),
                    ..f
                },
            ),
        }
    }
}

/// What a record of an extra field leads to.
#[verifier::ext_equal]
pub ghost enum ExtraStep {
    /// The file as far as it got, and the error at which the walk stops.
    Stop(FileRecord, ZipError),
    /// The file, and where the next record begins.
    Next(FileRecord, int),
}

/// What the record at `p` of the extra field `x` makes of a file.
///
/// The record is skipped by its length, counted from where a ZIP64 record
/// begins, but from where an AES record ends.
pub open spec fn extra_step(f: FileRecord, x: Seq<u8>, p: int) -> ExtraStep {
    if p + 4 > x.len() {
        ExtraStep::Stop(f, eof())
    } else {
        let kind = u16_at(x, p);
        let len = u16_at(x, p + 2);
        if kind == 0x0001 {
            match zip64_applied(f, x, p + 4) {
                (g, None) => ExtraStep::Stop(g, eof()),
                (g, Some(end)) => ExtraStep::Next(
                    g,
                    if end < p + 4 + len {
                        p + 4 + len
                    } else {
                        end
                    },
                ),
            }
        } else if kind == 0x9901 {
            match aes_applied(f, x, p + 4, len) {
                Err(e) => ExtraStep::Stop(f, e),
                Ok(g) => ExtraStep::Next(g, p + 4 + 7 + len),
            }
        } else {
            ExtraStep::Next(f, p + 4 + len)
        }
    }
}

/// What the records of the extra field `x`, from the one at `p` on, make of a
/// file. Besides the file as far as it got, the error at which the walk
/// stopped, if any.
pub open spec fn extra_applied(f: FileRecord, x: Seq<u8>, p: int) -> (FileRecord, Option<ZipError>)
    decreases
            if p >= x.len() {
                0
            } else {
                x.len() - p
            },
{
    if p >= x.len() {
        (f, None)
    } else {
        match extra_step(f, x, p) {
            ExtraStep::Stop(g, e) => (g, Some(e)),
            ExtraStep::Next(g, q) => extra_applied(g, x, q),
        }
    }
}

/// What a central header makes of a file once its extra field was looked at:
/// an extra field that ends too early is taken as far as it goes, and
/// everything is shifted by `shift`.
pub open spec fn entry_of(base: FileRecord, shift: u64) -> ZipResult<FileRecord> {
    let (f, stop) = extra_applied(base, base.extra_field, 0);
    if stop matches Some(e) && !(e is Io) {
        Err(stop->0)
    } else if f.compression_method == CompressionMethod::AES && f.aes_mode is None {
        Err(ZipError::InvalidArchive("AES encryption without AES extra data field"))
    } else if f.header_start + shift > u64::MAX {
        Err(ZipError::InvalidArchive("Archive header is too large"))
    } else {
        Ok(FileRecord { header_start: (f.header_start + shift) as u64, ..f })
    }
}

/// What is read as the central header at `i`, and where it ends.
pub open spec fn entry_at(b: Seq<u8>, i: int, shift: u64) -> ZipResult<(FileRecord, int)> {
    if i + 4 > b.len() {
        Err(eof())
    } else if u32_at(b, i) != CENTRAL_DIRECTORY_HEADER_SIGNATURE {
        Err(ZipError::InvalidArchive("Invalid Central Directory header"))
    } else if i + 46 > b.len() || i + central_len(b, i) > b.len() {
        Err(eof())
    } else {
        match entry_of(central_fields(b, i), shift) {
            Err(e) => Err(e),
            Ok(f) => Ok((f, i + central_len(b, i))),
        }
    }
}

/// Takes what the ZIP64 record, whose data begins at `pos` in the extra field,
/// says of a file. Returns where the data that was taken ends.
fn apply_zip64(file: &mut ZipFileData, pos: usize) -> (r: Option<usize>)
    requires
        pos <= old(file).extra_field@.len(),
    ensures
        ({
            let (f, end) = zip64_applied(old(file)@, old(file)@.extra_field, pos as int);
            &&& final(file)@ == f
            &&& match r {
                Some(end_pos) => end == Some(end_pos as int) && pos <= end_pos
                    <= old(file)@.extra_field.len(),
                None => end is None,
            }
        }),
        final(file)@.extra_field == old(file)@.extra_field,
{
    reveal(zip64_applied);
    let len: usize = file.extra_field.len();
    let mut pos: usize = pos;
    if file.uncompressed_size == ZIP64_BYTES_THR {
        file.large_file = true;
        if len - pos < 8 {
            return None;
        }
        file.uncompressed_size = get_u64(file.extra_field.as_slice(), pos);
        pos += 8;
    }
    if file.compressed_size == ZIP64_BYTES_THR {
        file.large_file = true;
        if len - pos < 8 {
            return None;
        }
        file.compressed_size = get_u64(file.extra_field.as_slice(), pos);
        pos += 8;
    }
    if file.header_start == ZIP64_BYTES_THR {
        if len - pos < 8 {
            return None;
        }
        file.header_start = get_u64(file.extra_field.as_slice(), pos);
        pos += 8;
    }
    Some(pos)
}

/// Takes what the AES record, whose data begins at `pos` in the extra field,
/// says of a file.
fn apply_aes(file: &mut ZipFileData, pos: usize, len: u16) -> (r: ZipResult<()>)
    requires
        pos <= old(file).extra_field@.len(),
    ensures
        match r {
            Ok(_) => {
                &&& pos + 7 <= old(file)@.extra_field.len()
                &&& aes_applied(old(file)@, old(file)@.extra_field, pos as int, len) == Ok::<
                    FileRecord,
                    ZipError,
                >(final(file)@)
            },
            Err(e) => {
                &&& aes_applied(old(file)@, old(file)@.extra_field, pos as int, len) == Err::<
                    FileRecord,
                    ZipError,
                >(e)
                &&& final(file)@ == old(file)@
            },
        },
        final(file)@.extra_field == old(file)@.extra_field,
{
    reveal(aes_applied);
    if len != 7 {
        return Err(
            ZipError::UnsupportedArchive("AES extra data field has an unsupported length"),
        );
    }
    if file.extra_field.len() - pos < 7 {
        return Err(eof_error());
    }
    let vendor_version: u16 = get_u16(file.extra_field.as_slice(), pos);
    let vendor_id: u16 = get_u16(file.extra_field.as_slice(), pos + 2);
    let aes_mode: u8 = file.extra_field[pos + 4];
    let compression_method: u16 = get_u16(file.extra_field.as_slice(), pos + 5);

    if vendor_id != 0x4541 {
        return Err(ZipError::InvalidArchive("Invalid AES vendor"));
    }
    let vendor_version = match vendor_version {
        0x0001 => AesVendorVersion::Ae1,
        0x0002 => AesVendorVersion::Ae2,
        _ => return Err(ZipError::InvalidArchive("Invalid AES vendor version")),
    };
    let mode = match aes_mode {
        0x01 => AesMode::Aes128,
        0x02 => AesMode::Aes192,
        0x03 => AesMode::Aes256,
        _ => return Err(ZipError::InvalidArchive("Invalid AES encryption strength")),
    };
    file.aes_mode = Some((mode, vendor_version));
    file.compression_method = CompressionMethod::from_u16(compression_method);
    Ok(())
}

/// Takes what the record at `pos` of the extra field says of a file. Returns
/// where the next record begins, or the length of the extra field if that is
/// less.
fn parse_extra_record(file: &mut ZipFileData, pos: usize) -> (r: ZipResult<usize>)
    requires
        pos < old(file).extra_field@.len(),
    ensures
        final(file)@.extra_field == old(file)@.extra_field,
        match extra_step(old(file)@, old(file)@.extra_field, pos as int) {
            ExtraStep::Stop(f, e) => final(file)@ == f && r == Err::<usize, ZipError>(e),
            ExtraStep::Next(f, next) => {
                &&& final(file)@ == f
                &&& r matches Ok(n) && pos < n && if next < old(file)@.extra_field.len() {
                    n == next
                } else {
                    n == old(file)@.extra_field.len()
                }
            },
        },
{
    let len: usize = file.extra_field.len();
    if len - pos < 4 {
        return Err(eof_error());
    }
    let kind: u16 = get_u16(file.extra_field.as_slice(), pos);
    let size: u16 = get_u16(file.extra_field.as_slice(), pos + 2);
    let data_start: usize = pos + 4;
    // Where the data of this record was read up to, and how much of it is left.
    let mut read_to: usize = data_start;
    let mut left: usize = size as usize;
    match kind {
        // Zip64 extended information extra field
        0x0001 => {
            match apply_zip64(file, data_start) {
                None => {
                    return Err(eof_error());
                },
                Some(end) => {
                    read_to = end;
                    let taken: usize = end - data_start;
                    left = if left > taken {
                        left - taken
                    } else {
                        0
                    };
                },
            }
        },
        0x9901 => {
            // AES
            if let Err(e) = apply_aes(file, data_start, size) {
                return Err(e);
            }
            read_to = data_start + 7;
        },
        _ => {
            // Other fields are ignored
        },
    }
    if len - read_to < left {
        Ok(len)
    } else {
        Ok(read_to + left)
    }
}

/// Takes what the extra field says of a file.
pub fn parse_extra_field(file: &mut ZipFileData) -> (r: ZipResult<()>)
    ensures
        ({
            let (f, stop) = extra_applied(old(file)@, old(file)@.extra_field, 0);
            &&& final(file)@ == f
            &&& match r {
                Ok(_) => stop is None,
                Err(e) => stop == Some(e),
            }
        }),
        final(file)@.extra_field == old(file)@.extra_field,
{
    let len: usize = file.extra_field.len();
    let mut pos: usize = 0;
    while pos < len
        invariant
            file@.extra_field == old(file)@.extra_field,
            len == file@.extra_field.len(),
            pos <= len,
            extra_applied(old(file)@, old(file)@.extra_field, 0) == extra_applied(
                file@,
                old(file)@.extra_field,
                pos as int,
            ),
        decreases len - pos,
    {
        reveal_with_fuel(extra_applied, 2);
        match parse_extra_record(file, pos) {
            Ok(next) => {
                pos = next;
            },
            Err(e) => {
                return Err(e);
            },
        }
    }
    Ok(())
}

/// Parse a central directory entry to collect the information for the file.
/// Besides it, returns where the entry ends.
pub fn central_header_to_zip_file(data: &[u8], pos: usize, archive_offset: u64) -> (r: ZipResult<
    (ZipFileData, usize),
>)
    requires
        pos <= data@.len(),
    ensures
        match r {
            Ok((file, end)) => {
                &&& entry_at(data@, pos as int, archive_offset) == Ok::<
                    (FileRecord, int),
                    ZipError,
                >((file@, end as int))
                &&& pos < end <= data@.len()
            },
            Err(e) => entry_at(data@, pos as int, archive_offset) == Err::<
                (FileRecord, int),
                ZipError,
            >(e),
        },
{
    if data.len() - pos < 4 {
        return Err(eof_error());
    }
    // Parse central header
    if get_u32(data, pos) != CENTRAL_DIRECTORY_HEADER_SIGNATURE {
        return Err(ZipError::InvalidArchive("Invalid Central Directory header"));
    }
    central_header_to_zip_file_inner(data, pos, archive_offset)
}

/// Parse a central directory entry to collect the information for the file.
fn central_header_to_zip_file_inner(data: &[u8], pos: usize, archive_offset: u64) -> (r: ZipResult<
    (ZipFileData, usize),
>)
    requires
        pos + 4 <= data@.len(),
        u32_at(data@, pos as int) == CENTRAL_DIRECTORY_HEADER_SIGNATURE,
    ensures
        match r {
            Ok((file, end)) => {
                &&& entry_at(data@, pos as int, archive_offset) == Ok::<
                    (FileRecord, int),
                    ZipError,
                >((file@, end as int))
                &&& pos < end <= data@.len()
            },
            Err(e) => entry_at(data@, pos as int, archive_offset) == Err::<
                (FileRecord, int),
                ZipError,
            >(e),
        },
{
    let len: usize = data.len();
    if len - pos < 46 {
        return Err(eof_error());
    }
    let version_made_by: u16 = get_u16(data, pos + 4);
    let flags: u16 = get_u16(data, pos + 8);
    let encrypted: bool = flags & 1 == 1;
    let is_utf8: bool = flags & (1 << 11) != 0;
    let using_data_descriptor: bool = flags & (1 << 3) != 0;
    assert(flags & 1 == flags % 2) by (bit_vector);
    assert((flags & (1u16 << 11u16) != 0) == (flags / 2048 % 2 == 1)) by (bit_vector);
    assert((flags & (1u16 << 3u16) != 0) == (flags / 8 % 2 == 1)) by (bit_vector);
    let compression_method: u16 = get_u16(data, pos + 10);
    let last_mod_time: u16 = get_u16(data, pos + 12);
    let last_mod_date: u16 = get_u16(data, pos + 14);
    let crc32: u32 = get_u32(data, pos + 16);
    let compressed_size: u32 = get_u32(data, pos + 20);
    let uncompressed_size: u32 = get_u32(data, pos + 24);
    let file_name_length: usize = get_u16(data, pos + 28) as usize;
    let extra_field_length: usize = get_u16(data, pos + 30) as usize;
    let file_comment_length: usize = get_u16(data, pos + 32) as usize;
    let external_file_attributes: u32 = get_u32(data, pos + 38);
    let offset: u64 = get_u32(data, pos + 42) as u64;
    let name_start: usize = pos + 46;
    if len - name_start < file_name_length + extra_field_length + file_comment_length {
        return Err(eof_error());
    }
    let extra_start: usize = name_start + file_name_length;
    let comment_start: usize = extra_start + extra_field_length;
    let end: usize = comment_start + file_comment_length;
    let file_name_raw = piece(data, name_start, extra_start);
    let extra_field = piece(data, extra_start, comment_start);
    let file_comment_raw = piece(data, comment_start, end);
    let file_name = decode_text(file_name_raw.as_slice(), is_utf8);
    let file_comment = decode_text(file_comment_raw.as_slice(), is_utf8);

    // Construct the result
    let mut result = ZipFileData {
        system: System::from_u8((version_made_by / 256) as u8),
        version_made_by: (version_made_by % 256) as u8,
        encrypted,
        using_data_descriptor,
        compression_method: CompressionMethod::from_u16(compression_method),
        compression_level: None,
        last_modified_time: DateTime::from_msdos(last_mod_date, last_mod_time),
        crc32,
        compressed_size: compressed_size as u64,
        uncompressed_size: uncompressed_size as u64,
        file_name,
        file_name_raw,
        extra_field,
        file_comment,
        header_start: offset,
        central_header_start: pos as u64,
        data_start: 0,
        external_attributes: external_file_attributes,
        large_file: false,
        aes_mode: None,
    };
    assert(result@ =~= central_fields(data@, pos as int));

    match parse_extra_field(&mut result) {
        Ok(_) => {},
        Err(ZipError::Io(_)) => {},
        Err(e) => {
            return Err(e);
        },
    }

    let aes_enabled: bool = result.compression_method == CompressionMethod::AES;
    if aes_enabled && result.aes_mode.is_none() {
        return Err(ZipError::InvalidArchive("AES encryption without AES extra data field"));
    }
    // Account for shifted zip offsets.

    match result.header_start.checked_add(archive_offset) {
        None => Err(ZipError::InvalidArchive("Archive header is too large")),
        Some(header_start) => {
            result.header_start = header_start;
            Ok((result, end))
        },
    }
}

/// What is read as `n` central headers, the first of them at `pos`, and where
/// the last of them ends.
pub open spec fn entries_at(b: Seq<u8>, pos: int, shift: u64, n: nat) -> ZipResult<
    (Seq<FileRecord>, int),
>
    decreases n,
{
    if n == 0 {
        Ok((Seq::empty(), pos))
    } else {
        match entries_at(b, pos, shift, (n - 1) as nat) {
            Err(e) => Err(e),
            Ok((files, next)) => match entry_at(b, next, shift) {
                Err(e) => Err(e),
                Ok((file, end)) => Ok((files.push(file), end)),
            },
        }
    }
}

proof fn entries_at_error_stays(b: Seq<u8>, pos: int, shift: u64, k: nat, n: nat)
    requires
        k <= n,
        entries_at(b, pos, shift, k) is Err,
    ensures
        entries_at(b, pos, shift, n) == entries_at(b, pos, shift, k),
    decreases n,
{
    if k < n {
        entries_at_error_stays(b, pos, shift, k, (n - 1) as nat);
    }
}

/// What the files of a vector say.
pub open spec fn records(files: Seq<ZipFileData>) -> Seq<FileRecord> {
    files.map_values(|f: ZipFileData| f@)
}

/// Reads `n` central headers, the first of them at `start`.
pub fn read_entries(data: &[u8], start: u64, archive_offset: u64, n: usize) -> (r: ZipResult<
    Vec<ZipFileData>,
>)
    ensures
        match r {
            Ok(files) => entries_at(data@, start as int, archive_offset, n as nat) matches Ok(
                (all, _),
            ) && all == records(files@),
            Err(e) => entries_at(data@, start as int, archive_offset, n as nat) == Err::<
                (Seq<FileRecord>, int),
                ZipError,
            >(e),
        },
{
    let mut files: Vec<ZipFileData> = Vec::new();
    assert(records(files@) =~= Seq::empty());
    if n == 0 {
        return Ok(files);
    }
    if start > data.len() as u64 {
        proof {
            assert(entry_at(data@, start as int, archive_offset) is Err);
            assert(entries_at(data@, start as int, archive_offset, 0) is Ok);
            assert(entries_at(data@, start as int, archive_offset, 1) is Err);
            entries_at_error_stays(data@, start as int, archive_offset, 1, n as nat);
        }
        return Err(eof_error());
    }
    let mut pos: usize = start as usize;
    let mut i: usize = 0;
    while i < n
        invariant
            i <= n,
            pos <= data@.len(),
            entries_at(data@, start as int, archive_offset, i as nat) == Ok::<
                (Seq<FileRecord>, int),
                ZipError,
            >((records(files@), pos as int)),
        decreases n - i,
    {
        let ghost before = records(files@);
        match central_header_to_zip_file(data, pos, archive_offset) {
            Err(e) => {
                proof {
                    entries_at_error_stays(
                        data@,
                        start as int,
                        archive_offset,
                        (i + 1) as nat,
                        n as nat,
                    );
                }
                return Err(e);
            },
            Ok((file, end)) => {
                files.push(file);
                assert(records(files@) =~= before.push(file@));
                pos = end;
            },
        }
        i += 1;
    }
    Ok(files)
}

/// What an archive says of itself.
#[verifier::ext_equal]
pub ghost struct ArchiveRecord {
    pub files: Seq<FileRecord>,
    pub offset: u64,
    pub directory_start: u64,
    pub comment: Seq<u8>,
}

/// What is read as an archive. Where `strict`, an archive on several disks is
/// refused even if its end record is too small to tell.
pub open spec fn archive_of(b: Seq<u8>, strict: bool) -> ZipResult<ArchiveRecord> {
    match footer_found(b) {
        Err(e) => Err(e),
        Ok((footer, cde_start)) => if (strict || !footer.too_small()) && footer.disk_number
            != footer.disk_with_central_directory {
            Err(
                ZipError::UnsupportedArchive("Support for multi-disk files is not implemented"),
            )
        } else {
            match directory_counts(b, footer, cde_start) {
                Err(e) => Err(e),
                Ok((offset, directory_start, n)) => match entries_at(
                    b,
                    directory_start as int,
                    offset,
                    n as nat,
                ) {
                    Err(e) => Err(e),
                    Ok((files, _)) => Ok(
                        ArchiveRecord {
                            files,
                            offset,
                            directory_start,
                            comment: footer.zip_file_comment,
                        },
                    ),
                },
            }
        },
    }
}

/// Whether two files differ at most in what an extra field can tell.
pub open spec fn same_but_extra(f: FileRecord, g: FileRecord) -> bool {
    g == (FileRecord {
        compression_method: g.compression_method,
        compressed_size: g.compressed_size,
        uncompressed_size: g.uncompressed_size,
        header_start: g.header_start,
        large_file: g.large_file,
        aes_mode: g.aes_mode,
        ..f
    })
}

/// An extra field leaves alone what it cannot tell.
pub proof fn extra_keeps(f: FileRecord, x: Seq<u8>, p: int)
    requires
        0 <= p,
    ensures
        same_but_extra(f, extra_applied(f, x, p).0),
    decreases
            if p >= x.len() {
                0
            } else {
                x.len() - p
            },
{
    reveal(zip64_applied);
    reveal(aes_applied);
    if p < x.len() {
        match extra_step(f, x, p) {
            ExtraStep::Stop(g, e) => {},
            ExtraStep::Next(g, q) => {
                assert(same_but_extra(f, g));
                extra_keeps(g, x, q);
            },
        }
    }
}

/// The times that are read from central headers fit into the words that they
/// were read from.
pub proof fn entries_times_fit(b: Seq<u8>, pos: int, shift: u64, n: nat)
    ensures
        entries_at(b, pos, shift, n) matches Ok((files, _)) ==> forall|i: int|
            0 <= i < files.len() ==> (#[trigger] files[i]).last_modified_time.fits(),
    decreases n,
{
    if n > 0 {
        entries_times_fit(b, pos, shift, (n - 1) as nat);
        if let Ok((files, next)) = entries_at(b, pos, shift, (n - 1) as nat) {
            if let Ok((file, end)) = entry_at(b, next, shift) {
                let base = central_fields(b, next);
                extra_keeps(base, base.extra_field, 0);
                assert(file.last_modified_time == base.last_modified_time);
            }
        }
    }
}

/// The times that are read from an archive fit into the words that they were
/// read from.
pub proof fn archive_times_fit(b: Seq<u8>, strict: bool)
    ensures
        archive_of(b, strict) matches Ok(archive) ==> forall|i: int|
            0 <= i < archive.files.len() ==> (
            #[trigger] archive.files[i]).last_modified_time.fits(),
{
    if let Ok((footer, cde_start)) = footer_found(b) {
        if let Ok((offset, start, n)) = directory_counts(b, footer, cde_start) {
            entries_times_fit(b, start as int, offset, n as nat);
        }
    }
}

/// The times that are read from central headers have an even second.
proof fn entries_times_are_even(b: Seq<u8>, pos: int, shift: u64, n: nat)
    ensures
        entries_at(b, pos, shift, n) matches Ok((files, _)) ==> forall|i: int|
            0 <= i < files.len() ==> (#[trigger] files[i]).last_modified_time.second % 2 == 0,
    decreases n,
{
    if n > 0 {
        entries_times_are_even(b, pos, shift, (n - 1) as nat);
        if let Ok((files, next)) = entries_at(b, pos, shift, (n - 1) as nat) {
            if let Ok((file, end)) = entry_at(b, next, shift) {
                let base = central_fields(b, next);
                extra_keeps(base, base.extra_field, 0);
                assert(file.last_modified_time == base.last_modified_time);
            }
        }
    }
}

/// The times that are read from an archive have an even second.
pub proof fn archive_times_are_even(b: Seq<u8>, strict: bool)
    ensures
        archive_of(b, strict) matches Ok(archive) ==> forall|i: int|
            0 <= i < archive.files.len() ==> (
            #[trigger] archive.files[i]).last_modified_time.second % 2 == 0,
{
    if let Ok((footer, cde_start)) = footer_found(b) {
        if let Ok((offset, start, n)) = directory_counts(b, footer, cde_start) {
            entries_times_are_even(b, start as int, offset, n as nat);
        }
    }
}

/// What an archive says of itself.
#[derive(Debug)]
pub struct Directory {
    /// The entries, in the order of their headers.
    pub files: Vec<ZipFileData>,
    /// How far everything is shifted from where the end record places it.
    pub offset: u64,
    /// Where the central headers start.
    pub directory_start: u64,
    /// The comment of the archive.
    pub comment: Vec<u8>,
}

impl View for Directory {
    type V = ArchiveRecord;

    open spec fn view(&self) -> ArchiveRecord {
        ArchiveRecord {
            files: records(self.files@),
            offset: self.offset,
            directory_start: self.directory_start,
            comment: self.comment@,
        }
    }
}

impl Directory {
    /// Reads the end records and the central headers.
    pub fn load(data: &[u8], strict: bool) -> (r: ZipResult<Directory>)
        ensures
            match r {
                Ok(directory) => archive_of(data@, strict) == Ok::<ArchiveRecord, ZipError>(
                    directory@,
                ),
                Err(e) => archive_of(data@, strict) == Err::<ArchiveRecord, ZipError>(e),
            },
    {
        let (footer, cde_start_pos) = match CentralDirectoryEnd::find_and_parse(data) {
            Ok(found) => found,
            Err(e) => {
                return Err(e);
            },
        };
        if (strict || !footer.record_too_small()) && footer.disk_number
            != footer.disk_with_central_directory {
            return Err(
                ZipError::UnsupportedArchive("Support for multi-disk files is not implemented"),
            );
        }
        let (offset, directory_start, number_of_files) = match get_directory_counts(
            data,
            &footer,
            cde_start_pos,
        ) {
            Ok(counts) => counts,
            Err(e) => {
                return Err(e);
            },
        };
        match read_entries(data, directory_start, offset, number_of_files) {
            Ok(files) => Ok(
                Directory { files, offset, directory_start, comment: footer.zip_file_comment },
            ),
            Err(e) => Err(e),
        }
    }
}

/// Where the data of the file whose local header is at `i` begins.
pub open spec fn data_start_at(b: Seq<u8>, i: int) -> ZipResult<int> {
    if i + 4 > b.len() {
        Err(eof())
    } else if u32_at(b, i) != LOCAL_FILE_HEADER_SIGNATURE {
        Err(ZipError::InvalidArchive("Invalid local file header"))
    } else if i + 30 > b.len() {
        Err(eof())
    } else if i + 30 + u16_at(b, i + 26) + u16_at(b, i + 28) > u64::MAX {
        // no data lies beyond the reach of a position
        Err(eof())
    } else {
        Ok(i + 30 + u16_at(b, i + 26) + u16_at(b, i + 28))
    }
}

/// The bytes from `start` on, `size` of them or as many as there are.
pub open spec fn limited(b: Seq<u8>, start: int, size: int) -> Seq<u8> {
    if start >= b.len() {
        Seq::empty()
    } else if start + size > b.len() {
        b.skip(start)
    } else {
        b.subrange(start, start + size)
    }
}

/// Finds where the data of the file whose local header is at `header_start`
/// begins.
pub fn find_data_start(data: &[u8], header_start: u64) -> (r: ZipResult<u64>)
    ensures
        match r {
            Ok(start) => data_start_at(data@, header_start as int) == Ok::<int, ZipError>(
                start as int,
            ),
            Err(e) => data_start_at(data@, header_start as int) == Err::<int, ZipError>(e),
        },
{
    let len: usize = data.len();
    if len < 4 || header_start > (len - 4) as u64 {
        return Err(eof_error());
    }
    let at: usize = header_start as usize;
    if get_u32(data, at) != LOCAL_FILE_HEADER_SIGNATURE {
        return Err(ZipError::InvalidArchive("Invalid local file header"));
    }
    if len - at < 30 {
        return Err(eof_error());
    }
    let file_name_length: u64 = get_u16(data, at + 26) as u64;
    let extra_field_length: u64 = get_u16(data, at + 28) as u64;
    match (header_start + 30).checked_add(file_name_length + extra_field_length) {
        Some(data_start) => Ok(data_start),
        None => Err(eof_error()),
    }
}

/// Takes the bytes from `start` on, `size` of them or as many as there are.
pub fn take_limited(data: &[u8], start: u64, size: u64) -> (r: Vec<u8>)
    ensures
        r@ == limited(data@, start as int, size as int),
{
    let len: usize = data.len();
    if start >= len as u64 {
        return Vec::new();
    }
    let from: usize = start as usize;
    if size > (len - from) as u64 {
        piece(data, from, len)
    } else {
        piece(data, from, from + size as usize)
    }
}

/// The bytes that are stored for a file.
pub open spec fn stored_bytes(b: Seq<u8>, f: FileRecord) -> ZipResult<Seq<u8>> {
    match data_start_at(b, f.header_start as int) {
        Err(e) => Err(e),
        Ok(start) => Ok(limited(b, start, f.compressed_size as int)),
    }
}

/// What the contents of a file are, given the bytes that are stored for it.
pub open spec fn contents_of(f: FileRecord, packed: Seq<u8>) -> ZipResult<Seq<u8>> {
    match decoded(f.compression_method, packed) {
        Err(e) => Err(e),
        Ok(plain) => if crc32_of(plain) == f.crc32 {
            Ok(plain)
        } else {
            Err(crate::result::other("Invalid checksum"))
        },
    }
}

/// Reads the contents of a file, by the way in which they are stored.
pub enum ZipFileReader {
    /// The bytes as they are.
    Stored(Crc32Reader<Cursor>),
    /// Deflate.
    Deflated(Crc32Reader<Unpacker>),
    /// BZIP2.
    Bzip2(Crc32Reader<Unpacker>),
    /// Zstandard.
    Zstd(Crc32Reader<Unpacker>),
}

impl ZipFileReader {
    /// What was read and what is left.
    pub open spec fn state(self) -> Checked {
        match self {
            ZipFileReader::Stored(r) => r@,
            ZipFileReader::Deflated(r) => r@,
            ZipFileReader::Bzip2(r) => r@,
            ZipFileReader::Zstd(r) => r@,
        }
    }

    /// Whether the parts fit together.
    pub open spec fn ready(self) -> bool {
        match self {
            ZipFileReader::Stored(r) => r.ready(),
            ZipFileReader::Deflated(r) => r.ready() && r.wrapped().method() is Deflated,
            ZipFileReader::Bzip2(r) => r.ready() && r.wrapped().method() is Bzip2,
            ZipFileReader::Zstd(r) => r.ready() && r.wrapped().method() is Zstd,
        }
    }

    /// Whether what was read so far comes from all of `packed`, which is what is stored for
    /// the file.
    pub open spec fn tells(self, packed: Seq<u8>) -> bool {
        match self {
            ZipFileReader::Stored(r) => r.wrapped().tells(packed, r@.seen),
            ZipFileReader::Deflated(r) => r.wrapped().tells(packed, r@.seen),
            ZipFileReader::Bzip2(r) => r.wrapped().tells(packed, r@.seen),
            ZipFileReader::Zstd(r) => r.wrapped().tells(packed, r@.seen),
        }
    }

    /// How the contents are stored.
    pub open spec fn method(self) -> CompressionMethod {
        match self {
            ZipFileReader::Stored(_) => CompressionMethod::Stored,
            ZipFileReader::Deflated(_) => CompressionMethod::Deflated,
            ZipFileReader::Bzip2(_) => CompressionMethod::Bzip2,
            ZipFileReader::Zstd(_) => CompressionMethod::Zstd,
        }
    }

    /// Whether a read found that nothing is left.
    pub open spec fn at_end(self) -> bool {
        match self.state().left {
            Left::Bytes(bytes) => bytes.len() == 0,
            Left::Decoding(decoding) => decoding.ended(),
            _ => false,
        }
    }

    /// Contents that were read up to where nothing is left are what a decoder gets that
    /// reads them at once, in however many reads.
    pub proof fn read_through_is_the_whole(self, packed: Seq<u8>)
        requires
            self.ready(),
            self.tells(packed),
            self.at_end(),
        ensures
            decoded(self.method(), packed) == Ok::<Seq<u8>, ZipError>(self.state().seen),
    {
        match self {
            ZipFileReader::Stored(r) => {
                r.left_below();
                assert(r@.seen + r.wrapped().rest() =~= r@.seen);
            },
            ZipFileReader::Deflated(r) => r.left_below(),
            ZipFileReader::Bzip2(r) => r.left_below(),
            ZipFileReader::Zstd(r) => r.left_below(),
        }
    }

    /// As long as the whole can be decoded, what was read is the beginning of it.
    pub proof fn read_begins_the_whole(self, packed: Seq<u8>)
        requires
            self.ready(),
            self.tells(packed),
            decoded(self.method(), packed) is Ok,
        ensures
            self.state().seen.is_prefix_of(decoded(self.method(), packed)->Ok_0),
    {
        match self {
            ZipFileReader::Stored(r) => r.left_below(),
            ZipFileReader::Deflated(r) => r.left_below(),
            ZipFileReader::Bzip2(r) => r.left_below(),
            ZipFileReader::Zstd(r) => r.left_below(),
        }
    }

    /// A reader of the contents of a file, given the bytes that are stored for
    /// it.
    pub fn construct(file: &ZipFileData, packed: &[u8]) -> (r: ZipResult<ZipFileReader>)
        ensures
            match r {
                Ok(reader) => {
                    &&& can_unpack(file@.compression_method)
                    &&& reader.ready()
                    &&& reader.tells(packed@)
                    &&& reader.method() == file@.compression_method
                    &&& reader.state().rest() == contents_of(file@, packed@)
                    &&& reader.state().seen.len() == 0
                    &&& reader.state().check == file@.crc32
                    &&& !(reader.state().left is Decoding)
                },
                Err(e) => {
                    &&& !can_unpack(file@.compression_method)
                    &&& e == ZipError::UnsupportedArchive("Compression method not supported")
                },
            },
    {
        let method = file.compression_method;
        proof {
            if let Ok(plain) = decoded(method, packed@) {
                assert(Seq::<u8>::empty() + plain =~= plain);
            }
        }
        match method {
            CompressionMethod::AES | CompressionMethod::Unsupported(_) => Err(
                ZipError::UnsupportedArchive("Compression method not supported"),
            ),
            CompressionMethod::Stored => {
                let stream = Cursor::new(vstd::slice::slice_to_vec(packed));
                assert(stream.rest() =~= packed@);
                Ok(ZipFileReader::Stored(Crc32Reader::new(stream, file.crc32, false)))
            },
            _ => {
                let unpacker = Unpacker::new(method, vstd::slice::slice_to_vec(packed));
                let checked = Crc32Reader::new(unpacker, file.crc32, false);
                match method {
                    CompressionMethod::Deflated => Ok(ZipFileReader::Deflated(checked)),
                    CompressionMethod::Bzip2 => Ok(ZipFileReader::Bzip2(checked)),
                    _ => Ok(ZipFileReader::Zstd(checked)),
                }
            },
        }
    }

    /// Reads up to `n` bytes of the contents.
    pub fn read(&mut self, n: usize) -> (r: ZipResult<Vec<u8>>)
        requires
            old(self).ready(),
        ensures
            final(self).ready(),
            final(self).state() == old(self).state().read(n as nat).1,
            match r {
                Ok(out) => old(self).state().read(n as nat).0 == Ok::<Seq<u8>, ZipError>(out@),
                Err(e) => old(self).state().read(n as nat).0 == Err::<Seq<u8>, ZipError>(e),
            },
            forall|packed: Seq<u8>|
                r is Ok && #[trigger] old(self).tells(packed) ==> final(self).tells(packed),
            final(self).method() == old(self).method(),
            n > 0 && (r matches Ok(out) && out@.len() == 0) ==> final(self).at_end(),
    {
        proof {
            match self.state().left {
                Left::Coded(decoding) | Left::Decoding(decoding) => {
                    assert(decoding.read(n as nat).1.earlier() =~= decoding);
                },
                _ => {},
            }
            match self {
                ZipFileReader::Stored(r) => r.left_below(),
                ZipFileReader::Deflated(r) => r.left_below(),
                ZipFileReader::Bzip2(r) => r.left_below(),
                ZipFileReader::Zstd(r) => r.left_below(),
            }
        }
        match self {
            ZipFileReader::Stored(r) => r.read(n),
            ZipFileReader::Deflated(r) => r.read(n),
            ZipFileReader::Bzip2(r) => r.read(n),
            ZipFileReader::Zstd(r) => r.read(n),
        }
    }

    /// Reads all that is left of the contents.
    pub fn read_to_end(&mut self) -> (r: ZipResult<Vec<u8>>)
        requires
            old(self).ready(),
        ensures
            final(self).ready(),
            final(self).method() == old(self).method(),
            match r {
                Ok(out) => old(self).state().rest() == Ok::<Seq<u8>, ZipError>(out@),
                Err(e) => old(self).state().rest() == Err::<Seq<u8>, ZipError>(e),
            },
    {
        match self {
            ZipFileReader::Stored(r) => r.read_to_end(),
            ZipFileReader::Deflated(r) => r.read_to_end(),
            ZipFileReader::Bzip2(r) => r.read_to_end(),
            ZipFileReader::Zstd(r) => r.read_to_end(),
        }
    }
}

/// Each name with the number of the last file that has it.
pub open spec fn named(files: Seq<FileRecord>) -> Map<Seq<char>, usize>
    decreases files.len(),
{
    if files.len() == 0 {
        Map::empty()
    } else {
        named(files.drop_last()).insert(files.last().file_name, (files.len() - 1) as usize)
    }
}

/// The names of an archive lead to files that have them, and every file's name
/// leads somewhere: to the file itself, unless a later one has the same name.
pub proof fn named_facts(files: Seq<FileRecord>)
    requires
        files.len() <= usize::MAX,
    ensures
        forall|name: Seq<char>| #[trigger]
            named(files).contains_key(name) ==> named(files)[name] < files.len()
                && files[named(files)[name] as int].file_name == name,
        forall|i: int|
            0 <= i < files.len() ==> named(files).contains_key((#[trigger] files[i]).file_name)
                && i <= named(files)[files[i].file_name],
    decreases files.len(),
{
    if files.len() > 0 {
        let before = files.drop_last();
        named_facts(before);
        assert forall|name: Seq<char>| #[trigger]
            named(files).contains_key(name) implies named(files)[name] < files.len()
            && files[named(files)[name] as int].file_name == name by {
            if name != files.last().file_name {
                assert(named(before).contains_key(name));
                assert(before[named(before)[name] as int] == files[named(before)[name] as int]);
            }
        }
        assert forall|i: int| 0 <= i < files.len() implies named(files).contains_key(
            (#[trigger] files[i]).file_name,
        ) && i <= named(files)[files[i].file_name] by {
            if i < before.len() {
                assert(before[i] == files[i]);
            }
        }
    }
}

/// Notes each name with the number of the last file that has it.
pub fn name_files(files: &Vec<ZipFileData>) -> (names: StringHashMap<usize>)
    ensures
        names@ == named(records(files@)),
{
    let mut names: StringHashMap<usize> = StringHashMap::new();
    let mut i: usize = 0;
    while i < files.len()
        invariant
            i <= files.len(),
            names@ == named(records(files@).take(i as int)),
        decreases files.len() - i,
    {
        assert(records(files@).take(i + 1).drop_last() == records(files@).take(i as int));
        assert(records(files@).take(i + 1).last() == files@[i as int]@);
        names.insert(files[i].file_name.clone(), i);
        i += 1;
    }
    assert(records(files@).take(files@.len() as int) == records(files@));
    names
}

/// What a request for a file by its number is answered: the bytes that are
/// stored for it.
pub open spec fn answer(b: Seq<u8>, files: Seq<FileRecord>, index: int) -> ZipResult<Seq<u8>> {
    if index >= files.len() {
        Err(ZipError::FileNotFound)
    } else if files[index].encrypted {
        Err(ZipError::UnsupportedArchive("Encrypted files are not supported"))
    } else {
        match stored_bytes(b, files[index]) {
            Err(e) => Err(e),
            Ok(packed) => if can_unpack(files[index].compression_method) {
                Ok(packed)
            } else {
                Err(ZipError::UnsupportedArchive("Compression method not supported"))
            },
        }
    }
}

/// Wrapper for reading the contents of a ZIP file.
pub struct ZipArchive {
    reader: Cursor,
    directory: Directory,
    names_map: StringHashMap<usize>,
}

impl ZipArchive {
    #[verifier::type_invariant]
    spec fn holds(self) -> bool {
        &&& self.names_map@ == named(records(self.directory.files@))
        &&& self.directory.files@.len() <= usize::MAX
    }

    /// What the archive says of itself.
    pub closed spec fn view(&self) -> ArchiveRecord {
        self.directory@
    }

    /// The bytes that the archive is read from.
    pub closed spec fn bytes(&self) -> Seq<u8> {
        self.reader@.bytes
    }

    /// Opens a Zip archive and parses the central directory
    pub fn new(reader: Cursor) -> (r: ZipResult<ZipArchive>)
        ensures
            match r {
                Ok(archive) => {
                    &&& archive_of(reader@.bytes, true) == Ok::<ArchiveRecord, ZipError>(archive@)
                    &&& archive.bytes() == reader@.bytes
                },
                Err(e) => archive_of(reader@.bytes, true) == Err::<ArchiveRecord, ZipError>(e),
            },
    {
        match Directory::load(reader.get_ref().as_slice(), true) {
            Err(e) => Err(e),
            Ok(directory) => {
                let names_map = name_files(&directory.files);
                assert(directory.files.len() <= usize::MAX);
                Ok(ZipArchive { reader, directory, names_map })
            },
        }
    }

    /// Number of files contained in this zip.
    pub fn len(&self) -> (n: usize)
        ensures
            n == self@.files.len(),
    {
        self.directory.files.len()
    }

    /// Whether this zip contains no files.
    pub fn is_empty(&self) -> (r: bool)
        ensures
            r == (self@.files.len() == 0),
    {
        self.directory.files.len() == 0
    }

    /// Get the comment of the zip archive.
    pub fn comment(&self) -> (comment: &Vec<u8>)
        ensures
            comment@ == self@.comment,
    {
        &self.directory.comment
    }

    /// Get the offset from the beginning of the underlying reader that this zip begins at, in bytes.
    ///
    /// Normally this value is zero, but if the zip has arbitrary data prepended to it, then this
    /// value will be the size of that prepended data.
    pub fn offset(&self) -> (r: u64)
        ensures
            r == self@.offset,
    {
        self.directory.offset
    }

    /// The names of the files, in the order of their headers.
    pub fn file_names(&self) -> (names: Vec<String>)
        ensures
            names@.len() == self@.files.len(),
            forall|i: int|
                0 <= i < names@.len() ==> (#[trigger] names@[i])@ == self@.files[i].file_name,
    {
        let mut names: Vec<String> = Vec::new();
        let mut i: usize = 0;
        while i < self.directory.files.len()
            invariant
                i <= self.directory.files.len(),
                names@.len() == i,
                self@ == self.directory@,
                forall|j: int| 0 <= j < i ==> (#[trigger] names@[j])@ == self@.files[j].file_name,
            decreases self.directory.files.len() - i,
        {
            names.push(self.directory.files[i].file_name.clone());
            i += 1;
        }
        names
    }

    /// Search for a file entry by name
    pub fn by_name<'a>(&'a self, name: &str) -> (r: ZipResult<ZipFile<'a>>)
        ensures
            !named(self@.files).contains_key(name@) ==> r == Err::<ZipFile<'a>, ZipError>(
                ZipError::FileNotFound,
            ),
            named(self@.files).contains_key(name@) ==> {
                let index = named(self@.files)[name@] as int;
                &&& index < self@.files.len()
                &&& match r {
                    Ok(file) => {
                        &&& file@ == self@.files[index]
                        &&& answer(self.bytes(), self@.files, index) == Ok::<Seq<u8>, ZipError>(
                            file.packed(),
                        )
                        &&& file.left() == contents_of(file@, file.packed())
                        &&& file.untouched()
                    },
                    Err(e) => answer(self.bytes(), self@.files, index) == Err::<
                        Seq<u8>,
                        ZipError,
                    >(e),
                }
            },
    {
        proof {
            use_type_invariant(self);
            named_facts(self@.files);
        }
        match self.names_map.get(name) {
            Some(index) => self.by_index(*index),
            None => Err(ZipError::FileNotFound),
        }
    }

    /// Get a contained file by index
    pub fn by_index<'a>(&'a self, file_index: usize) -> (r: ZipResult<ZipFile<'a>>)
        ensures
            match r {
                Ok(file) => {
                    &&& file_index < self@.files.len()
                    &&& file@ == self@.files[file_index as int]
                    &&& answer(self.bytes(), self@.files, file_index as int) == Ok::<
                        Seq<u8>,
                        ZipError,
                    >(file.packed())
                    &&& file.left() == contents_of(file@, file.packed())
                    &&& file.untouched()
                },
                Err(e) => answer(self.bytes(), self@.files, file_index as int) == Err::<
                    Seq<u8>,
                    ZipError,
                >(e),
            },
    {
        if file_index >= self.directory.files.len() {
            return Err(ZipError::FileNotFound);
        }
        let data: &'a ZipFileData = &self.directory.files[file_index];
        assert(data@ == self@.files[file_index as int]);
        if data.encrypted {
            return Err(ZipError::UnsupportedArchive("Encrypted files are not supported"));
        }
        let bytes = self.reader.get_ref().as_slice();
        let start: u64 = match find_data_start(bytes, data.header_start) {
            Ok(start) => start,
            Err(e) => {
                return Err(e);
            },
        };
        let packed = take_limited(bytes, start, data.compressed_size);
        match ZipFileReader::construct(data, packed.as_slice()) {
            Ok(reader) => Ok(ZipFile { data, packed, reader }),
            Err(e) => Err(e),
        }
    }

    /// Unwrap and return the inner reader object
    ///
    /// The position of the reader is undefined.
    pub fn into_inner(self) -> (r: Cursor)
        ensures
            r@.bytes == self.bytes(),
    {
        self.reader
    }
}

/// A struct for reading a zip file
pub struct ZipFile<'a> {
    data: &'a ZipFileData,
    packed: Vec<u8>,
    reader: ZipFileReader,
}

/// Methods for retrieving information on zip files
impl<'a> ZipFile<'a> {
    /// What the archive says of the file.
    pub closed spec fn view(&self) -> FileRecord {
        self.data@
    }

    /// The bytes that are stored for the file.
    pub closed spec fn packed(&self) -> Seq<u8> {
        self.packed@
    }

    /// What was read and what is left.
    pub closed spec fn state(&self) -> Checked {
        self.reader.state()
    }

    /// Whether the parts fit together.
    pub closed spec fn ready(&self) -> bool {
        self.reader.ready() && self.reader.method() == self.data@.compression_method
    }

    /// Whether what was read so far comes from all of the bytes that are stored.
    pub closed spec fn tells(&self) -> bool {
        self.reader.tells(self.packed@)
    }

    /// What is left to be read.
    pub open spec fn left(&self) -> ZipResult<Seq<u8>> {
        self.state().rest()
    }

    /// Whether nothing was read yet.
    pub open spec fn untouched(&self) -> bool {
        &&& self.ready()
        &&& self.tells()
        &&& self.state().seen.len() == 0
        &&& !(self.state().left is Decoding)
    }

    /// A file to be read, given the bytes that are stored for it and a reader of
    /// its contents.
    pub fn new(data: &'a ZipFileData, packed: Vec<u8>, reader: ZipFileReader) -> (r: Self)
        ensures
            r@ == data@,
            r.packed() == packed@,
            r.state() == reader.state(),
            r.ready() == (reader.ready() && reader.method() == data@.compression_method),
            r.tells() == reader.tells(packed@),
    {
        ZipFile { data, packed, reader }
    }

    /// Get the version of the file
    pub fn version_made_by(&self) -> (r: (u8, u8))
        ensures
            r.0 == self@.version_made_by / 10,
            r.1 == self@.version_made_by % 10,
    {
        (self.data.version_made_by / 10, self.data.version_made_by % 10)
    }

    /// Get the name of the file
    pub fn name(&self) -> (r: &str)
        ensures
            r@ == self@.file_name,
    {
        self.data.file_name.as_str()
    }

    /// Get the name of the file, in the raw (internal) byte representation.
    pub fn name_raw(&self) -> (r: &[u8])
        ensures
            r@ == self@.file_name_raw,
    {
        self.data.file_name_raw.as_slice()
    }

    /// Get the comment of the file
    pub fn comment(&self) -> (r: &str)
        ensures
            r@ == self@.file_comment,
    {
        self.data.file_comment.as_str()
    }

    /// Get the compression method used to store the file
    pub fn compression(&self) -> (r: CompressionMethod)
        ensures
            r == self@.compression_method,
    {
        self.data.compression_method
    }

    /// Get the size of the file in the archive
    pub fn compressed_size(&self) -> (r: u64)
        ensures
            r == self@.compressed_size,
    {
        self.data.compressed_size
    }

    /// Get the size of the file when uncompressed
    pub fn size(&self) -> (r: u64)
        ensures
            r == self@.uncompressed_size,
    {
        self.data.uncompressed_size
    }

    /// Get the time the file was last modified
    pub fn last_modified(&self) -> (r: DateTime)
        ensures
            r@ == self@.last_modified_time,
    {
        self.data.last_modified_time
    }

    /// Get the time the file was last modified, with all of its parts in range: where one
    /// is not, what is too much goes over into the next.
    pub fn last_modified_tm(&self) -> (r: Tm)
        ensures
            r.valid(),
            0 <= r.tm_year,
            r.seconds() == dos_parts(
                self@.last_modified_time.timepart(),
                self@.last_modified_time.datepart(),
            ).seconds(),
    {
        let time = self.data.last_modified_time;
        msdos_datetime_to_tm(time.timepart(), time.datepart())
    }

    /// Get unix mode for the file
    pub fn unix_mode(&self) -> (r: Option<u32>)
        ensures
            r == self@.unix_mode(),
    {
        self.data.unix_mode()
    }

    /// Get the CRC32 hash of the original file
    pub fn crc32(&self) -> (r: u32)
        ensures
            r == self@.crc32,
    {
        self.data.crc32
    }

    /// Get the offset of the payload of the original file
    pub fn offset(&self) -> (r: u64)
        ensures
            r == self@.header_start,
    {
        self.data.header_start
    }

    /// Get the extra data of the zip header for this file
    pub fn extra_data(&self) -> (r: &[u8])
        ensures
            r@ == self@.extra_field,
    {
        self.data.extra_field.as_slice()
    }

    /// The bytes that are stored for the file.
    pub fn get_raw(&self) -> (r: &[u8])
        ensures
            r@ == self.packed(),
    {
        self.packed.as_slice()
    }

    /// Reads up to `n` bytes of the contents.
    pub fn read(&mut self, n: usize) -> (r: ZipResult<Vec<u8>>)
        requires
            old(self).ready(),
        ensures
            final(self).ready(),
            final(self)@ == old(self)@,
            final(self).packed() == old(self).packed(),
            final(self).state() == old(self).state().read(n as nat).1,
            match r {
                Ok(out) => old(self).state().read(n as nat).0 == Ok::<Seq<u8>, ZipError>(out@),
                Err(e) => old(self).state().read(n as nat).0 == Err::<Seq<u8>, ZipError>(e),
            },
            r is Ok && old(self).tells() ==> final(self).tells(),
            old(self).tells() && n > 0 && (r matches Ok(out) && out@.len() == 0) ==> decoded(
                old(self)@.compression_method,
                old(self).packed(),
            ) == Ok::<Seq<u8>, ZipError>(old(self).state().seen),
    {
        let r = self.reader.read(n);
        proof {
            if old(self).tells() && n > 0 && (r is Ok && r->Ok_0@.len() == 0) {
                self.reader.read_through_is_the_whole(self.packed@);
            }
        }
        r
    }

    /// Reads all that is left of the contents.
    pub fn read_to_end(&mut self) -> (r: ZipResult<Vec<u8>>)
        requires
            old(self).ready(),
        ensures
            final(self).ready(),
            final(self)@ == old(self)@,
            final(self).packed() == old(self).packed(),
            match r {
                Ok(out) => old(self).left() == Ok::<Seq<u8>, ZipError>(out@),
                Err(e) => old(self).left() == Err::<Seq<u8>, ZipError>(e),
            },
    {
        self.reader.read_to_end()
    }
}

/// Contents that are read are those whose checksum is the one of the entry, and no others: where
/// they are stored as they are, they are the bytes that are stored.
pub proof fn contents_are_checked(f: FileRecord, packed: Seq<u8>)
    ensures
        contents_of(f, packed) matches Ok(plain) ==> crc32_of(plain) == f.crc32,
        f.compression_method is Stored && crc32_of(packed) == f.crc32 ==> contents_of(f, packed)
            == Ok::<Seq<u8>, ZipError>(packed),
        f.compression_method is Stored && crc32_of(packed) != f.crc32 ==> contents_of(f, packed)
            is Err,
        decoded(f.compression_method, packed) matches Ok(plain) ==> contents_of(f, packed)
            == if crc32_of(plain) == f.crc32 {
            Ok(plain)
        } else {
            Err(crate::result::other("Invalid checksum"))
        },
        decoded(f.compression_method, packed) is Err ==> contents_of(f, packed) is Err,
{
}

} // verus!
