//! The headers that a writer puts before a file and into the central directory.
use vstd::prelude::*;
use vstd::utf8::{encode_utf8, is_ascii_chars};

use crate::bytes::{
    get_u16, put_u16, put_u32, put_u64, u16_at, u16_at_of_bytes, u16_bytes, u32_bytes, u64_bytes,
};
use crate::result::{other, other_error, ErrorKind, IoError, ZipError, ZipResult};
use crate::spec::{
    CENTRAL_DIRECTORY_HEADER_SIGNATURE, LOCAL_FILE_HEADER_SIGNATURE, ZIP64_BYTES_THR,
    ZIP64_ENTRY_THR,
};
use crate::stream::{overlay, overlay_twice, Cursor, StreamState};
use crate::types::{FileRecord, ZipFileData};

verus! {

broadcast use crate::bytes::group_byte_lengths;

/// `x`, or the greatest 32-bit integer if that is less.
pub open spec fn capped(x: u64) -> u32 {
    if x > ZIP64_BYTES_THR {
        0xffff_ffff
    } else {
        x as u32
    }
}

/// `x`, or the greatest 32-bit integer if that is less.
pub fn cap(x: u64) -> (r: u32)
    ensures
        r == capped(x),
{
    if x > ZIP64_BYTES_THR {
        0xffff_ffff
    } else {
        x as u32
    }
}

impl FileRecord {
    /// The bytes of the name.
    pub open spec fn name_bytes(self) -> Seq<u8> {
        encode_utf8(self.file_name)
    }

    /// The general purpose flags: bit eleven tells that the name is not ASCII.
    pub open spec fn flags(self) -> u16 {
        if is_ascii_chars(self.file_name) {
            0
        } else {
            2048
        }
    }

    /// The length of the ZIP64 record in the local header.
    pub open spec fn local_zip64_len(self) -> u16 {
        if self.large_file {
            20
        } else {
            0
        }
    }

    /// The length of the extra field of the local header, to sixteen bits.
    pub open spec fn local_extra_len(self) -> u16 {
        ((self.local_zip64_len() + (self.extra_field.len() as u16)) % 0x1_0000) as u16
    }

    /// The sizes in the local header: at their limit where a ZIP64 record holds
    /// them.
    pub open spec fn local_sizes(self) -> Seq<u8> {
        if self.large_file {
            u32_bytes(0xffff_ffff) + u32_bytes(0xffff_ffff)
        } else {
            u32_bytes(self.compressed_size as u32) + u32_bytes(self.uncompressed_size as u32)
        }
    }

    /// The sizes in the ZIP64 record of the local header.
    pub open spec fn zip64_sizes(self) -> Seq<u8> {
        u64_bytes(self.uncompressed_size) + u64_bytes(self.compressed_size)
    }

    /// The ZIP64 record of the local header.
    pub open spec fn local_zip64(self) -> Seq<u8> {
        if self.large_file {
            u16_bytes(0x0001) + u16_bytes(16) + self.zip64_sizes()
        } else {
            Seq::empty()
        }
    }

    /// The part of the local header that comes before the name.
    #[verifier::opaque]
    pub open spec fn local_fixed(self) -> Seq<u8> {
        u32_bytes(LOCAL_FILE_HEADER_SIGNATURE) + u16_bytes(self.version_needed()) + u16_bytes(
            self.flags(),
        ) + u16_bytes(self.compression_method.code()) + u16_bytes(
            self.last_modified_time.timepart(),
        ) + u16_bytes(self.last_modified_time.datepart()) + u32_bytes(self.crc32)
            + self.local_sizes() + u16_bytes(self.name_bytes().len() as u16) + u16_bytes(
            self.local_extra_len(),
        )
    }

    /// The local header, up to where the extra field that is not the ZIP64
    /// record would come.
    #[verifier::opaque]
    pub open spec fn local_header(self) -> Seq<u8> {
        self.local_fixed() + self.name_bytes() + self.local_zip64()
    }

    /// The data of the ZIP64 record in the central directory: those of three
    /// fields that are too large for their places.
    pub open spec fn central_zip64_data(self) -> Seq<u8> {
        (if self.uncompressed_size > ZIP64_BYTES_THR {
            u64_bytes(self.uncompressed_size)
        } else {
            Seq::empty()
        }) + (if self.compressed_size > ZIP64_BYTES_THR {
            u64_bytes(self.compressed_size)
        } else {
            Seq::empty()
        }) + (if self.header_start > ZIP64_BYTES_THR {
            u64_bytes(self.header_start)
        } else {
            Seq::empty()
        })
    }

    /// The ZIP64 record in the central directory, if one is needed.
    #[verifier::opaque]
    pub open spec fn central_zip64(self) -> Seq<u8> {
        let data = self.central_zip64_data();
        if data.len() == 0 {
            Seq::empty()
        } else {
            u16_bytes(0x0001) + u16_bytes(data.len() as u16) + data
        }
    }

    /// The extra data that is counted in the central header. In one that is streamed,
    /// none is.
    pub open spec fn counted_extra(self, streamed: bool) -> Seq<u8> {
        if streamed {
            Seq::empty()
        } else {
            self.extra_field
        }
    }

    /// The length of the extra field of the central header, to sixteen bits.
    pub open spec fn central_extra_len(self, streamed: bool) -> u16 {
        ((self.central_zip64().len() + (self.counted_extra(streamed).len() as u16))
            % 0x1_0000) as u16
    }

    /// The general purpose flags in a central header. In one that is streamed, bit zero
    /// tells that the file is encrypted.
    pub open spec fn central_flags(self, streamed: bool) -> u16 {
        (self.flags() + if streamed && self.encrypted {
            1int
        } else {
            0
        }) as u16
    }

    /// The part of the central header that comes before the name.
    #[verifier::opaque]
    pub open spec fn central_fixed(self, streamed: bool) -> Seq<u8> {
        u32_bytes(CENTRAL_DIRECTORY_HEADER_SIGNATURE) + u16_bytes(
            (self.system.code() * 256 + self.version_made_by) as u16,
        ) + u16_bytes(self.version_needed()) + u16_bytes(self.central_flags(streamed)) + u16_bytes(
            self.compression_method.code(),
        ) + u16_bytes(self.last_modified_time.timepart()) + u16_bytes(
            self.last_modified_time.datepart(),
        ) + u32_bytes(self.crc32) + u32_bytes(capped(self.compressed_size)) + u32_bytes(
            capped(self.uncompressed_size),
        ) + u16_bytes(self.name_bytes().len() as u16) + u16_bytes(self.central_extra_len(streamed))
            + u16_bytes(0) + u16_bytes(0) + u16_bytes(0) + u32_bytes(self.external_attributes)
            + u32_bytes(capped(self.header_start))
    }

    /// The central header.
    #[verifier::opaque]
    pub open spec fn central_header(self, streamed: bool) -> Seq<u8> {
        self.central_fixed(streamed) + self.name_bytes() + self.central_zip64() + self.extra_field
    }
}

/// The lengths of the parts of the headers.
pub proof fn header_lengths(f: FileRecord)
    ensures
        f.local_fixed().len() == 30,
        f.local_zip64().len() == f.local_zip64_len(),
        f.central_fixed(true).len() == 46,
        f.central_fixed(false).len() == 46,
        f.central_zip64().len() <= 28,
        f.local_header().len() == 30 + f.name_bytes().len() + f.local_zip64_len(),
        f.central_header(true).len() == 46 + f.name_bytes().len() + f.central_zip64().len()
            + f.extra_field.len(),
        f.central_header(false).len() == f.central_header(true).len(),
{
    reveal(FileRecord::local_fixed);
    reveal(FileRecord::local_header);
    reveal(FileRecord::central_fixed);
    reveal(FileRecord::central_header);
    reveal(FileRecord::central_zip64);
}

/// The length of the name of a file, in bytes.
fn name_len(file: &ZipFileData) -> (n: usize)
    ensures
        n == file@.name_bytes().len(),
{
    file.file_name.as_str().as_bytes().len()
}

/// Appends the ZIP64 record of the local header.
pub fn write_local_zip64_extra_field(out: &mut Vec<u8>, file: &ZipFileData)
    requires
        file.large_file,
    ensures
        final(out)@ == old(out)@ + file@.local_zip64(),
{
    // This entry in the Local header MUST include BOTH original
    // and compressed file size fields.
    let mut record: Vec<u8> = Vec::new();
    put_u16(&mut record, 0x0001);
    assert(record@ =~= u16_bytes(0x0001));
    put_u16(&mut record, 16);
    put_u64(&mut record, file.uncompressed_size);
    put_u64(&mut record, file.compressed_size);
    // Excluded fields:
    // u32: disk start number
    assert(record@ =~= file@.local_zip64());
    out.append(&mut record);
}

/// Appends the local header.
pub fn write_local_file_header(out: &mut Vec<u8>, file: &ZipFileData)
    ensures
        final(out)@ == old(out)@ + file@.local_header(),
        file@.last_modified_time.fits(),
{
    reveal(FileRecord::local_fixed);
    reveal(FileRecord::local_header);
    let mut record: Vec<u8> = Vec::new();
    // local file header signature
    put_u32(&mut record, LOCAL_FILE_HEADER_SIGNATURE);
    assert(record@ =~= u32_bytes(LOCAL_FILE_HEADER_SIGNATURE));
    // version needed to extract
    put_u16(&mut record, file.version_needed());
    // general purpose bit flag
    let flag: u16 = if !file.file_name.as_str().is_ascii() {
        2048
    } else {
        0
    };
    put_u16(&mut record, flag);
    // Compression method
    put_u16(&mut record, file.compression_method.to_u16());
    // last mod file time and last mod file date
    put_u16(&mut record, file.last_modified_time.timepart());
    put_u16(&mut record, file.last_modified_time.datepart());
    // crc-32
    put_u32(&mut record, file.crc32);
    // compressed size and uncompressed size
    let ghost before = record@;
    if file.large_file {
        put_u32(&mut record, 0xffff_ffff);
        put_u32(&mut record, 0xffff_ffff);
    } else {
        put_u32(&mut record, file.compressed_size as u32);
        put_u32(&mut record, file.uncompressed_size as u32);
    }
    assert(record@ =~= before + file@.local_sizes());
    // file name length
    put_u16(&mut record, name_len(file) as u16);
    // extra field length
    let zip64_length: u16 = if file.large_file {
        20
    } else {
        0
    };
    put_u16(&mut record, zip64_length.wrapping_add(file.extra_field.len() as u16));
    assert(record@ == file@.local_fixed());
    // file name
    record.extend_from_slice(file.file_name.as_str().as_bytes());
    // zip64 extra field
    if file.large_file {
        write_local_zip64_extra_field(&mut record, file);
    }
    assert(record@ =~= file@.local_header());
    out.append(&mut record);
}

/// A local header with the checksum and the sizes of `f` written over those
/// that it has.
#[verifier::opaque]
pub open spec fn local_patched(b: Seq<u8>, f: FileRecord) -> Seq<u8> {
    let at = f.header_start as int;
    if f.large_file {
        overlay(
            overlay(b, at + 14, u32_bytes(f.crc32)),
            at + 30 + f.name_bytes().len() + 4,
            f.zip64_sizes(),
        )
    } else {
        overlay(
            b,
            at + 14,
            u32_bytes(f.crc32) + u32_bytes(f.compressed_size as u32) + u32_bytes(
                f.uncompressed_size as u32,
            ),
        )
    }
}

/// The stream after the attempt to complete the local header of a file that is too
/// large: the checksum of `f` is written, and nothing more.
pub open spec fn cut_short(b: Seq<u8>, f: FileRecord) -> StreamState {
    StreamState {
        bytes: overlay(b, f.header_start + 14, u32_bytes(f.crc32)),
        pos: (f.header_start + 18) as nat,
    }
}

/// The failure of a file that is larger than was allowed for.
pub open spec fn not_large() -> ZipError {
    other("Large file option has not been set")
}

/// Writes the sizes into the ZIP64 record of the local header.
fn update_local_zip64_extra_field(writer: &mut Cursor, file: &ZipFileData)
    requires
        file@.header_start + 30 + file@.name_bytes().len() + 4 <= u64::MAX,
    ensures
        final(writer)@.bytes == overlay(
            old(writer)@.bytes,
            file@.header_start + 30 + file@.name_bytes().len() + 4,
            file@.zip64_sizes(),
        ),
        final(writer)@.pos == file@.header_start + 30 + file@.name_bytes().len() + 20,
{
    let zip64_extra_field: u64 = file.header_start + 30 + name_len(file) as u64;
    writer.seek_start(zip64_extra_field + 4);
    let mut sizes: Vec<u8> = Vec::new();
    put_u64(&mut sizes, file.uncompressed_size);
    assert(sizes@ =~= u64_bytes(file.uncompressed_size));
    put_u64(&mut sizes, file.compressed_size);
    // Excluded fields:
    // u32: disk start number
    writer.write_all(sizes.as_slice());
}

/// Writes the checksum and the sizes into the local header. Where a size is too large
/// for its place, stops after the checksum.
pub fn update_local_file_header(writer: &mut Cursor, file: &ZipFileData) -> (r: ZipResult<()>)
    requires
        file@.header_start + 30 + file@.name_bytes().len() + file@.local_zip64_len() <= u64::MAX,
    ensures
        !file@.large_file && file@.compressed_size > ZIP64_BYTES_THR ==> {
            &&& r == Err::<(), ZipError>(not_large())
            &&& final(writer)@ == cut_short(old(writer)@.bytes, file@)
        },
        file@.large_file || file@.compressed_size <= ZIP64_BYTES_THR ==> {
            &&& r is Ok
            &&& final(writer)@.bytes == local_patched(old(writer)@.bytes, file@)
            &&& final(writer)@.pos == file@.header_start + if file@.large_file {
                30 + file@.name_bytes().len() + 20
            } else {
                26
            }
        },
{
    reveal(local_patched);
    writer.seek_start(file.header_start + 14);
    let mut checksum: Vec<u8> = Vec::new();
    put_u32(&mut checksum, file.crc32);
    assert(checksum@ =~= u32_bytes(file.crc32));
    writer.write_all(checksum.as_slice());
    if file.large_file {
        update_local_zip64_extra_field(writer, file);
    } else {
        // check compressed size as well as it can also be slightly larger than uncompressed size
        if file.compressed_size > ZIP64_BYTES_THR {
            return Err(other_error("Large file option has not been set"));
        }
        let mut sizes: Vec<u8> = Vec::new();
        put_u32(&mut sizes, file.compressed_size as u32);
        assert(sizes@ =~= u32_bytes(file.compressed_size as u32));
        // uncompressed size is already checked on write to catch it as soon as possible
        put_u32(&mut sizes, file.uncompressed_size as u32);
        writer.write_all(sizes.as_slice());
        proof {
            overlay_twice(old(writer)@.bytes, file@.header_start + 14, checksum@, sizes@);
            assert(checksum@ + sizes@ =~= u32_bytes(file.crc32) + u32_bytes(
                file.compressed_size as u32,
            ) + u32_bytes(file.uncompressed_size as u32));
        }
    }
    Ok(())
}

/// Appends the ZIP64 record of the central header, if one is needed. Returns
/// its length.
pub fn write_central_zip64_extra_field(out: &mut Vec<u8>, file: &ZipFileData) -> (r: u16)
    ensures
        final(out)@ == old(out)@ + file@.central_zip64(),
        r == file@.central_zip64().len(),
{
    reveal(FileRecord::central_zip64);
    // The order of the fields in the zip64 extended
    // information record is fixed, but the fields MUST
    // only appear if the corresponding Local or Central
    // directory record field is set to 0xFFFF or 0xFFFFFFFF.
    let mut data: Vec<u8> = Vec::new();
    if file.uncompressed_size > ZIP64_BYTES_THR {
        put_u64(&mut data, file.uncompressed_size);
    }
    if file.compressed_size > ZIP64_BYTES_THR {
        put_u64(&mut data, file.compressed_size);
    }
    if file.header_start > ZIP64_BYTES_THR {
        put_u64(&mut data, file.header_start);
    }
    // Excluded fields:
    // u32: disk start number

    assert(data@ =~= file@.central_zip64_data());
    let size: usize = data.len();
    if size == 0 {
        assert(file@.central_zip64() =~= Seq::empty());
        assert(out@ + file@.central_zip64() =~= out@);
        return 0;
    }
    let mut record: Vec<u8> = Vec::new();
    put_u16(&mut record, 0x0001);
    assert(record@ =~= u16_bytes(0x0001));
    put_u16(&mut record, size as u16);
    record.append(&mut data);
    assert(record@ == file@.central_zip64());
    out.append(&mut record);
    size as u16 + 4
}

/// Appends the central header.
pub fn write_central_directory_header(out: &mut Vec<u8>, file: &ZipFileData)
    ensures
        final(out)@ == old(out)@ + file@.central_header(false),
{
    reveal(FileRecord::central_fixed);
    reveal(FileRecord::central_header);
    // buffer zip64 extra field to determine its variable length
    let mut zip64_extra_field: Vec<u8> = Vec::new();
    let zip64_extra_field_length: u16 = write_central_zip64_extra_field(
        &mut zip64_extra_field,
        file,
    );
    assert(zip64_extra_field@ =~= file@.central_zip64());
    let mut record: Vec<u8> = Vec::new();
    // central file header signature
    put_u32(&mut record, CENTRAL_DIRECTORY_HEADER_SIGNATURE);
    assert(record@ =~= u32_bytes(CENTRAL_DIRECTORY_HEADER_SIGNATURE));
    // version made by
    let version_made_by: u16 = file.system.to_u16() * 256 + file.version_made_by as u16;
    put_u16(&mut record, version_made_by);
    // version needed to extract
    put_u16(&mut record, file.version_needed());
    // general puprose bit flag
    let flag: u16 = if !file.file_name.as_str().is_ascii() {
        2048
    } else {
        0
    };
    put_u16(&mut record, flag);
    // compression method
    put_u16(&mut record, file.compression_method.to_u16());
    // last mod file time + date
    put_u16(&mut record, file.last_modified_time.timepart());
    put_u16(&mut record, file.last_modified_time.datepart());
    // crc-32
    put_u32(&mut record, file.crc32);
    // compressed size
    put_u32(&mut record, cap(file.compressed_size));
    // uncompressed size
    put_u32(&mut record, cap(file.uncompressed_size));
    // file name length
    put_u16(&mut record, name_len(file) as u16);
    // extra field length
    put_u16(
        &mut record,
        zip64_extra_field_length.wrapping_add(file.extra_field.len() as u16),
    );
    // file comment length
    put_u16(&mut record, 0);
    // disk number start
    put_u16(&mut record, 0);
    // internal file attribytes
    put_u16(&mut record, 0);
    // external file attributes
    put_u32(&mut record, file.external_attributes);
    // relative offset of local header
    put_u32(&mut record, cap(file.header_start));
    assert(record@ == file@.central_fixed(false));
    // file name
    record.extend_from_slice(file.file_name.as_str().as_bytes());
    // zip64 extra field
    record.append(&mut zip64_extra_field);
    // extra field
    record.extend_from_slice(file.extra_field.as_slice());
    // file comment
    // <none>

    assert(record@ == file@.central_header(false));
    out.append(&mut record);
}

/// Whether a header id of extra data is mapped to a known use.
pub open spec fn is_mapped(kind: u16) -> bool {
    match kind {
        0x0001 | 0x0007 | 0x0008 | 0x0009 | 0x000a | 0x000c | 0x000d | 0x000e
        | 0x000f | 0x0014 | 0x0015 | 0x0016 | 0x0017 | 0x0018 | 0x0019 | 0x0020
        | 0x0021 | 0x0022 | 0x0023 | 0x0065 | 0x0066 | 0x4690 | 0x07c8 | 0x2605
        | 0x2705 | 0x2805 | 0x334d | 0x4341 | 0x4453 | 0x4704 | 0x470f | 0x4b46
        | 0x4c41 | 0x4d49 | 0x4f4c | 0x5356 | 0x5455 | 0x554e | 0x5855 | 0x6375
        | 0x6542 | 0x7075 | 0x756e | 0x7855 | 0xa11e | 0xa220 | 0xfd4a | 0x9901
        | 0x9902 => true,
        _ => false,
    }
}

/// Whether a header id of extra data is not free for use: the first ones are
/// reserved, and some others are mapped to a known use.
pub open spec fn is_reserved(kind: u16) -> bool {
    kind <= 31 || is_mapped(kind)
}

/// Whether a header id of extra data is mapped to a known use.
fn extra_field_mapped(kind: u16) -> (r: bool)
    ensures
        r == is_mapped(kind),
{
    match kind {
        0x0001 | 0x0007 | 0x0008 | 0x0009 | 0x000a | 0x000c | 0x000d | 0x000e
        | 0x000f | 0x0014 | 0x0015 | 0x0016 | 0x0017 | 0x0018 | 0x0019 | 0x0020
        | 0x0021 | 0x0022 | 0x0023 | 0x0065 | 0x0066 | 0x4690 | 0x07c8 | 0x2605
        | 0x2705 | 0x2805 | 0x334d | 0x4341 | 0x4453 | 0x4704 | 0x470f | 0x4b46
        | 0x4c41 | 0x4d49 | 0x4f4c | 0x5356 | 0x5455 | 0x554e | 0x5855 | 0x6375
        | 0x6542 | 0x7075 | 0x756e | 0x7855 | 0xa11e | 0xa220 | 0xfd4a | 0x9901
        | 0x9902 => true,
        _ => false,
    }
}

/// What is wrong with the extra data records from the one at `p` on, if
/// anything.
pub open spec fn extra_flaw(x: Seq<u8>, p: int) -> Option<ZipError>
    decreases x.len() - p,
{
    if p >= x.len() {
        None
    } else if p + 4 > x.len() {
        Some(other("Incomplete extra data header"))
    } else if u16_at(x, p) == 0x0001 {
        Some(other("No custom ZIP64 extra data allowed"))
    } else if is_reserved(u16_at(x, p)) {
        Some(ZipError::Io(IoError::ReservedHeaderId(u16_at(x, p))))
    } else if p + 4 + u16_at(x, p + 2) > x.len() {
        Some(other("Extra data size exceeds extra field"))
    } else {
        extra_flaw(x, p + 4 + u16_at(x, p + 2))
    }
}

/// What is wrong with extra data, if anything: it must fit into an extra
/// field, and be made of whole records with header ids that are free for use.
pub open spec fn extra_data_flaw(x: Seq<u8>) -> Option<ZipError> {
    if x.len() > 0xffff {
        Some(
            ZipError::Io(
                IoError::Simple(ErrorKind::InvalidData, "Extra data exceeds extra field"),
            ),
        )
    } else {
        extra_flaw(x, 0)
    }
}

/// Checks the extra data of a file.
pub fn validate_extra_data(file: &ZipFileData) -> (r: ZipResult<()>)
    ensures
        match r {
            Ok(_) => extra_data_flaw(file@.extra_field) is None,
            Err(e) => extra_data_flaw(file@.extra_field) == Some(e),
        },
{
    let data = file.extra_field.as_slice();
    let len: usize = data.len();
    if len > ZIP64_ENTRY_THR {
        return Err(
            ZipError::Io(
                IoError::Simple(ErrorKind::InvalidData, "Extra data exceeds extra field"),
            ),
        );
    }
    let mut pos: usize = 0;
    while pos < len
        invariant
            pos <= len <= 0xffff,
            len == data@.len(),
            data@ == file@.extra_field,
            extra_flaw(data@, 0) == extra_flaw(data@, pos as int),
        decreases len - pos,
    {
        let left: usize = len - pos;
        if left < 4 {
            return Err(other_error("Incomplete extra data header"));
        }
        let kind: u16 = get_u16(data, pos);
        let size: usize = get_u16(data, pos + 2) as usize;
        let left: usize = left - 4;

        if kind == 0x0001 {
            return Err(other_error("No custom ZIP64 extra data allowed"));
        }
        if kind <= 31 || extra_field_mapped(kind) {
            return Err(ZipError::Io(IoError::ReservedHeaderId(kind)));
        }
        if size > left {
            return Err(other_error("Extra data size exceeds extra field"));
        }
        pos = pos + 4 + size;
    }
    Ok(())
}

/// Extra data is made of records, each of them a header id, a length and as many bytes. One whose
/// header id is free for use is passed over, and what follows decides. One whose header id is not,
/// is refused, as is one that ends before its length does.
pub proof fn extra_records_are_judged(kind: u16, data: Seq<u8>, rest: Seq<u8>)
    requires
        data.len() <= 0xffff,
    ensures
        ({
            let record = u16_bytes(kind) + u16_bytes(data.len() as u16) + data;
            let whole = record + rest;
            &&& kind > 31 && !is_mapped(kind) ==> extra_flaw(whole, 0) == extra_flaw(rest, 0)
            &&& kind <= 31 || is_mapped(kind) ==> extra_flaw(whole, 0) is Some
            &&& kind == 1 ==> extra_flaw(whole, 0) == Some(
                other("No custom ZIP64 extra data allowed"),
            )
            &&& kind != 1 && (kind <= 31 || is_mapped(kind)) ==> extra_flaw(whole, 0) == Some(
                ZipError::Io(IoError::ReservedHeaderId(kind)),
            )
            &&& forall|n: int| 0 < n < record.len() ==> extra_flaw(#[trigger] record.take(n), 0)
                is Some
        }),
{
    let record = u16_bytes(kind) + u16_bytes(data.len() as u16) + data;
    let whole = record + rest;
    assert(whole.subrange(0, 2) =~= u16_bytes(kind));
    assert(whole.subrange(2, 4) =~= u16_bytes(data.len() as u16));
    u16_at_of_bytes(whole, 0, kind);
    u16_at_of_bytes(whole, 2, data.len() as u16);
    extra_flaw_after(record, rest, 0);
    assert forall|n: int| 0 < n < record.len() implies extra_flaw(#[trigger] record.take(n), 0)
        is Some by {
        let cut = record.take(n);
        if n >= 4 {
            assert(cut.subrange(0, 2) =~= u16_bytes(kind));
            assert(cut.subrange(2, 4) =~= u16_bytes(data.len() as u16));
            u16_at_of_bytes(cut, 0, kind);
            u16_at_of_bytes(cut, 2, data.len() as u16);
        }
    }
}

/// What comes before records makes no difference to what is wrong with them.
proof fn extra_flaw_after(before: Seq<u8>, x: Seq<u8>, p: int)
    requires
        0 <= p,
    ensures
        extra_flaw(before + x, before.len() + p) == extra_flaw(x, p),
    decreases x.len() - p,
{
    if p < x.len() && p + 4 <= x.len() {
        let whole = before + x;
        let k = before.len() as int;
        assert(whole[k + p] == x[p] && whole[k + p + 1] == x[p + 1]);
        assert(whole[k + p + 2] == x[p + 2] && whole[k + p + 3] == x[p + 3]);
        reveal(u16_at);
        if p + 4 + u16_at(x, p + 2) <= x.len() {
            extra_flaw_after(before, x, p + 4 + u16_at(x, p + 2));
        }
    }
}

/// Extra data that is too long is refused, and there being none is not.
pub proof fn extra_data_is_limited(x: Seq<u8>)
    ensures
        x.len() > 0xffff ==> extra_data_flaw(x) is Some,
        x.len() == 0 ==> extra_data_flaw(x) is None,
        extra_data_flaw(x) is None ==> extra_flaw(x, 0) is None,
{
}

/// The header ids that others have taken: of compression, of systems and of tools, by their
/// numbers.
pub proof fn taken_header_ids(kind: u16)
    ensures
        is_mapped(kind) <==> seq![
            0x0001u16, 0x0007, 0x0008, 0x0009, 0x000a, 0x000c, 0x000d, 0x000e, 0x000f, 0x0014,
            0x0015, 0x0016, 0x0017, 0x0018, 0x0019, 0x0020, 0x0021, 0x0022, 0x0023, 0x0065,
            0x0066, 0x4690, 0x07c8, 0x2605, 0x2705, 0x2805, 0x334d, 0x4341, 0x4453, 0x4704,
            0x470f, 0x4b46, 0x4c41, 0x4d49, 0x4f4c, 0x5356, 0x5455, 0x554e, 0x5855, 0x6375,
            0x6542, 0x7075, 0x756e, 0x7855, 0xa11e, 0xa220, 0xfd4a, 0x9901, 0x9902,
        ].contains(kind),
{
    let ids = seq![
        0x0001u16, 0x0007, 0x0008, 0x0009, 0x000a, 0x000c, 0x000d, 0x000e, 0x000f, 0x0014,
        0x0015, 0x0016, 0x0017, 0x0018, 0x0019, 0x0020, 0x0021, 0x0022, 0x0023, 0x0065,
        0x0066, 0x4690, 0x07c8, 0x2605, 0x2705, 0x2805, 0x334d, 0x4341, 0x4453, 0x4704,
        0x470f, 0x4b46, 0x4c41, 0x4d49, 0x4f4c, 0x5356, 0x5455, 0x554e, 0x5855, 0x6375,
        0x6542, 0x7075, 0x756e, 0x7855, 0xa11e, 0xa220, 0xfd4a, 0x9901, 0x9902,
    ];
    assert(ids.len() == 49);
    assert(ids[0] == 0x0001 && ids[1] == 0x0007 && ids[2] == 0x0008 && ids[3] == 0x0009);
    assert(ids[4] == 0x000a && ids[5] == 0x000c && ids[6] == 0x000d && ids[7] == 0x000e);
    assert(ids[8] == 0x000f && ids[9] == 0x0014 && ids[10] == 0x0015 && ids[11] == 0x0016);
    assert(ids[12] == 0x0017 && ids[13] == 0x0018 && ids[14] == 0x0019 && ids[15] == 0x0020);
    assert(ids[16] == 0x0021 && ids[17] == 0x0022 && ids[18] == 0x0023 && ids[19] == 0x0065);
    assert(ids[20] == 0x0066 && ids[21] == 0x4690 && ids[22] == 0x07c8 && ids[23] == 0x2605);
    assert(ids[24] == 0x2705 && ids[25] == 0x2805 && ids[26] == 0x334d && ids[27] == 0x4341);
    assert(ids[28] == 0x4453 && ids[29] == 0x4704 && ids[30] == 0x470f && ids[31] == 0x4b46);
    assert(ids[32] == 0x4c41 && ids[33] == 0x4d49 && ids[34] == 0x4f4c && ids[35] == 0x5356);
    assert(ids[36] == 0x5455 && ids[37] == 0x554e && ids[38] == 0x5855 && ids[39] == 0x6375);
    assert(ids[40] == 0x6542 && ids[41] == 0x7075 && ids[42] == 0x756e && ids[43] == 0x7855);
    assert(ids[44] == 0xa11e && ids[45] == 0xa220 && ids[46] == 0xfd4a && ids[47] == 0x9901);
    assert(ids[48] == 0x9902);
}

} // verus!
