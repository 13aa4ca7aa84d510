//! The headers that the plain generator writes: no ZIP64 records, no attributes.
use vstd::prelude::*;
use vstd::utf8::{encode_utf8, is_ascii_chars};

use crate::bytes::{put_u16, put_u32, u16_bytes, u32_bytes};
use crate::compression::CompressionMethod;
use crate::spec::{CENTRAL_DIRECTORY_HEADER_SIGNATURE, LOCAL_FILE_HEADER_SIGNATURE};
use crate::stream::{Cursor, StreamState};
use crate::util::{tm_to_msdos_date, tm_to_msdos_time, Tm};

verus! {

broadcast use crate::bytes::group_byte_lengths;

/// What the generator knows of a file.
#[derive(Debug)]
pub struct ZipFile {
    pub encrypted: bool,
    pub compression_method: CompressionMethod,
    pub last_modified_time: Tm,
    pub crc32: u32,
    pub compressed_size: u64,
    pub uncompressed_size: u64,
    pub file_name: String,
    pub file_comment: String,
    pub header_start: u64,
    pub data_start: u64,
}

/// The mathematical view of a [`ZipFile`].
#[verifier::ext_equal]
pub ghost struct PlainRecord {
    pub encrypted: bool,
    pub compression_method: CompressionMethod,
    pub last_modified_time: Tm,
    pub crc32: u32,
    pub compressed_size: u64,
    pub uncompressed_size: u64,
    pub file_name: Seq<char>,
    pub file_comment: Seq<char>,
    pub header_start: u64,
    pub data_start: u64,
}

impl View for ZipFile {
    type V = PlainRecord;

    open spec fn view(&self) -> PlainRecord {
        PlainRecord {
            encrypted: self.encrypted,
            compression_method: self.compression_method,
            last_modified_time: self.last_modified_time,
            crc32: self.crc32,
            compressed_size: self.compressed_size,
            uncompressed_size: self.uncompressed_size,
            file_name: self.file_name@,
            file_comment: self.file_comment@,
            header_start: self.header_start,
            data_start: self.data_start,
        }
    }
}

/// The time part of a time, as MS-DOS has it.
pub open spec fn dos_time(t: Tm) -> u16 {
    ((t.tm_sec >> 1) | (t.tm_min << 5) | (t.tm_hour << 11)) as u16
}

/// The date part of a time, as MS-DOS has it.
pub open spec fn dos_date(t: Tm) -> u16 {
    (t.tm_mday | (((t.tm_mon + 1) as i32) << 5) | (((t.tm_year - 80) as i32) << 9)) as u16
}

/// Whether a time has a date part.
pub open spec fn has_date(t: Tm) -> bool {
    t.tm_mon < i32::MAX && t.tm_year >= i32::MIN + 80
}

impl PlainRecord {
    /// The name, in bytes.
    pub open spec fn name_bytes(self) -> Seq<u8> {
        encode_utf8(self.file_name)
    }

    /// The fields that the two kinds of header have in common.
    #[verifier::opaque]
    pub open spec fn common(self) -> Seq<u8> {
        u16_bytes(20) + u16_bytes(
            if is_ascii_chars(self.file_name) {
                0
            } else {
                2048
            },
        ) + u16_bytes(self.compression_method.code()) + u16_bytes(dos_time(self.last_modified_time))
            + u16_bytes(dos_date(self.last_modified_time)) + u32_bytes(self.crc32) + u32_bytes(
            self.compressed_size as u32,
        ) + u32_bytes(self.uncompressed_size as u32) + u16_bytes(self.name_bytes().len() as u16)
            + u16_bytes(0)
    }

    /// The local header.
    pub open spec fn local_header(self) -> Seq<u8> {
        u32_bytes(LOCAL_FILE_HEADER_SIGNATURE) + self.common() + self.name_bytes()
    }

    /// The part of the local header that tells of the contents.
    pub open spec fn outcome(self) -> Seq<u8> {
        u32_bytes(self.crc32) + u32_bytes(self.compressed_size as u32) + u32_bytes(
            self.uncompressed_size as u32,
        )
    }

    /// The central header.
    pub open spec fn central_header(self) -> Seq<u8> {
        u32_bytes(CENTRAL_DIRECTORY_HEADER_SIGNATURE) + u16_bytes(0x14ff) + self.common()
            + u16_bytes(0) + u16_bytes(0) + u16_bytes(0) + u32_bytes(0) + u32_bytes(
            self.header_start as u32,
        ) + self.name_bytes()
    }
}

/// The length of a local header.
pub proof fn local_header_len(f: PlainRecord)
    ensures
        f.local_header().len() == 30 + f.name_bytes().len(),
{
    reveal(PlainRecord::common);
}

/// Appends the fields that the two kinds of header have in common.
fn put_common(out: &mut Vec<u8>, file: &ZipFile)
    requires
        has_date(file@.last_modified_time),
    ensures
        final(out)@ == old(out)@ + file@.common(),
{
    reveal(PlainRecord::common);
    let mut record: Vec<u8> = Vec::new();
    put_u16(&mut record, 20);
    let flag: u16 = if !file.file_name.as_str().is_ascii() {
        2048
    } else {
        0
    };
    put_u16(&mut record, flag);
    put_u16(&mut record, file.compression_method.to_u16());
    put_u16(&mut record, tm_to_msdos_time(file.last_modified_time));
    put_u16(&mut record, tm_to_msdos_date(file.last_modified_time));
    put_u32(&mut record, file.crc32);
    put_u32(&mut record, #[verifier::truncate] (file.compressed_size as u32));
    put_u32(&mut record, #[verifier::truncate] (file.uncompressed_size as u32));
    put_u16(&mut record, file.file_name.as_str().as_bytes().len() as u16);
    put_u16(&mut record, 0);
    assert(record@ =~= file@.common());
    out.append(&mut record);
}

/// Appends the local header.
pub fn write_local_file_header(out: &mut Vec<u8>, file: &ZipFile)
    requires
        has_date(file@.last_modified_time),
    ensures
        final(out)@ == old(out)@ + file@.local_header(),
{
    let mut record: Vec<u8> = Vec::new();
    put_u32(&mut record, LOCAL_FILE_HEADER_SIGNATURE);
    put_common(&mut record, file);
    record.extend_from_slice(file.file_name.as_str().as_bytes());
    assert(record@ =~= file@.local_header());
    out.append(&mut record);
}

/// Writes over the part of the local header that tells of the contents.
pub fn update_local_file_header(writer: &mut Cursor, file: &ZipFile)
    requires
        file@.header_start + 14 <= u64::MAX,
    ensures
        final(writer)@ == (StreamState {
            bytes: old(writer)@.bytes,
            pos: (file@.header_start + 14) as nat,
        }).written(file@.outcome()),
{
    writer.seek_start(file.header_start + 14);
    let mut part: Vec<u8> = Vec::new();
    put_u32(&mut part, file.crc32);
    put_u32(&mut part, #[verifier::truncate] (file.compressed_size as u32));
    put_u32(&mut part, #[verifier::truncate] (file.uncompressed_size as u32));
    assert(part@ =~= file@.outcome());
    writer.write_all(part.as_slice());
}

/// Appends the central header.
pub fn write_central_directory_header(out: &mut Vec<u8>, file: &ZipFile)
    requires
        has_date(file@.last_modified_time),
    ensures
        final(out)@ == old(out)@ + file@.central_header(),
{
    let mut record: Vec<u8> = Vec::new();
    put_u32(&mut record, CENTRAL_DIRECTORY_HEADER_SIGNATURE);
    put_u16(&mut record, 0x14ff);
    put_common(&mut record, file);
    put_u16(&mut record, 0);
    put_u16(&mut record, 0);
    put_u16(&mut record, 0);
    put_u32(&mut record, 0);
    put_u32(&mut record, #[verifier::truncate] (file.header_start as u32));
    record.extend_from_slice(file.file_name.as_str().as_bytes());
    assert(record@ =~= file@.central_header());
    out.append(&mut record);
}

} // verus!
