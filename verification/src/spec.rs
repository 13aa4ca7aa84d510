//! The records that end an archive.
use vstd::prelude::*;

use crate::bytes::{
    get_u16, get_u32, get_u64, put_u16, put_u32, put_u64, stands_at, stands_at_within, u16_at,
    u16_at_of_bytes, u16_bytes, u32_at, u32_at_of_bytes, u32_bytes, u64_at, u64_at_of_bytes,
    u64_bytes,
};
use crate::result::{eof, eof_error, ZipError, ZipResult};

verus! {

broadcast use crate::bytes::group_byte_lengths;

/// What a local file header begins with.
pub const LOCAL_FILE_HEADER_SIGNATURE: u32 = 0x04034b50;

/// What a central directory header begins with.
pub const CENTRAL_DIRECTORY_HEADER_SIGNATURE: u32 = 0x02014b50;

/// What the end of the central directory begins with.
pub const CENTRAL_DIRECTORY_END_SIGNATURE: u32 = 0x06054b50;

/// What the ZIP64 end of the central directory begins with.
pub const ZIP64_CENTRAL_DIRECTORY_END_SIGNATURE: u32 = 0x06064b50;

/// What the locator of the ZIP64 end of the central directory begins with.
pub const ZIP64_CENTRAL_DIRECTORY_END_LOCATOR_SIGNATURE: u32 = 0x07064b50;

/// The greatest size or offset that needs no ZIP64 record.
pub const ZIP64_BYTES_THR: u64 = 0xffff_ffff;

/// The greatest number of entries that needs no ZIP64 record.
pub const ZIP64_ENTRY_THR: usize = 0xffff;

/// The end of the central directory.
#[derive(Debug)]
pub struct CentralDirectoryEnd {
    pub disk_number: u16,
    pub disk_with_central_directory: u16,
    pub number_of_files_on_this_disk: u16,
    pub number_of_files: u16,
    pub central_directory_size: u32,
    pub central_directory_offset: u32,
    pub zip_file_comment: Vec<u8>,
}

/// What a [`CentralDirectoryEnd`] says.
#[verifier::ext_equal]
pub ghost struct Footer {
    pub disk_number: u16,
    pub disk_with_central_directory: u16,
    pub number_of_files_on_this_disk: u16,
    pub number_of_files: u16,
    pub central_directory_size: u32,
    pub central_directory_offset: u32,
    pub zip_file_comment: Seq<u8>,
}

impl View for CentralDirectoryEnd {
    type V = Footer;

    open spec fn view(&self) -> Footer {
        Footer {
            disk_number: self.disk_number,
            disk_with_central_directory: self.disk_with_central_directory,
            number_of_files_on_this_disk: self.number_of_files_on_this_disk,
            number_of_files: self.number_of_files,
            central_directory_size: self.central_directory_size,
            central_directory_offset: self.central_directory_offset,
            zip_file_comment: self.zip_file_comment@,
        }
    }
}

impl Footer {
    /// The bytes of this record.
    #[verifier::opaque]
    pub open spec fn bytes(self) -> Seq<u8> {
        u32_bytes(CENTRAL_DIRECTORY_END_SIGNATURE) + u16_bytes(self.disk_number) + u16_bytes(
            self.disk_with_central_directory,
        ) + u16_bytes(self.number_of_files_on_this_disk) + u16_bytes(self.number_of_files)
            + u32_bytes(self.central_directory_size) + u32_bytes(self.central_directory_offset)
            + u16_bytes(self.zip_file_comment.len() as u16) + self.zip_file_comment
    }

    /// Whether some field has no room for its value, so that a ZIP64 record is
    /// needed.
    pub open spec fn too_small(self) -> bool {
        ||| self.disk_number == 0xffff
        ||| self.disk_with_central_directory == 0xffff
        ||| self.number_of_files_on_this_disk == 0xffff
        ||| self.number_of_files == 0xffff
        ||| self.central_directory_size == 0xffff_ffff
        ||| self.central_directory_offset == 0xffff_ffff
    }
}

/// The fields of the end record whose bytes stand at `i`.
pub open spec fn footer_fields(b: Seq<u8>, i: int) -> Footer {
    Footer {
        disk_number: u16_at(b, i + 4),
        disk_with_central_directory: u16_at(b, i + 6),
        number_of_files_on_this_disk: u16_at(b, i + 8),
        number_of_files: u16_at(b, i + 10),
        central_directory_size: u32_at(b, i + 12),
        central_directory_offset: u32_at(b, i + 16),
        zip_file_comment: b.subrange(i + 22, i + 22 + u16_at(b, i + 20)),
    }
}

/// What is read as the end record at `i`.
pub open spec fn footer_at(b: Seq<u8>, i: int) -> ZipResult<Footer> {
    if i + 4 > b.len() {
        Err(eof())
    } else if u32_at(b, i) != CENTRAL_DIRECTORY_END_SIGNATURE {
        Err(ZipError::InvalidArchive("Invalid digital signature header"))
    } else if i + 22 > b.len() || i + 22 + u16_at(b, i + 20) > b.len() {
        Err(eof())
    } else {
        Ok(footer_fields(b, i))
    }
}

/// The last position from `lo` to `from` where an end record begins.
pub open spec fn last_footer(b: Seq<u8>, from: int, lo: int) -> Option<int>
    decreases from - lo + 1,
{
    if from < lo {
        None
    } else if u32_at(b, from) == CENTRAL_DIRECTORY_END_SIGNATURE {
        Some(from)
    } else {
        last_footer(b, from - 1, lo)
    }
}

/// The first position at which an end record may begin, for its comment to
/// reach the end of the data.
pub open spec fn footer_search_start(len: int) -> int {
    if len < 22 + 65535 {
        0
    } else {
        len - 22 - 65535
    }
}

/// The end record that is found in `b`, and where it begins.
pub open spec fn footer_found(b: Seq<u8>) -> ZipResult<(Footer, int)> {
    if b.len() < 22 {
        Err(ZipError::InvalidArchive("Invalid zip header"))
    } else {
        match last_footer(b, b.len() - 22, footer_search_start(b.len() as int)) {
            None => Err(ZipError::InvalidArchive("Could not find central directory end")),
            Some(i) => match footer_at(b, i) {
                Ok(footer) => Ok((footer, i)),
                Err(e) => Err(e),
            },
        }
    }
}

/// A record read where it was written is the record that was written, if its
/// comment is short enough for its length to be written.
pub proof fn footer_at_of_bytes(b: Seq<u8>, i: int, footer: Footer)
    requires
        stands_at(b, i, footer.bytes()),
        footer.zip_file_comment.len() <= 0xffff,
    ensures
        footer_at(b, i) == Ok::<Footer, ZipError>(footer),
        u32_at(b, i) == CENTRAL_DIRECTORY_END_SIGNATURE,
{
    reveal(Footer::bytes);
    let whole = footer.bytes();
    let n = footer.zip_file_comment.len() as u16;
    assert(stands_at(whole, 0, u32_bytes(CENTRAL_DIRECTORY_END_SIGNATURE))) by {
        assert(whole.subrange(0, 4) =~= u32_bytes(CENTRAL_DIRECTORY_END_SIGNATURE));
    }
    assert(stands_at(whole, 4, u16_bytes(footer.disk_number))) by {
        assert(whole.subrange(4, 6) =~= u16_bytes(footer.disk_number));
    }
    assert(stands_at(whole, 6, u16_bytes(footer.disk_with_central_directory))) by {
        assert(whole.subrange(6, 8) =~= u16_bytes(footer.disk_with_central_directory));
    }
    assert(stands_at(whole, 8, u16_bytes(footer.number_of_files_on_this_disk))) by {
        assert(whole.subrange(8, 10) =~= u16_bytes(footer.number_of_files_on_this_disk));
    }
    assert(stands_at(whole, 10, u16_bytes(footer.number_of_files))) by {
        assert(whole.subrange(10, 12) =~= u16_bytes(footer.number_of_files));
    }
    assert(stands_at(whole, 12, u32_bytes(footer.central_directory_size))) by {
        assert(whole.subrange(12, 16) =~= u32_bytes(footer.central_directory_size));
    }
    assert(stands_at(whole, 16, u32_bytes(footer.central_directory_offset))) by {
        assert(whole.subrange(16, 20) =~= u32_bytes(footer.central_directory_offset));
    }
    assert(stands_at(whole, 20, u16_bytes(n))) by {
        assert(whole.subrange(20, 22) =~= u16_bytes(n));
    }
    assert(stands_at(whole, 22, footer.zip_file_comment)) by {
        assert(whole.subrange(22, 22 + n) =~= footer.zip_file_comment);
    }
    stands_at_within(b, i, whole, 0, u32_bytes(CENTRAL_DIRECTORY_END_SIGNATURE));
    stands_at_within(b, i, whole, 4, u16_bytes(footer.disk_number));
    stands_at_within(b, i, whole, 6, u16_bytes(footer.disk_with_central_directory));
    stands_at_within(b, i, whole, 8, u16_bytes(footer.number_of_files_on_this_disk));
    stands_at_within(b, i, whole, 10, u16_bytes(footer.number_of_files));
    stands_at_within(b, i, whole, 12, u32_bytes(footer.central_directory_size));
    stands_at_within(b, i, whole, 16, u32_bytes(footer.central_directory_offset));
    stands_at_within(b, i, whole, 20, u16_bytes(n));
    stands_at_within(b, i, whole, 22, footer.zip_file_comment);
    u32_at_of_bytes(b, i, CENTRAL_DIRECTORY_END_SIGNATURE);
    u16_at_of_bytes(b, i + 4, footer.disk_number);
    u16_at_of_bytes(b, i + 6, footer.disk_with_central_directory);
    u16_at_of_bytes(b, i + 8, footer.number_of_files_on_this_disk);
    u16_at_of_bytes(b, i + 10, footer.number_of_files);
    u32_at_of_bytes(b, i + 12, footer.central_directory_size);
    u32_at_of_bytes(b, i + 16, footer.central_directory_offset);
    u16_at_of_bytes(b, i + 20, n);
}

/// Takes a piece out of a slice.
pub fn piece(data: &[u8], from: usize, to: usize) -> (r: Vec<u8>)
    requires
        from <= to <= data@.len(),
    ensures
        r@ == data@.subrange(from as int, to as int),
{
    vstd::slice::slice_to_vec(vstd::slice::slice_subrange(data, from, to))
}

impl CentralDirectoryEnd {
    /// A field of this record might be insufficient to hold the
    /// required data. In this case the file should contain a ZIP64 format record
    /// and the field of this record will be set to -1
    pub fn record_too_small(&self) -> (r: bool)
        ensures
            r == self@.too_small(),
    {
        self.disk_number == 0xffff || self.disk_with_central_directory == 0xffff
            || self.number_of_files_on_this_disk == 0xffff || self.number_of_files == 0xffff
            || self.central_directory_size == 0xffff_ffff || self.central_directory_offset
            == 0xffff_ffff
    }

    /// Reads the record that begins at `pos`.
    pub fn parse(data: &[u8], pos: usize) -> (r: ZipResult<CentralDirectoryEnd>)
        requires
            pos <= data@.len(),
        ensures
            match r {
                Ok(footer) => footer_at(data@, pos as int) == Ok::<Footer, ZipError>(footer@),
                Err(e) => footer_at(data@, pos as int) == Err::<Footer, ZipError>(e),
            },
    {
        if data.len() - pos < 4 {
            return Err(eof_error());
        }
        if get_u32(data, pos) != CENTRAL_DIRECTORY_END_SIGNATURE {
            return Err(ZipError::InvalidArchive("Invalid digital signature header"));
        }
        if data.len() - pos < 22 {
            return Err(eof_error());
        }
        let comment_length: usize = get_u16(data, pos + 20) as usize;
        if data.len() - (pos + 22) < comment_length {
            return Err(eof_error());
        }
        Ok(
            CentralDirectoryEnd {
                disk_number: get_u16(data, pos + 4),
                disk_with_central_directory: get_u16(data, pos + 6),
                number_of_files_on_this_disk: get_u16(data, pos + 8),
                number_of_files: get_u16(data, pos + 10),
                central_directory_size: get_u32(data, pos + 12),
                central_directory_offset: get_u32(data, pos + 16),
                zip_file_comment: piece(data, pos + 22, pos + 22 + comment_length),
            },
        )
    }

    /// Finds the last record in the data, and reads it.
    pub fn find_and_parse(data: &[u8]) -> (r: ZipResult<(CentralDirectoryEnd, u64)>)
        ensures
            match r {
                Ok((footer, pos)) => footer_found(data@) == Ok::<(Footer, int), ZipError>(
                    (footer@, pos as int),
                ),
                Err(e) => footer_found(data@) == Err::<(Footer, int), ZipError>(e),
            },
    {
        let len: usize = data.len();
        if len < 22 {
            return Err(ZipError::InvalidArchive("Invalid zip header"));
        }
        let lo: usize = len.saturating_sub(22 + 65535);
        let mut pos: usize = len - 22;
        loop
            invariant
                len == data@.len(),
                lo <= pos <= len - 22,
                lo == footer_search_start(len as int),
                last_footer(data@, len - 22, lo as int) == last_footer(data@, pos as int, lo as int),
            decreases pos,
        {
            if get_u32(data, pos) == CENTRAL_DIRECTORY_END_SIGNATURE {
                return match Self::parse(data, pos) {
                    Ok(footer) => Ok((footer, pos as u64)),
                    Err(e) => Err(e),
                };
            }
            if pos == lo {
                return Err(ZipError::InvalidArchive("Could not find central directory end"));
            }
            pos -= 1;
        }
    }

    /// Appends the bytes of this record.
    pub fn write(&self, out: &mut Vec<u8>)
        ensures
            final(out)@ == old(out)@ + self@.bytes(),
    {
        reveal(Footer::bytes);
        let mut record: Vec<u8> = Vec::new();
        put_u32(&mut record, CENTRAL_DIRECTORY_END_SIGNATURE);
        assert(record@ =~= u32_bytes(CENTRAL_DIRECTORY_END_SIGNATURE));
        put_u16(&mut record, self.disk_number);
        put_u16(&mut record, self.disk_with_central_directory);
        put_u16(&mut record, self.number_of_files_on_this_disk);
        put_u16(&mut record, self.number_of_files);
        put_u32(&mut record, self.central_directory_size);
        put_u32(&mut record, self.central_directory_offset);
        put_u16(&mut record, self.zip_file_comment.len() as u16);
        record.extend_from_slice(self.zip_file_comment.as_slice());
        assert(record@ == self@.bytes());
        out.append(&mut record);
    }
}

/// The locator of the ZIP64 end of the central directory.
#[derive(Clone, Copy, Debug)]
pub struct Zip64CentralDirectoryEndLocator {
    pub disk_with_central_directory: u32,
    pub end_of_central_directory_offset: u64,
    pub number_of_disks: u32,
}

/// What is read as the locator at `i`.
pub open spec fn locator_at(b: Seq<u8>, i: int) -> ZipResult<Zip64CentralDirectoryEndLocator> {
    if i + 4 > b.len() {
        Err(eof())
    } else if u32_at(b, i) != ZIP64_CENTRAL_DIRECTORY_END_LOCATOR_SIGNATURE {
        Err(ZipError::InvalidArchive("Invalid zip64 locator digital signature header"))
    } else if i + 20 > b.len() {
        Err(eof())
    } else {
        Ok(
            Zip64CentralDirectoryEndLocator {
                disk_with_central_directory: u32_at(b, i + 4),
                end_of_central_directory_offset: u64_at(b, i + 8),
                number_of_disks: u32_at(b, i + 16),
            },
        )
    }
}

impl Zip64CentralDirectoryEndLocator {
    /// The bytes of this record.
    #[verifier::opaque]
    pub open spec fn bytes(self) -> Seq<u8> {
        u32_bytes(ZIP64_CENTRAL_DIRECTORY_END_LOCATOR_SIGNATURE) + u32_bytes(
            self.disk_with_central_directory,
        ) + u64_bytes(self.end_of_central_directory_offset) + u32_bytes(self.number_of_disks)
    }

    /// Reads the record that begins at `pos`.
    pub fn parse(data: &[u8], pos: usize) -> (r: ZipResult<Zip64CentralDirectoryEndLocator>)
        requires
            pos <= data@.len(),
        ensures
            r == locator_at(data@, pos as int),
    {
        if data.len() - pos < 4 {
            return Err(eof_error());
        }
        if get_u32(data, pos) != ZIP64_CENTRAL_DIRECTORY_END_LOCATOR_SIGNATURE {
            return Err(
                ZipError::InvalidArchive("Invalid zip64 locator digital signature header"),
            );
        }
        if data.len() - pos < 20 {
            return Err(eof_error());
        }
        Ok(
            Zip64CentralDirectoryEndLocator {
                disk_with_central_directory: get_u32(data, pos + 4),
                end_of_central_directory_offset: get_u64(data, pos + 8),
                number_of_disks: get_u32(data, pos + 16),
            },
        )
    }

    /// Appends the bytes of this record.
    pub fn write(&self, out: &mut Vec<u8>)
        ensures
            final(out)@ == old(out)@ + self.bytes(),
    {
        reveal(Zip64CentralDirectoryEndLocator::bytes);
        let mut record: Vec<u8> = Vec::new();
        put_u32(&mut record, ZIP64_CENTRAL_DIRECTORY_END_LOCATOR_SIGNATURE);
        assert(record@ =~= u32_bytes(ZIP64_CENTRAL_DIRECTORY_END_LOCATOR_SIGNATURE));
        put_u32(&mut record, self.disk_with_central_directory);
        put_u64(&mut record, self.end_of_central_directory_offset);
        put_u32(&mut record, self.number_of_disks);
        assert(record@ == self.bytes());
        out.append(&mut record);
    }
}

/// A locator read where it was written is the locator that was written.
pub proof fn locator_at_of_bytes(b: Seq<u8>, i: int, locator: Zip64CentralDirectoryEndLocator)
    requires
        stands_at(b, i, locator.bytes()),
    ensures
        locator_at(b, i) == Ok::<Zip64CentralDirectoryEndLocator, ZipError>(locator),
{
    reveal(Zip64CentralDirectoryEndLocator::bytes);
    let whole = locator.bytes();
    assert(whole.subrange(0, 4) =~= u32_bytes(ZIP64_CENTRAL_DIRECTORY_END_LOCATOR_SIGNATURE));
    assert(whole.subrange(4, 8) =~= u32_bytes(locator.disk_with_central_directory));
    assert(whole.subrange(8, 16) =~= u64_bytes(locator.end_of_central_directory_offset));
    assert(whole.subrange(16, 20) =~= u32_bytes(locator.number_of_disks));
    stands_at_within(b, i, whole, 0, u32_bytes(ZIP64_CENTRAL_DIRECTORY_END_LOCATOR_SIGNATURE));
    stands_at_within(b, i, whole, 4, u32_bytes(locator.disk_with_central_directory));
    stands_at_within(b, i, whole, 8, u64_bytes(locator.end_of_central_directory_offset));
    stands_at_within(b, i, whole, 16, u32_bytes(locator.number_of_disks));
    u32_at_of_bytes(b, i, ZIP64_CENTRAL_DIRECTORY_END_LOCATOR_SIGNATURE);
    u32_at_of_bytes(b, i + 4, locator.disk_with_central_directory);
    u64_at_of_bytes(b, i + 8, locator.end_of_central_directory_offset);
    u32_at_of_bytes(b, i + 16, locator.number_of_disks);
}

/// The ZIP64 end of the central directory.
#[derive(Clone, Copy, Debug)]
pub struct Zip64CentralDirectoryEnd {
    pub version_made_by: u16,
    pub version_needed_to_extract: u16,
    pub disk_number: u32,
    pub disk_with_central_directory: u32,
    pub number_of_files_on_this_disk: u64,
    pub number_of_files: u64,
    pub central_directory_size: u64,
    pub central_directory_offset: u64,
}

/// The fields of the ZIP64 end record whose bytes stand at `i`.
pub open spec fn zip64_end_fields(b: Seq<u8>, i: int) -> Zip64CentralDirectoryEnd {
    Zip64CentralDirectoryEnd {
        version_made_by: u16_at(b, i + 12),
        version_needed_to_extract: u16_at(b, i + 14),
        disk_number: u32_at(b, i + 16),
        disk_with_central_directory: u32_at(b, i + 20),
        number_of_files_on_this_disk: u64_at(b, i + 24),
        number_of_files: u64_at(b, i + 32),
        central_directory_size: u64_at(b, i + 40),
        central_directory_offset: u64_at(b, i + 48),
    }
}

/// The ZIP64 end record that is found first from `pos` to `hi`, and how far
/// beyond `nominal` it begins.
pub open spec fn zip64_end_found(b: Seq<u8>, nominal: int, pos: int, hi: int) -> ZipResult<
    (Zip64CentralDirectoryEnd, int),
>
    decreases hi - pos + 1,
{
    if pos > hi {
        Err(ZipError::InvalidArchive("Could not find ZIP64 central directory end"))
    } else if pos + 4 > b.len() {
        Err(eof())
    } else if u32_at(b, pos) == ZIP64_CENTRAL_DIRECTORY_END_SIGNATURE {
        if pos + 56 > b.len() {
            Err(eof())
        } else {
            Ok((zip64_end_fields(b, pos), pos - nominal))
        }
    } else {
        zip64_end_found(b, nominal, pos + 1, hi)
    }
}

impl Zip64CentralDirectoryEnd {
    /// The bytes of this record.
    #[verifier::opaque]
    pub open spec fn bytes(self) -> Seq<u8> {
        u32_bytes(ZIP64_CENTRAL_DIRECTORY_END_SIGNATURE) + u64_bytes(44) + u16_bytes(
            self.version_made_by,
        ) + u16_bytes(self.version_needed_to_extract) + u32_bytes(self.disk_number) + u32_bytes(
            self.disk_with_central_directory,
        ) + u64_bytes(self.number_of_files_on_this_disk) + u64_bytes(self.number_of_files)
            + u64_bytes(self.central_directory_size) + u64_bytes(self.central_directory_offset)
    }

    /// Finds the first record from where it should begin up to a bound, and
    /// reads it. Besides it, returns how far it lies beyond where it should
    /// begin.
    pub fn find_and_parse(data: &[u8], nominal_offset: u64, search_upper_bound: u64) -> (r:
        ZipResult<(Zip64CentralDirectoryEnd, u64)>)
        ensures
            match r {
                Ok((end, shift)) => zip64_end_found(
                    data@,
                    nominal_offset as int,
                    nominal_offset as int,
                    search_upper_bound as int,
                ) == Ok::<(Zip64CentralDirectoryEnd, int), ZipError>((end, shift as int)),
                Err(e) => zip64_end_found(
                    data@,
                    nominal_offset as int,
                    nominal_offset as int,
                    search_upper_bound as int,
                ) == Err::<(Zip64CentralDirectoryEnd, int), ZipError>(e),
            },
    {
        let len: usize = data.len();
        let mut pos: u64 = nominal_offset;
        while pos <= search_upper_bound
            invariant
                len == data@.len(),
                nominal_offset <= pos,
                zip64_end_found(
                    data@,
                    nominal_offset as int,
                    nominal_offset as int,
                    search_upper_bound as int,
                ) == zip64_end_found(
                    data@,
                    nominal_offset as int,
                    pos as int,
                    search_upper_bound as int,
                ),
            decreases search_upper_bound + 1 - pos,
        {
            if len < 4 || pos > (len - 4) as u64 {
                return Err(eof_error());
            }
            let at: usize = pos as usize;
            if get_u32(data, at) == ZIP64_CENTRAL_DIRECTORY_END_SIGNATURE {
                if len - at < 56 {
                    return Err(eof_error());
                }
                return Ok(
                    (
                        Zip64CentralDirectoryEnd {
                            version_made_by: get_u16(data, at + 12),
                            version_needed_to_extract: get_u16(data, at + 14),
                            disk_number: get_u32(data, at + 16),
                            disk_with_central_directory: get_u32(data, at + 20),
                            number_of_files_on_this_disk: get_u64(data, at + 24),
                            number_of_files: get_u64(data, at + 32),
                            central_directory_size: get_u64(data, at + 40),
                            central_directory_offset: get_u64(data, at + 48),
                        },
                        pos - nominal_offset,
                    ),
                );
            }
            pos += 1;
        }
        Err(ZipError::InvalidArchive("Could not find ZIP64 central directory end"))
    }

    /// Appends the bytes of this record.
    pub fn write(&self, out: &mut Vec<u8>)
        ensures
            final(out)@ == old(out)@ + self.bytes(),
    {
        reveal(Zip64CentralDirectoryEnd::bytes);
        let mut record: Vec<u8> = Vec::new();
        put_u32(&mut record, ZIP64_CENTRAL_DIRECTORY_END_SIGNATURE);
        assert(record@ =~= u32_bytes(ZIP64_CENTRAL_DIRECTORY_END_SIGNATURE));
        // this record's size
        put_u64(&mut record, 44);
        put_u16(&mut record, self.version_made_by);
        put_u16(&mut record, self.version_needed_to_extract);
        put_u32(&mut record, self.disk_number);
        put_u32(&mut record, self.disk_with_central_directory);
        put_u64(&mut record, self.number_of_files_on_this_disk);
        put_u64(&mut record, self.number_of_files);
        put_u64(&mut record, self.central_directory_size);
        put_u64(&mut record, self.central_directory_offset);
        assert(record@ == self.bytes());
        out.append(&mut record);
    }
}

/// A ZIP64 end record read where it was written is the record that was written.
pub proof fn zip64_end_of_bytes(b: Seq<u8>, i: int, hi: int, end: Zip64CentralDirectoryEnd)
    requires
        stands_at(b, i, end.bytes()),
        i <= hi,
    ensures
        zip64_end_found(b, i, i, hi) == Ok::<(Zip64CentralDirectoryEnd, int), ZipError>((end, 0)),
{
    reveal(Zip64CentralDirectoryEnd::bytes);
    let whole = end.bytes();
    assert(whole.subrange(0, 4) =~= u32_bytes(ZIP64_CENTRAL_DIRECTORY_END_SIGNATURE));
    assert(whole.subrange(12, 14) =~= u16_bytes(end.version_made_by));
    assert(whole.subrange(14, 16) =~= u16_bytes(end.version_needed_to_extract));
    assert(whole.subrange(16, 20) =~= u32_bytes(end.disk_number));
    assert(whole.subrange(20, 24) =~= u32_bytes(end.disk_with_central_directory));
    assert(whole.subrange(24, 32) =~= u64_bytes(end.number_of_files_on_this_disk));
    assert(whole.subrange(32, 40) =~= u64_bytes(end.number_of_files));
    assert(whole.subrange(40, 48) =~= u64_bytes(end.central_directory_size));
    assert(whole.subrange(48, 56) =~= u64_bytes(end.central_directory_offset));
    stands_at_within(b, i, whole, 0, u32_bytes(ZIP64_CENTRAL_DIRECTORY_END_SIGNATURE));
    stands_at_within(b, i, whole, 12, u16_bytes(end.version_made_by));
    stands_at_within(b, i, whole, 14, u16_bytes(end.version_needed_to_extract));
    stands_at_within(b, i, whole, 16, u32_bytes(end.disk_number));
    stands_at_within(b, i, whole, 20, u32_bytes(end.disk_with_central_directory));
    stands_at_within(b, i, whole, 24, u64_bytes(end.number_of_files_on_this_disk));
    stands_at_within(b, i, whole, 32, u64_bytes(end.number_of_files));
    stands_at_within(b, i, whole, 40, u64_bytes(end.central_directory_size));
    stands_at_within(b, i, whole, 48, u64_bytes(end.central_directory_offset));
    u32_at_of_bytes(b, i, ZIP64_CENTRAL_DIRECTORY_END_SIGNATURE);
    u16_at_of_bytes(b, i + 12, end.version_made_by);
    u16_at_of_bytes(b, i + 14, end.version_needed_to_extract);
    u32_at_of_bytes(b, i + 16, end.disk_number);
    u32_at_of_bytes(b, i + 20, end.disk_with_central_directory);
    u64_at_of_bytes(b, i + 24, end.number_of_files_on_this_disk);
    u64_at_of_bytes(b, i + 32, end.number_of_files);
    u64_at_of_bytes(b, i + 40, end.central_directory_size);
    u64_at_of_bytes(b, i + 48, end.central_directory_offset);
}

/// The end record that is found is the last thing that looks like one: it begins as one does, and
/// nothing after it that leaves room for one does.
pub proof fn last_footer_is_last(b: Seq<u8>, from: int, lo: int)
    ensures
        last_footer(b, from, lo) matches Some(i) ==> {
            &&& lo <= i <= from
            &&& u32_at(b, i) == 0x06054b50
            &&& forall|j: int| i < j <= from ==> #[trigger] u32_at(b, j) != 0x06054b50
        },
        last_footer(b, from, lo) is None ==> forall|j: int|
            lo <= j <= from ==> #[trigger] u32_at(b, j) != 0x06054b50,
    decreases from - lo + 1,
{
    if from >= lo && u32_at(b, from) != 0x06054b50 {
        last_footer_is_last(b, from - 1, lo);
    }
}

/// What is found as the end record: bytes that are too few for one, or in which none begins that
/// could reach the end with its comment, hold none. One that is found is all there, and what it
/// tells stands in its places.
pub proof fn end_record_is_found(b: Seq<u8>)
    ensures
        b.len() < 22 ==> footer_found(b) is Err,
        (forall|j: int|
            0 <= j <= b.len() - 22 && j + 22 + 0xffff >= b.len() ==> #[trigger] u32_at(b, j)
                != 0x06054b50) ==> footer_found(b) is Err,
        footer_found(b) matches Ok((footer, i)) ==> {
            &&& 0 <= i
            &&& i + 22 + footer.zip_file_comment.len() <= b.len()
            &&& u32_at(b, i) == 0x06054b50
            &&& footer.disk_number == u16_at(b, i + 4)
            &&& footer.disk_with_central_directory == u16_at(b, i + 6)
            &&& footer.number_of_files_on_this_disk == u16_at(b, i + 8)
            &&& footer.number_of_files == u16_at(b, i + 10)
            &&& footer.central_directory_size == u32_at(b, i + 12)
            &&& footer.central_directory_offset == u32_at(b, i + 16)
            &&& footer.zip_file_comment.len() == u16_at(b, i + 20)
            &&& stands_at(b, i + 22, footer.zip_file_comment)
        },
        b.len() >= 22 ==> forall|j: int|
            0 <= j <= b.len() - 22 && j + 22 + 0xffff >= b.len() && #[trigger] u32_at(b, j)
                == 0x06054b50 ==> (last_footer(
                b,
                b.len() - 22,
                footer_search_start(b.len() as int),
            ) matches Some(i) && i >= j),
{
    let lo = footer_search_start(b.len() as int);
    last_footer_is_last(b, b.len() - 22, lo);
    if let Ok((footer, i)) = footer_found(b) {
        assert(b.subrange(i + 22, i + 22 + footer.zip_file_comment.len())
            =~= footer.zip_file_comment);
    }
}

} // verus!
