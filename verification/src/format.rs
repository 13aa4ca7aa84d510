//! The records of the format, as they stand in an archive.
use vstd::prelude::*;
use vstd::string::*;

use crate::bytes::{
    get_u16, get_u32, get_u64, u16_at, u16_at_of_bytes, u16_bytes, u32_at, u32_at_of_bytes,
    u32_bytes, u64_at, u64_at_of_bytes, u64_bytes,
};
use crate::text::{decimal_padded, decimal_padded_spec};

verus! {

broadcast use crate::bytes::group_byte_lengths;

/// How the contents of an entry are stored, by the number of the method.
#[derive(Copy, Clone, PartialEq, Eq, Structural)]
pub struct CompressionMethod {
    pub code: u16,
}

/// A number in decimal.
pub open spec fn decimal(n: nat) -> Seq<char> {
    decimal_padded_spec(n, 1)
}

impl CompressionMethod {
    /// Contents are stored as they are.
    pub fn stored() -> (r: CompressionMethod)
        ensures
            r.code == 0,
    {
        CompressionMethod { code: 0 }
    }

    /// Contents are compressed with Deflate.
    pub fn deflate() -> (r: CompressionMethod)
        ensures
            r.code == 8,
    {
        CompressionMethod { code: 8 }
    }

    /// What a known method is called.
    pub open spec fn phrase(self) -> Option<&'static str> {
        match self.code {
            0 => Some("no compression"),
            1 => Some("a deprecated method (shrunk)"),
            2 => Some("a deprecated method (reduced with factor 1)"),
            3 => Some("a deprecated method (reduced with factor 2)"),
            4 => Some("a deprecated method (reduced with factor 3)"),
            5 => Some("a deprecated method (reduced with factor 4)"),
            6 => Some("a deprecated method (imploded)"),
            7 => Some("a reserved method (PKWARE tokenizing algorithm)"),
            8 => Some("deflate compression"),
            9 => Some("deflate64 compression"),
            10 => Some("PKWARE TERSE"),
            11 => Some("a reserved method (11)"),
            12 => Some("BZIP2 compression"),
            13 => Some("a reserved method (13)"),
            14 => Some("LZMA compression"),
            15 => Some("a reserved method (15)"),
            16 => Some("IBM z/OS CMPSC compression"),
            17 => Some("a reserved method (17)"),
            18 => Some("IBM TERSE"),
            19 => Some("LZ77 compression"),
            20 => Some("a deprecated method (zstd)"),
            93 => Some("zstd compression"),
            94 => Some("MP3 encoding"),
            95 => Some("XZ compression"),
            96 => Some("JPEG encoding"),
            97 => Some("WavPack compression"),
            98 => Some("PPMd compression"),
            99 => Some("AE-x encryption"),
            _ => None,
        }
    }

    /// A description that fits in the sentence
    /// `"this zip file was stored using {method}"`.
    pub open spec fn description(self) -> Seq<char> {
        match self.phrase() {
            Some(phrase) => phrase@,
            None => "an unknown method ("@ + decimal(self.code as nat) + ")"@,
        }
    }

    /// What a known method is called.
    fn known_phrase(&self) -> (r: Option<&'static str>)
        ensures
            r == self.phrase(),
    {
        match self.code {
            0 => Some("no compression"),
            1 => Some("a deprecated method (shrunk)"),
            2 => Some("a deprecated method (reduced with factor 1)"),
            3 => Some("a deprecated method (reduced with factor 2)"),
            4 => Some("a deprecated method (reduced with factor 3)"),
            5 => Some("a deprecated method (reduced with factor 4)"),
            6 => Some("a deprecated method (imploded)"),
            7 => Some("a reserved method (PKWARE tokenizing algorithm)"),
            8 => Some("deflate compression"),
            9 => Some("deflate64 compression"),
            10 => Some("PKWARE TERSE"),
            11 => Some("a reserved method (11)"),
            12 => Some("BZIP2 compression"),
            13 => Some("a reserved method (13)"),
            14 => Some("LZMA compression"),
            15 => Some("a reserved method (15)"),
            16 => Some("IBM z/OS CMPSC compression"),
            17 => Some("a reserved method (17)"),
            18 => Some("IBM TERSE"),
            19 => Some("LZ77 compression"),
            20 => Some("a deprecated method (zstd)"),
            93 => Some("zstd compression"),
            94 => Some("MP3 encoding"),
            95 => Some("XZ compression"),
            96 => Some("JPEG encoding"),
            97 => Some("WavPack compression"),
            98 => Some("PPMd compression"),
            99 => Some("AE-x encryption"),
            _ => None,
        }
    }

    /// A description that fits in the sentence
    /// `"this zip file was stored using {method}"`.
    pub fn to_text(&self) -> (s: String)
        ensures
            s@ == self.description(),
    {
        match self.known_phrase() {
            Some(phrase) => phrase.to_owned(),
            None => {
                let mut s = "an unknown method (".to_owned();
                s.append(decimal_padded(self.code as u64, 1).as_str());
                s.append(")");
                s
            },
        }
    }

    /// The number of the method, for the eyes of a programmer.
    pub fn to_debug_text(&self) -> (s: String)
        ensures
            s@ == "CompressionMethod("@ + decimal(self.code as nat) + ")"@,
    {
        let mut s = "CompressionMethod(".to_owned();
        s.append(decimal_padded(self.code as u64, 1).as_str());
        s.append(")");
        s
    }
}

/// The record at the end of the central directory.
#[derive(Copy, Clone, PartialEq, Eq, Structural)]
pub struct Footer {
    pub disk_number: u16,
    pub directory_start_disk: u16,
    pub entries_on_this_disk: u16,
    pub entries: u16,
    pub directory_size: u32,
    pub offset_from_start: u32,
    pub comment_length: u16,
}

impl Footer {
    /// What stands at a place, after the signature.
    pub open spec fn at(b: Seq<u8>, i: int) -> Footer {
        Footer {
            disk_number: u16_at(b, i + 4),
            directory_start_disk: u16_at(b, i + 6),
            entries_on_this_disk: u16_at(b, i + 8),
            entries: u16_at(b, i + 10),
            directory_size: u32_at(b, i + 12),
            offset_from_start: u32_at(b, i + 16),
            comment_length: u16_at(b, i + 20),
        }
    }

    /// What bytes begin with, if they are long enough and have the signature.
    pub open spec fn prefix(b: Seq<u8>) -> Option<Footer> {
        if b.len() >= 22 && u32_at(b, 0) == 0x06054b50 {
            Some(Footer::at(b, 0))
        } else {
            None
        }
    }

    /// What bytes end with, if they are long enough and have the signature there.
    pub open spec fn suffix(b: Seq<u8>) -> Option<Footer> {
        if b.len() >= 22 && u32_at(b, b.len() - 22) == 0x06054b50 {
            Some(Footer::at(b, b.len() - 22))
        } else {
            None
        }
    }

    /// Reads what stands at a place, if the signature stands there.
    fn read(bytes: &[u8], i: usize) -> (r: Option<Footer>)
        requires
            i + 22 <= bytes@.len(),
        ensures
            r == if u32_at(bytes@, i as int) == 0x06054b50 {
                Some(Footer::at(bytes@, i as int))
            } else {
                None
            },
    {
        let len: usize = bytes.len();
        if get_u32(bytes, i) != 0x06054b50 {
            return None;
        }
        Some(
            Footer {
                disk_number: get_u16(bytes, i + 4),
                directory_start_disk: get_u16(bytes, i + 6),
                entries_on_this_disk: get_u16(bytes, i + 8),
                entries: get_u16(bytes, i + 10),
                directory_size: get_u32(bytes, i + 12),
                offset_from_start: get_u32(bytes, i + 16),
                comment_length: get_u16(bytes, i + 20),
            },
        )
    }

    /// Reads what bytes begin with, if they are long enough and have the signature.
    pub fn as_prefix(bytes: &[u8]) -> (r: Option<Footer>)
        ensures
            r == Footer::prefix(bytes@),
    {
        if bytes.len() >= 22 {
            Footer::read(bytes, 0)
        } else {
            None
        }
    }

    /// Reads what bytes end with, if they are long enough and have the signature
    /// there.
    pub fn as_suffix(bytes: &[u8]) -> (r: Option<Footer>)
        ensures
            r == Footer::suffix(bytes@),
    {
        if bytes.len() >= 22 {
            Footer::read(bytes, bytes.len() - 22)
        } else {
            None
        }
    }
}

/// The record that tells where the ZIP64 record is.
#[derive(Copy, Clone, PartialEq, Eq, Structural)]
pub struct FooterLocator {
    pub directory_start_disk: u32,
    pub footer_offset: u64,
    pub disk_count: u32,
}

impl FooterLocator {
    /// What stands at a place, after the signature.
    pub open spec fn at(b: Seq<u8>, i: int) -> FooterLocator {
        FooterLocator {
            directory_start_disk: u32_at(b, i + 4),
            footer_offset: u64_at(b, i + 8),
            disk_count: u32_at(b, i + 16),
        }
    }

    /// What bytes begin with, if they are long enough and have the signature.
    pub open spec fn prefix(b: Seq<u8>) -> Option<FooterLocator> {
        if b.len() >= 20 && u32_at(b, 0) == 0x06054b50 {
            Some(FooterLocator::at(b, 0))
        } else {
            None
        }
    }

    /// What bytes end with, if they are long enough and have the signature there.
    pub open spec fn suffix(b: Seq<u8>) -> Option<FooterLocator> {
        if b.len() >= 20 && u32_at(b, b.len() - 20) == 0x06054b50 {
            Some(FooterLocator::at(b, b.len() - 20))
        } else {
            None
        }
    }

    /// Reads what stands at a place, if the signature stands there.
    fn read(bytes: &[u8], i: usize) -> (r: Option<FooterLocator>)
        requires
            i + 20 <= bytes@.len(),
        ensures
            r == if u32_at(bytes@, i as int) == 0x06054b50 {
                Some(FooterLocator::at(bytes@, i as int))
            } else {
                None
            },
    {
        let len: usize = bytes.len();
        if get_u32(bytes, i) != 0x06054b50 {
            return None;
        }
        Some(
            FooterLocator {
                directory_start_disk: get_u32(bytes, i + 4),
                footer_offset: get_u64(bytes, i + 8),
                disk_count: get_u32(bytes, i + 16),
            },
        )
    }

    /// Reads what bytes begin with, if they are long enough and have the signature.
    pub fn as_prefix(bytes: &[u8]) -> (r: Option<FooterLocator>)
        ensures
            r == FooterLocator::prefix(bytes@),
    {
        if bytes.len() >= 20 {
            FooterLocator::read(bytes, 0)
        } else {
            None
        }
    }

    /// Reads what bytes end with, if they are long enough and have the signature
    /// there.
    pub fn as_suffix(bytes: &[u8]) -> (r: Option<FooterLocator>)
        ensures
            r == FooterLocator::suffix(bytes@),
    {
        if bytes.len() >= 20 {
            FooterLocator::read(bytes, bytes.len() - 20)
        } else {
            None
        }
    }
}

/// The ZIP64 record at the end of the central directory.
#[derive(Copy, Clone, PartialEq, Eq, Structural)]
pub struct FooterV2 {
    pub footer_size: u64,
    pub made_by: u16,
    pub required_version: u16,
    pub disk_number: u32,
    pub directory_start_disk: u64,
    pub entries_on_this_disk: u64,
    pub entries: u64,
    pub directory_size: u64,
    pub offset_from_start: u64,
}

impl FooterV2 {
    /// What stands at a place, after the signature.
    pub open spec fn at(b: Seq<u8>, i: int) -> FooterV2 {
        FooterV2 {
            footer_size: u64_at(b, i + 4),
            made_by: u16_at(b, i + 12),
            required_version: u16_at(b, i + 14),
            disk_number: u32_at(b, i + 16),
            directory_start_disk: u64_at(b, i + 20),
            entries_on_this_disk: u64_at(b, i + 28),
            entries: u64_at(b, i + 36),
            directory_size: u64_at(b, i + 44),
            offset_from_start: u64_at(b, i + 52),
        }
    }

    /// What bytes begin with, if they are long enough and have the signature.
    pub open spec fn prefix(b: Seq<u8>) -> Option<FooterV2> {
        if b.len() >= 60 && u32_at(b, 0) == 0x06054b50 {
            Some(FooterV2::at(b, 0))
        } else {
            None
        }
    }

    /// What bytes end with, if they are long enough and have the signature there.
    pub open spec fn suffix(b: Seq<u8>) -> Option<FooterV2> {
        if b.len() >= 60 && u32_at(b, b.len() - 60) == 0x06054b50 {
            Some(FooterV2::at(b, b.len() - 60))
        } else {
            None
        }
    }

    /// Reads what stands at a place, if the signature stands there.
    fn read(bytes: &[u8], i: usize) -> (r: Option<FooterV2>)
        requires
            i + 60 <= bytes@.len(),
        ensures
            r == if u32_at(bytes@, i as int) == 0x06054b50 {
                Some(FooterV2::at(bytes@, i as int))
            } else {
                None
            },
    {
        let len: usize = bytes.len();
        if get_u32(bytes, i) != 0x06054b50 {
            return None;
        }
        Some(
            FooterV2 {
                footer_size: get_u64(bytes, i + 4),
                made_by: get_u16(bytes, i + 12),
                required_version: get_u16(bytes, i + 14),
                disk_number: get_u32(bytes, i + 16),
                directory_start_disk: get_u64(bytes, i + 20),
                entries_on_this_disk: get_u64(bytes, i + 28),
                entries: get_u64(bytes, i + 36),
                directory_size: get_u64(bytes, i + 44),
                offset_from_start: get_u64(bytes, i + 52),
            },
        )
    }

    /// Reads what bytes begin with, if they are long enough and have the signature.
    pub fn as_prefix(bytes: &[u8]) -> (r: Option<FooterV2>)
        ensures
            r == FooterV2::prefix(bytes@),
    {
        if bytes.len() >= 60 {
            FooterV2::read(bytes, 0)
        } else {
            None
        }
    }

    /// Reads what bytes end with, if they are long enough and have the signature
    /// there.
    pub fn as_suffix(bytes: &[u8]) -> (r: Option<FooterV2>)
        ensures
            r == FooterV2::suffix(bytes@),
    {
        if bytes.len() >= 60 {
            FooterV2::read(bytes, bytes.len() - 60)
        } else {
            None
        }
    }
}

/// A central header.
#[derive(Copy, Clone, PartialEq, Eq, Structural)]
pub struct DirectoryEntry {
    pub made_by: u16,
    pub required_version: u16,
    pub flags: u16,
    pub method: CompressionMethod,
    pub modified_time: u16,
    pub modified_date: u16,
    pub crc32: u32,
    pub compressed_size: u32,
    pub uncompressed_size: u32,
    pub name_len: u16,
    pub metadata_len: u16,
    pub comment_len: u16,
    pub disk_number: u16,
    pub internal_attrs: u16,
    pub external_attrs: u32,
    pub offset_from_start: u32,
}

impl DirectoryEntry {
    /// What stands at a place, after the signature.
    pub open spec fn at(b: Seq<u8>, i: int) -> DirectoryEntry {
        DirectoryEntry {
            made_by: u16_at(b, i + 4),
            required_version: u16_at(b, i + 6),
            flags: u16_at(b, i + 8),
            method: CompressionMethod { code: u16_at(b, i + 10) },
            modified_time: u16_at(b, i + 12),
            modified_date: u16_at(b, i + 14),
            crc32: u32_at(b, i + 16),
            compressed_size: u32_at(b, i + 20),
            uncompressed_size: u32_at(b, i + 24),
            name_len: u16_at(b, i + 28),
            metadata_len: u16_at(b, i + 30),
            comment_len: u16_at(b, i + 32),
            disk_number: u16_at(b, i + 34),
            internal_attrs: u16_at(b, i + 36),
            external_attrs: u32_at(b, i + 38),
            offset_from_start: u32_at(b, i + 42),
        }
    }

    /// What bytes begin with, if they are long enough and have the signature.
    pub open spec fn prefix(b: Seq<u8>) -> Option<DirectoryEntry> {
        if b.len() >= 46 && u32_at(b, 0) == 0x02014b50 {
            Some(DirectoryEntry::at(b, 0))
        } else {
            None
        }
    }

    /// What bytes end with, if they are long enough and have the signature there.
    pub open spec fn suffix(b: Seq<u8>) -> Option<DirectoryEntry> {
        if b.len() >= 46 && u32_at(b, b.len() - 46) == 0x02014b50 {
            Some(DirectoryEntry::at(b, b.len() - 46))
        } else {
            None
        }
    }

    /// Reads what stands at a place, if the signature stands there.
    fn read(bytes: &[u8], i: usize) -> (r: Option<DirectoryEntry>)
        requires
            i + 46 <= bytes@.len(),
        ensures
            r == if u32_at(bytes@, i as int) == 0x02014b50 {
                Some(DirectoryEntry::at(bytes@, i as int))
            } else {
                None
            },
    {
        let len: usize = bytes.len();
        if get_u32(bytes, i) != 0x02014b50 {
            return None;
        }
        Some(
            DirectoryEntry {
                made_by: get_u16(bytes, i + 4),
                required_version: get_u16(bytes, i + 6),
                flags: get_u16(bytes, i + 8),
                method: CompressionMethod { code: get_u16(bytes, i + 10) },
                modified_time: get_u16(bytes, i + 12),
                modified_date: get_u16(bytes, i + 14),
                crc32: get_u32(bytes, i + 16),
                compressed_size: get_u32(bytes, i + 20),
                uncompressed_size: get_u32(bytes, i + 24),
                name_len: get_u16(bytes, i + 28),
                metadata_len: get_u16(bytes, i + 30),
                comment_len: get_u16(bytes, i + 32),
                disk_number: get_u16(bytes, i + 34),
                internal_attrs: get_u16(bytes, i + 36),
                external_attrs: get_u32(bytes, i + 38),
                offset_from_start: get_u32(bytes, i + 42),
            },
        )
    }

    /// Reads what bytes begin with, if they are long enough and have the signature.
    pub fn as_prefix(bytes: &[u8]) -> (r: Option<DirectoryEntry>)
        ensures
            r == DirectoryEntry::prefix(bytes@),
    {
        if bytes.len() >= 46 {
            DirectoryEntry::read(bytes, 0)
        } else {
            None
        }
    }

    /// Reads what bytes end with, if they are long enough and have the signature
    /// there.
    pub fn as_suffix(bytes: &[u8]) -> (r: Option<DirectoryEntry>)
        ensures
            r == DirectoryEntry::suffix(bytes@),
    {
        if bytes.len() >= 46 {
            DirectoryEntry::read(bytes, bytes.len() - 46)
        } else {
            None
        }
    }
}

/// A local header.
#[derive(Copy, Clone, PartialEq, Eq, Structural)]
pub struct Header {
    pub required_version: u16,
    pub flags: u16,
    pub method: CompressionMethod,
    pub modified_time: u16,
    pub modified_date: u16,
    pub crc32: u32,
    pub compressed_size: u32,
    pub uncompressed_size: u32,
    pub name_len: u16,
    pub metadata_len: u16,
}

impl Header {
    /// What stands at a place, after the signature.
    pub open spec fn at(b: Seq<u8>, i: int) -> Header {
        Header {
            required_version: u16_at(b, i + 4),
            flags: u16_at(b, i + 6),
            method: CompressionMethod { code: u16_at(b, i + 8) },
            modified_time: u16_at(b, i + 10),
            modified_date: u16_at(b, i + 12),
            crc32: u32_at(b, i + 14),
            compressed_size: u32_at(b, i + 18),
            uncompressed_size: u32_at(b, i + 22),
            name_len: u16_at(b, i + 26),
            metadata_len: u16_at(b, i + 28),
        }
    }

    /// What bytes begin with, if they are long enough and have the signature.
    pub open spec fn prefix(b: Seq<u8>) -> Option<Header> {
        if b.len() >= 30 && u32_at(b, 0) == 0x04034b50 {
            Some(Header::at(b, 0))
        } else {
            None
        }
    }

    /// What bytes end with, if they are long enough and have the signature there.
    pub open spec fn suffix(b: Seq<u8>) -> Option<Header> {
        if b.len() >= 30 && u32_at(b, b.len() - 30) == 0x04034b50 {
            Some(Header::at(b, b.len() - 30))
        } else {
            None
        }
    }

    /// Reads what stands at a place, if the signature stands there.
    fn read(bytes: &[u8], i: usize) -> (r: Option<Header>)
        requires
            i + 30 <= bytes@.len(),
        ensures
            r == if u32_at(bytes@, i as int) == 0x04034b50 {
                Some(Header::at(bytes@, i as int))
            } else {
                None
            },
    {
        let len: usize = bytes.len();
        if get_u32(bytes, i) != 0x04034b50 {
            return None;
        }
        Some(
            Header {
                required_version: get_u16(bytes, i + 4),
                flags: get_u16(bytes, i + 6),
                method: CompressionMethod { code: get_u16(bytes, i + 8) },
                modified_time: get_u16(bytes, i + 10),
                modified_date: get_u16(bytes, i + 12),
                crc32: get_u32(bytes, i + 14),
                compressed_size: get_u32(bytes, i + 18),
                uncompressed_size: get_u32(bytes, i + 22),
                name_len: get_u16(bytes, i + 26),
                metadata_len: get_u16(bytes, i + 28),
            },
        )
    }

    /// Reads what bytes begin with, if they are long enough and have the signature.
    pub fn as_prefix(bytes: &[u8]) -> (r: Option<Header>)
        ensures
            r == Header::prefix(bytes@),
    {
        if bytes.len() >= 30 {
            Header::read(bytes, 0)
        } else {
            None
        }
    }

    /// Reads what bytes end with, if they are long enough and have the signature
    /// there.
    pub fn as_suffix(bytes: &[u8]) -> (r: Option<Header>)
        ensures
            r == Header::suffix(bytes@),
    {
        if bytes.len() >= 30 {
            Header::read(bytes, bytes.len() - 30)
        } else {
            None
        }
    }
}

/// What stands in the bytes of a record does not depend on what stands before it: what bytes end
/// with is what their end begins with.
pub proof fn suffix_is_prefix_of_end(b: Seq<u8>)
    ensures
        b.len() >= 22 ==> Footer::suffix(b) == Footer::prefix(b.skip(b.len() - 22)),
        b.len() >= 20 ==> FooterLocator::suffix(b) == FooterLocator::prefix(b.skip(b.len() - 20)),
        b.len() >= 60 ==> FooterV2::suffix(b) == FooterV2::prefix(b.skip(b.len() - 60)),
        b.len() >= 46 ==> DirectoryEntry::suffix(b) == DirectoryEntry::prefix(
            b.skip(b.len() - 46),
        ),
        b.len() >= 30 ==> Header::suffix(b) == Header::prefix(b.skip(b.len() - 30)),
        b.len() < 22 ==> Footer::suffix(b) is None && Footer::prefix(b) is None,
        b.len() < 20 ==> FooterLocator::suffix(b) is None && FooterLocator::prefix(b) is None,
        b.len() < 60 ==> FooterV2::suffix(b) is None && FooterV2::prefix(b) is None,
        b.len() < 46 ==> DirectoryEntry::suffix(b) is None && DirectoryEntry::prefix(b) is None,
        b.len() < 30 ==> Header::suffix(b) is None && Header::prefix(b) is None,
{
    reveal(u16_at);
    reveal(u32_at);
    reveal(u64_at);
}

/// The record at the end of the central directory is read from bytes that begin with it: its signature and its
/// fields, one after the other, least significant byte first.
pub proof fn footer_is_read(f: Footer, rest: Seq<u8>)
    ensures
        Footer::prefix(u32_bytes(0x06054b50) + u16_bytes(f.disk_number) + u16_bytes(f.directory_start_disk) + u16_bytes(f.entries_on_this_disk) + u16_bytes(f.entries) + u32_bytes(f.directory_size) + u32_bytes(f.offset_from_start) + u16_bytes(f.comment_length) + rest) == Some(f),
{
    let b = u32_bytes(0x06054b50) + u16_bytes(f.disk_number) + u16_bytes(f.directory_start_disk) + u16_bytes(f.entries_on_this_disk) + u16_bytes(f.entries) + u32_bytes(f.directory_size) + u32_bytes(f.offset_from_start) + u16_bytes(f.comment_length) + rest;
    assert(b.subrange(0, 4) =~= u32_bytes(0x06054b50));
    u32_at_of_bytes(b, 0, 0x06054b50);
    assert(b.subrange(4, 6) =~= u16_bytes(f.disk_number));
    u16_at_of_bytes(b, 4, f.disk_number);
    assert(b.subrange(6, 8) =~= u16_bytes(f.directory_start_disk));
    u16_at_of_bytes(b, 6, f.directory_start_disk);
    assert(b.subrange(8, 10) =~= u16_bytes(f.entries_on_this_disk));
    u16_at_of_bytes(b, 8, f.entries_on_this_disk);
    assert(b.subrange(10, 12) =~= u16_bytes(f.entries));
    u16_at_of_bytes(b, 10, f.entries);
    assert(b.subrange(12, 16) =~= u32_bytes(f.directory_size));
    u32_at_of_bytes(b, 12, f.directory_size);
    assert(b.subrange(16, 20) =~= u32_bytes(f.offset_from_start));
    u32_at_of_bytes(b, 16, f.offset_from_start);
    assert(b.subrange(20, 22) =~= u16_bytes(f.comment_length));
    u16_at_of_bytes(b, 20, f.comment_length);
}

/// The record that tells where the ZIP64 record is is read from bytes that begin with it: its signature and its
/// fields, one after the other, least significant byte first.
pub proof fn footer_locator_is_read(f: FooterLocator, rest: Seq<u8>)
    ensures
        FooterLocator::prefix(u32_bytes(0x06054b50) + u32_bytes(f.directory_start_disk) + u64_bytes(f.footer_offset) + u32_bytes(f.disk_count) + rest) == Some(f),
{
    let b = u32_bytes(0x06054b50) + u32_bytes(f.directory_start_disk) + u64_bytes(f.footer_offset) + u32_bytes(f.disk_count) + rest;
    assert(b.subrange(0, 4) =~= u32_bytes(0x06054b50));
    u32_at_of_bytes(b, 0, 0x06054b50);
    assert(b.subrange(4, 8) =~= u32_bytes(f.directory_start_disk));
    u32_at_of_bytes(b, 4, f.directory_start_disk);
    assert(b.subrange(8, 16) =~= u64_bytes(f.footer_offset));
    u64_at_of_bytes(b, 8, f.footer_offset);
    assert(b.subrange(16, 20) =~= u32_bytes(f.disk_count));
    u32_at_of_bytes(b, 16, f.disk_count);
}

/// The ZIP64 record is read from bytes that begin with it: its signature and its
/// fields, one after the other, least significant byte first.
pub proof fn footer_v2_is_read(f: FooterV2, rest: Seq<u8>)
    ensures
        FooterV2::prefix(u32_bytes(0x06054b50) + u64_bytes(f.footer_size) + u16_bytes(f.made_by) + u16_bytes(f.required_version) + u32_bytes(f.disk_number) + u64_bytes(f.directory_start_disk) + u64_bytes(f.entries_on_this_disk) + u64_bytes(f.entries) + u64_bytes(f.directory_size) + u64_bytes(f.offset_from_start) + rest) == Some(f),
{
    let b = u32_bytes(0x06054b50) + u64_bytes(f.footer_size) + u16_bytes(f.made_by) + u16_bytes(f.required_version) + u32_bytes(f.disk_number) + u64_bytes(f.directory_start_disk) + u64_bytes(f.entries_on_this_disk) + u64_bytes(f.entries) + u64_bytes(f.directory_size) + u64_bytes(f.offset_from_start) + rest;
    assert(b.subrange(0, 4) =~= u32_bytes(0x06054b50));
    u32_at_of_bytes(b, 0, 0x06054b50);
    assert(b.subrange(4, 12) =~= u64_bytes(f.footer_size));
    u64_at_of_bytes(b, 4, f.footer_size);
    assert(b.subrange(12, 14) =~= u16_bytes(f.made_by));
    u16_at_of_bytes(b, 12, f.made_by);
    assert(b.subrange(14, 16) =~= u16_bytes(f.required_version));
    u16_at_of_bytes(b, 14, f.required_version);
    assert(b.subrange(16, 20) =~= u32_bytes(f.disk_number));
    u32_at_of_bytes(b, 16, f.disk_number);
    assert(b.subrange(20, 28) =~= u64_bytes(f.directory_start_disk));
    u64_at_of_bytes(b, 20, f.directory_start_disk);
    assert(b.subrange(28, 36) =~= u64_bytes(f.entries_on_this_disk));
    u64_at_of_bytes(b, 28, f.entries_on_this_disk);
    assert(b.subrange(36, 44) =~= u64_bytes(f.entries));
    u64_at_of_bytes(b, 36, f.entries);
    assert(b.subrange(44, 52) =~= u64_bytes(f.directory_size));
    u64_at_of_bytes(b, 44, f.directory_size);
    assert(b.subrange(52, 60) =~= u64_bytes(f.offset_from_start));
    u64_at_of_bytes(b, 52, f.offset_from_start);
}

/// A central header is read from bytes that begin with it: its signature and its
/// fields, one after the other, least significant byte first.
pub proof fn directory_entry_is_read(f: DirectoryEntry, rest: Seq<u8>)
    ensures
        DirectoryEntry::prefix(u32_bytes(0x02014b50) + u16_bytes(f.made_by) + u16_bytes(f.required_version) + u16_bytes(f.flags) + u16_bytes(f.method.code) + u16_bytes(f.modified_time) + u16_bytes(f.modified_date) + u32_bytes(f.crc32) + u32_bytes(f.compressed_size) + u32_bytes(f.uncompressed_size) + u16_bytes(f.name_len) + u16_bytes(f.metadata_len) + u16_bytes(f.comment_len) + u16_bytes(f.disk_number) + u16_bytes(f.internal_attrs) + u32_bytes(f.external_attrs) + u32_bytes(f.offset_from_start) + rest) == Some(f),
{
    let b = u32_bytes(0x02014b50) + u16_bytes(f.made_by) + u16_bytes(f.required_version) + u16_bytes(f.flags) + u16_bytes(f.method.code) + u16_bytes(f.modified_time) + u16_bytes(f.modified_date) + u32_bytes(f.crc32) + u32_bytes(f.compressed_size) + u32_bytes(f.uncompressed_size) + u16_bytes(f.name_len) + u16_bytes(f.metadata_len) + u16_bytes(f.comment_len) + u16_bytes(f.disk_number) + u16_bytes(f.internal_attrs) + u32_bytes(f.external_attrs) + u32_bytes(f.offset_from_start) + rest;
    assert(b.subrange(0, 4) =~= u32_bytes(0x02014b50));
    u32_at_of_bytes(b, 0, 0x02014b50);
    assert(b.subrange(4, 6) =~= u16_bytes(f.made_by));
    u16_at_of_bytes(b, 4, f.made_by);
    assert(b.subrange(6, 8) =~= u16_bytes(f.required_version));
    u16_at_of_bytes(b, 6, f.required_version);
    assert(b.subrange(8, 10) =~= u16_bytes(f.flags));
    u16_at_of_bytes(b, 8, f.flags);
    assert(b.subrange(10, 12) =~= u16_bytes(f.method.code));
    u16_at_of_bytes(b, 10, f.method.code);
    assert(b.subrange(12, 14) =~= u16_bytes(f.modified_time));
    u16_at_of_bytes(b, 12, f.modified_time);
    assert(b.subrange(14, 16) =~= u16_bytes(f.modified_date));
    u16_at_of_bytes(b, 14, f.modified_date);
    assert(b.subrange(16, 20) =~= u32_bytes(f.crc32));
    u32_at_of_bytes(b, 16, f.crc32);
    assert(b.subrange(20, 24) =~= u32_bytes(f.compressed_size));
    u32_at_of_bytes(b, 20, f.compressed_size);
    assert(b.subrange(24, 28) =~= u32_bytes(f.uncompressed_size));
    u32_at_of_bytes(b, 24, f.uncompressed_size);
    assert(b.subrange(28, 30) =~= u16_bytes(f.name_len));
    u16_at_of_bytes(b, 28, f.name_len);
    assert(b.subrange(30, 32) =~= u16_bytes(f.metadata_len));
    u16_at_of_bytes(b, 30, f.metadata_len);
    assert(b.subrange(32, 34) =~= u16_bytes(f.comment_len));
    u16_at_of_bytes(b, 32, f.comment_len);
    assert(b.subrange(34, 36) =~= u16_bytes(f.disk_number));
    u16_at_of_bytes(b, 34, f.disk_number);
    assert(b.subrange(36, 38) =~= u16_bytes(f.internal_attrs));
    u16_at_of_bytes(b, 36, f.internal_attrs);
    assert(b.subrange(38, 42) =~= u32_bytes(f.external_attrs));
    u32_at_of_bytes(b, 38, f.external_attrs);
    assert(b.subrange(42, 46) =~= u32_bytes(f.offset_from_start));
    u32_at_of_bytes(b, 42, f.offset_from_start);
}

/// A local header is read from bytes that begin with it: its signature and its
/// fields, one after the other, least significant byte first.
pub proof fn header_is_read(f: Header, rest: Seq<u8>)
    ensures
        Header::prefix(u32_bytes(0x04034b50) + u16_bytes(f.required_version) + u16_bytes(f.flags) + u16_bytes(f.method.code) + u16_bytes(f.modified_time) + u16_bytes(f.modified_date) + u32_bytes(f.crc32) + u32_bytes(f.compressed_size) + u32_bytes(f.uncompressed_size) + u16_bytes(f.name_len) + u16_bytes(f.metadata_len) + rest) == Some(f),
{
    let b = u32_bytes(0x04034b50) + u16_bytes(f.required_version) + u16_bytes(f.flags) + u16_bytes(f.method.code) + u16_bytes(f.modified_time) + u16_bytes(f.modified_date) + u32_bytes(f.crc32) + u32_bytes(f.compressed_size) + u32_bytes(f.uncompressed_size) + u16_bytes(f.name_len) + u16_bytes(f.metadata_len) + rest;
    assert(b.subrange(0, 4) =~= u32_bytes(0x04034b50));
    u32_at_of_bytes(b, 0, 0x04034b50);
    assert(b.subrange(4, 6) =~= u16_bytes(f.required_version));
    u16_at_of_bytes(b, 4, f.required_version);
    assert(b.subrange(6, 8) =~= u16_bytes(f.flags));
    u16_at_of_bytes(b, 6, f.flags);
    assert(b.subrange(8, 10) =~= u16_bytes(f.method.code));
    u16_at_of_bytes(b, 8, f.method.code);
    assert(b.subrange(10, 12) =~= u16_bytes(f.modified_time));
    u16_at_of_bytes(b, 10, f.modified_time);
    assert(b.subrange(12, 14) =~= u16_bytes(f.modified_date));
    u16_at_of_bytes(b, 12, f.modified_date);
    assert(b.subrange(14, 18) =~= u32_bytes(f.crc32));
    u32_at_of_bytes(b, 14, f.crc32);
    assert(b.subrange(18, 22) =~= u32_bytes(f.compressed_size));
    u32_at_of_bytes(b, 18, f.compressed_size);
    assert(b.subrange(22, 26) =~= u32_bytes(f.uncompressed_size));
    u32_at_of_bytes(b, 22, f.uncompressed_size);
    assert(b.subrange(26, 28) =~= u16_bytes(f.name_len));
    u16_at_of_bytes(b, 26, f.name_len);
    assert(b.subrange(28, 30) =~= u16_bytes(f.metadata_len));
    u16_at_of_bytes(b, 28, f.metadata_len);
}

/// Which methods have a name: those up to twenty, and those from ninety-three to ninety-nine. All
/// others are told by their numbers.
pub proof fn unnamed_methods(method: CompressionMethod)
    ensures
        method.phrase() is None <==> 20 < method.code < 93 || method.code > 99,
        method.phrase() is None ==> method.description() == "an unknown method ("@ + decimal(
            method.code as nat,
        ) + ")"@,
        method.phrase() matches Some(phrase) ==> method.description() == phrase@,
{
}

} // verus!
