use zip::compression::CompressionMethod;
use zip::spec::Zip64CentralDirectoryEnd;
use zip::stream::{Cursor, SeekFrom};
use zip::truncate::Truncate;
use zip::types::{CivilDateTime, DateTime, System, ZipFileData};
use zip::util::{msdos_datetime_to_tm, tm_to_msdos_date, tm_to_msdos_time, Tm};

#[test]
fn system() {
    assert_eq!(System::Dos.to_u16(), 0u16);
    assert_eq!(System::Unix.to_u16(), 3u16);
    assert_eq!(System::from_u8(0), System::Dos);
    assert_eq!(System::from_u8(3), System::Unix);
}

fn named(file_name: &str) -> ZipFileData {
    ZipFileData {
        system: System::Dos,
        version_made_by: 0,
        encrypted: false,
        using_data_descriptor: false,
        compression_method: CompressionMethod::Stored,
        compression_level: None,
        last_modified_time: DateTime::default(),
        crc32: 0,
        compressed_size: 0,
        uncompressed_size: 0,
        file_name: file_name.to_string(),
        file_name_raw: file_name.as_bytes().to_vec(),
        extra_field: Vec::new(),
        file_comment: String::new(),
        header_start: 0,
        central_header_start: 0,
        data_start: 0,
        external_attributes: 0,
        large_file: false,
        aes_mode: None,
    }
}

#[test]
fn sanitize() {
    let data = named("/path/../../../../etc/./passwd\0/etc/shadow");
    assert_eq!(data.file_name_sanitized(), "path/etc/passwd");
}

#[test]
fn enclosed_names() {
    assert_eq!(named("a/../b").enclosed_name(), Some("a/../b"));
    assert_eq!(named("a/../../b").enclosed_name(), None);
    assert_eq!(named("/a").enclosed_name(), None);
    assert_eq!(named("a\0b").enclosed_name(), None);
}

#[test]
fn dos_modes() {
    let mut data = named("a");
    assert_eq!(data.unix_mode(), Some(0o100664));
    data.external_attributes = 0x10;
    assert_eq!(data.unix_mode(), Some(0o40775));
    data.external_attributes = 0x11;
    assert_eq!(data.unix_mode(), Some(0o40555 & 0o555));
    data.system = System::Unknown;
    assert_eq!(data.unix_mode(), None);
}

#[test]
fn datetime_default() {
    let dt = DateTime::default();
    assert_eq!(dt.timepart(), 0);
    assert_eq!(dt.datepart(), 0b0000000_0001_00001);
}

#[test]
fn datetime_max() {
    let dt = DateTime::from_date_and_time(2107, 12, 31, 23, 59, 60).unwrap();
    assert_eq!(dt.timepart(), 0b10111_111011_11110);
    assert_eq!(dt.datepart(), 0b1111111_1100_11111);
}

#[test]
fn datetime_bounds() {
    assert!(DateTime::from_date_and_time(2000, 1, 1, 23, 59, 60).is_ok());
    assert!(DateTime::from_date_and_time(2000, 1, 1, 24, 0, 0).is_err());
    assert!(DateTime::from_date_and_time(2000, 1, 1, 0, 60, 0).is_err());
    assert!(DateTime::from_date_and_time(2000, 1, 1, 0, 0, 61).is_err());

    assert!(DateTime::from_date_and_time(2107, 12, 31, 0, 0, 0).is_ok());
    assert!(DateTime::from_date_and_time(1980, 1, 1, 0, 0, 0).is_ok());
    assert!(DateTime::from_date_and_time(1979, 1, 1, 0, 0, 0).is_err());
    assert!(DateTime::from_date_and_time(1980, 0, 1, 0, 0, 0).is_err());
    assert!(DateTime::from_date_and_time(1980, 1, 0, 0, 0, 0).is_err());
    assert!(DateTime::from_date_and_time(2108, 12, 31, 0, 0, 0).is_err());
    assert!(DateTime::from_date_and_time(2107, 13, 31, 0, 0, 0).is_err());
    assert!(DateTime::from_date_and_time(2107, 12, 32, 0, 0, 0).is_err());
}

#[test]
fn time_conversion() {
    let dt = DateTime::from_msdos(0x4D71, 0x54CF);
    assert_eq!(dt.year(), 2018);
    assert_eq!(dt.month(), 11);
    assert_eq!(dt.day(), 17);
    assert_eq!(dt.hour(), 10);
    assert_eq!(dt.minute(), 38);
    assert_eq!(dt.second(), 30);

    let t = dt.to_time().unwrap();
    assert_eq!(
        format!(
            "{:04}-{:02}-{:02}T{:02}:{:02}:{:02}Z",
            t.year, t.month, t.day, t.hour, t.minute, t.second
        ),
        "2018-11-17T10:38:30Z"
    );
    let back = DateTime::from_time(t).unwrap();
    assert_eq!(back.datepart(), 0x4D71);
    assert_eq!(back.timepart(), 0x54CF);
}

#[test]
fn time_out_of_bounds() {
    let dt = DateTime::from_msdos(0xFFFF, 0xFFFF);
    assert_eq!(dt.year(), 2107);
    assert_eq!(dt.month(), 15);
    assert_eq!(dt.day(), 31);
    assert_eq!(dt.hour(), 31);
    assert_eq!(dt.minute(), 63);
    assert_eq!(dt.second(), 62);

    assert!(dt.to_time().is_err());

    let dt = DateTime::from_msdos(0x0000, 0x0000);
    assert_eq!(dt.year(), 1980);
    assert_eq!(dt.month(), 0);
    assert_eq!(dt.day(), 0);
    assert_eq!(dt.hour(), 0);
    assert_eq!(dt.minute(), 0);
    assert_eq!(dt.second(), 0);

    assert!(dt.to_time().is_err());
}

#[test]
fn days_that_are_not_there() {
    // the thirtieth of February, and a leap day
    let dt = DateTime::from_date_and_time(2023, 2, 30, 0, 0, 0).unwrap();
    assert!(dt.to_time().is_err());
    let dt = DateTime::from_date_and_time(2024, 2, 29, 23, 59, 58).unwrap();
    assert!(dt.to_time().is_ok());
    // a leap second
    let dt = DateTime::from_date_and_time(2024, 2, 29, 23, 59, 60).unwrap();
    assert!(dt.to_time().is_err());
}

#[test]
fn times_that_do_not_fit() {
    let t = CivilDateTime { year: 1979, month: 12, day: 31, hour: 0, minute: 0, second: 0 };
    assert!(DateTime::from_time(t).is_err());
    let t = CivilDateTime { year: 2108, month: 1, day: 1, hour: 0, minute: 0, second: 0 };
    assert!(DateTime::from_time(t).is_err());
    let t = CivilDateTime { year: 2107, month: 12, day: 31, hour: 0, minute: 0, second: 0 };
    assert!(DateTime::from_time(t).is_ok());
}

#[test]
fn the_clock_shows_a_time() {
    let now = DateTime::now();
    assert!(now.to_time().is_ok());
    assert!(now.year() >= 2020);
    let t = CivilDateTime { year: 2107, month: 12, day: 31, hour: 23, minute: 59, second: 58 };
    let stored = DateTime::from_time_or_default(t);
    assert_eq!((stored.year(), stored.month(), stored.second()), (2107, 12, 58));
    let stored = DateTime::from_time_or_default(CivilDateTime { year: 2108, ..t });
    assert_eq!((stored.year(), stored.month(), stored.second()), (1980, 1, 0));
}

fn check_date(input: Tm, day: i32, month: i32, year: i32) {
    assert_eq!(input.tm_mday, day);
    assert_eq!(input.tm_mon + 1, month);
    assert_eq!(input.tm_year + 1900, year);
}

fn check_time(input: Tm, hour: i32, minute: i32, second: i32) {
    assert_eq!(input.tm_hour, hour);
    assert_eq!(input.tm_min, minute);
    assert_eq!(input.tm_sec, second);
}

#[test]
fn dos_zero() {
    // The 0 date is actually not a correct msdos date, but we
    // will parse it and adjust accordingly.
    let tm = msdos_datetime_to_tm(0, 0);
    check_date(tm, 30, 11, 1979);
    check_time(tm, 0, 0, 0);

    // This is the actual smallest date possible
    let tm = msdos_datetime_to_tm(0, 0b100001);
    check_date(tm, 1, 1, 1980);
    check_time(tm, 0, 0, 0);
}

#[test]
fn dos_today() {
    let tm = msdos_datetime_to_tm(0b01001_100000_10101, 0b0100011_0110_11110);
    check_date(tm, 30, 6, 2015);
    check_time(tm, 9, 32, 42);
}

#[test]
fn zero_dos() {
    let tm = Tm { tm_year: 80, tm_mon: 0, tm_mday: 1, tm_hour: 0, tm_min: 0, tm_sec: 0 };
    assert_eq!(tm_to_msdos_date(tm), 0b100001);
    assert_eq!(tm_to_msdos_time(tm), 0);
}

#[test]
fn today_dos() {
    let tm = Tm { tm_year: 115, tm_mon: 5, tm_mday: 30, tm_hour: 9, tm_min: 32, tm_sec: 42 };
    assert_eq!(tm_to_msdos_date(tm), 0b0100011_0110_11110);
    assert_eq!(tm_to_msdos_time(tm), 0b01001_100000_10101);
}

#[test]
fn dos_overflows_into_the_next_part() {
    // 31:63:62 on the thirty-first of the fifteenth month of 2107
    let tm = msdos_datetime_to_tm(0xffff, 0xffff);
    check_date(tm, 1, 4, 2108);
    check_time(tm, 8, 4, 2);
}

#[test]
fn method_numbers() {
    for (method, code) in [
        (CompressionMethod::Stored, 0),
        (CompressionMethod::Deflated, 8),
        (CompressionMethod::Bzip2, 12),
        (CompressionMethod::Zstd, 93),
        (CompressionMethod::AES, 99),
        (CompressionMethod::Unsupported(64), 64),
    ] {
        assert_eq!(method.to_u16(), code);
        assert_eq!(CompressionMethod::from_u16(code), method);
    }
}

#[test]
fn code_page() {
    assert_eq!(zip::cp437::from_cp437(b"plain"), "plain");
    assert_eq!(zip::cp437::from_cp437(&[0x43, 0x75, 0x72, 0x61, 0x87, 0x61, 0x6f]), "Curaçao");
    assert_eq!(zip::cp437::from_cp437(&[0xff, 0x80, 0xe1]), "\u{a0}Çß");
}

#[test]
fn checksums() {
    assert_eq!(zip::crc32::crc32(b"123456789"), 0xcbf43926);
    let mut hasher = zip::crc32::Crc32::new();
    hasher.update(b"1234");
    assert_eq!(hasher.value(), 0x9be3e0a3);
    hasher.update(b"56789");
    assert_eq!(hasher.value(), 0xcbf43926);
}

#[test]
fn integers_are_little_endian() {
    let end = Zip64CentralDirectoryEnd {
        version_made_by: 0x0102,
        version_needed_to_extract: 0x0304,
        disk_number: 0x0506_0708,
        disk_with_central_directory: 0,
        number_of_files_on_this_disk: 0x0102_0304_0506_0708,
        number_of_files: 0x1112_1314_1516_1718,
        central_directory_size: 0,
        central_directory_offset: 9,
    };
    let mut out = vec![0xff];
    end.write(&mut out);
    assert_eq!(
        out,
        vec![
            0xff, 0x50, 0x4b, 6, 6, 44, 0, 0, 0, 0, 0, 0, 0, 2, 1, 4, 3, 8, 7, 6, 5, 0, 0, 0, 0, 8,
            7, 6, 5, 4, 3, 2, 1, 0x18, 0x17, 0x16, 0x15, 0x14, 0x13, 0x12, 0x11, 0, 0, 0, 0, 0, 0,
            0, 0, 9, 0, 0, 0, 0, 0, 0, 0
        ]
    );
    let (found, shift) = Zip64CentralDirectoryEnd::find_and_parse(&out, 0, 5).unwrap();
    assert_eq!(shift, 1);
    assert_eq!(found.version_made_by, 0x0102);
    assert_eq!(found.disk_number, 0x0506_0708);
    assert_eq!(found.number_of_files, 0x1112_1314_1516_1718);
    assert_eq!(found.central_directory_offset, 9);
    assert_eq!(
        Zip64CentralDirectoryEnd::find_and_parse(&out, 2, 5).unwrap_err().message(),
        "invalid Zip archive: Could not find ZIP64 central directory end"
    );
}

#[test]
fn cursor_moves() {
    let mut c = Cursor::new(b"hello".to_vec());
    assert_eq!(c.seek(SeekFrom::End(-2)).unwrap(), 3);
    assert_eq!(c.read(10), b"lo");
    assert!(c.seek(SeekFrom::Current(-6)).is_err());
    assert_eq!(c.seek(SeekFrom::Start(7)).unwrap(), 7);
    c.write_all(b"!");
    assert_eq!(c.get_ref().as_slice(), b"hello\0\0!");
}

#[test]
fn streams_are_cut_off() {
    let mut v = b"hello".to_vec();
    Truncate::truncate(&mut v, 2).unwrap();
    assert_eq!(v, b"he");
    Truncate::truncate(&mut v, 4).unwrap();
    assert_eq!(v, b"he\0\0");
    let mut c = Cursor::new(b"hello".to_vec());
    c.seek(SeekFrom::Start(3)).unwrap();
    c.truncate(2).unwrap();
    assert_eq!(c.get_ref().as_slice(), b"he");
    assert_eq!(c.stream_position(), 3);
    let mut b = Box::new(b"hello".to_vec());
    Truncate::truncate(&mut b, 1).unwrap();
    assert_eq!(*b, b"h");
}

#[test]
fn descriptions_of_methods() {
    for (code, text) in [
        (0, "no compression"),
        (8, "deflate compression"),
        (20, "a deprecated method (zstd)"),
        (99, "AE-x encryption"),
        (21, "an unknown method (21)"),
        (65535, "an unknown method (65535)"),
    ] {
        assert_eq!(zip::format::CompressionMethod { code }.to_text(), text);
    }
    assert_eq!(zip::format::CompressionMethod::deflate().to_debug_text(), "CompressionMethod(8)");
    assert_eq!(zip::format::CompressionMethod::stored().to_text(), "no compression");
}

#[test]
fn records_in_place() {
    let mut bytes = vec![0x50, 0x4b, 5, 6];
    bytes.extend(1u8..=18);
    let footer = zip::format::Footer::as_prefix(&bytes).unwrap();
    assert_eq!(footer.disk_number, 0x0201);
    assert_eq!(footer.entries, 0x0807);
    assert_eq!(footer.directory_size, 0x0c0b0a09);
    assert_eq!(footer.comment_length, 0x1211);
    assert!(zip::format::Footer::as_prefix(&bytes[..21]).is_none());
    assert!(zip::format::Footer::as_suffix(&bytes[..21]).is_none());
    let mut longer = vec![9, 9, 9];
    longer.extend_from_slice(&bytes);
    assert!(zip::format::Footer::as_prefix(&longer).is_none());
    assert!(zip::format::Footer::as_suffix(&longer).unwrap() == footer);
    // the same signature
    assert!(zip::format::FooterLocator::as_prefix(&bytes).is_some());
    assert!(zip::format::FooterV2::as_prefix(&bytes).is_none());

    let mut header = vec![0x50, 0x4b, 3, 4];
    header.extend(1u8..=26);
    let header = zip::format::Header::as_prefix(&header).unwrap();
    assert_eq!(header.method.code, 0x0605);
    assert_eq!(header.metadata_len, 0x1a19);

    let mut entry = vec![0x50, 0x4b, 1, 2];
    entry.extend(1u8..=42);
    let entry = zip::format::DirectoryEntry::as_prefix(&entry).unwrap();
    assert_eq!(entry.method.code, 0x0807);
    assert_eq!(entry.offset_from_start, 0x2a292827);
}

#[test]
fn lossy_names() {
    // a name that is not UTF-8, though the flag says that it is
    let mut zip = zip::ZipWriter::new(Cursor::new(Vec::new()));
    zip.start_file("é", zip::write::FileOptions::default()).unwrap();
    let mut bytes = zip.finish().unwrap().into_inner();
    let at = bytes.windows(4).position(|w| w == [80, 75, 1, 2]).unwrap();
    bytes[at + 46] = 0xff;
    let archive = zip::ZipArchive::new(Cursor::new(bytes.clone())).unwrap();
    assert_eq!(archive.file_names(), vec!["\u{fffd}\u{fffd}"]);
    // and the same bytes by the code page
    bytes[at + 9] = 0;
    let archive = zip::ZipArchive::new(Cursor::new(bytes)).unwrap();
    assert_eq!(archive.file_names(), vec!["\u{a0}⌐"]);
}
