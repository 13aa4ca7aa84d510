use std::io::Write;

use zip::result::{ErrorKind, IoError, ZipError, ZipResult};
use zip::stream::Cursor;
use zip::types::DateTime;
use zip::write::FileOptions;
use zip::{CompressionMethod, ZipArchive, ZipWriter};

fn dated() -> FileOptions {
    FileOptions::default()
        .last_modified_time(DateTime::from_date_and_time(2018, 8, 15, 20, 45, 6).unwrap())
}

fn contents(archive: &ZipArchive, name: &str) -> Vec<u8> {
    archive.by_name(name).unwrap().read_to_end().unwrap()
}

#[test]
fn write_empty_zip() {
    let mut writer = ZipWriter::new(Cursor::new(Vec::new()));
    writer.set_comment("ZIP");
    let result = writer.finish().unwrap();
    assert_eq!(result.get_ref().len(), 25);
    assert_eq!(
        *result.get_ref(),
        vec![80, 75, 5, 6, 0, 0, 0, 0, 0, 0, 0, 0, 0, 0, 0, 0, 0, 0, 0, 0, 3, 0, 90, 73, 80]
    );
}

#[test]
fn unix_permissions_bitmask() {
    // unix_permissions() throws away upper bits.
    let options = FileOptions::default().unix_permissions(0o120777);
    assert_eq!(options.permissions, Some(0o777));
}

#[test]
fn write_zip_dir() {
    let mut writer = ZipWriter::new(Cursor::new(Vec::new()));
    writer.add_directory("test", dated()).unwrap();
    assert!(writer
        .write(b"writing to a directory is not allowed, and will not write any data")
        .is_err());
    let result = writer.finish().unwrap();
    assert_eq!(result.get_ref().len(), 108);
    assert_eq!(
        result.get_ref().as_slice(),
        &[
            80u8, 75, 3, 4, 20, 0, 0, 0, 0, 0, 163, 165, 15, 77, 0, 0, 0, 0, 0, 0, 0, 0, 0, 0,
            0, 0, 5, 0, 0, 0, 116, 101, 115, 116, 47, 80, 75, 1, 2, 46, 3, 20, 0, 0, 0, 0, 0,
            163, 165, 15, 77, 0, 0, 0, 0, 0, 0, 0, 0, 0, 0, 0, 0, 5, 0, 0, 0, 0, 0, 0, 0, 0, 0,
            0, 0, 237, 65, 0, 0, 0, 0, 116, 101, 115, 116, 47, 80, 75, 5, 6, 0, 0, 0, 0, 1, 0,
            1, 0, 51, 0, 0, 0, 35, 0, 0, 0, 0, 0,
        ] as &[u8]
    );
}

#[test]
fn write_symlink_simple() {
    let mut writer = ZipWriter::new(Cursor::new(Vec::new()));
    writer.add_symlink("name", "target", dated()).unwrap();
    assert!(writer
        .write(b"writing to a symlink is not allowed and will not write any data")
        .is_err());
    let result = writer.finish().unwrap();
    assert_eq!(result.get_ref().len(), 112);
    assert_eq!(
        result.get_ref().as_slice(),
        &[
            80u8, 75, 3, 4, 20, 0, 0, 0, 0, 0, 163, 165, 15, 77, 252, 47, 111, 70, 6, 0, 0, 0,
            6, 0, 0, 0, 4, 0, 0, 0, 110, 97, 109, 101, 116, 97, 114, 103, 101, 116, 80, 75, 1,
            2, 46, 3, 20, 0, 0, 0, 0, 0, 163, 165, 15, 77, 252, 47, 111, 70, 6, 0, 0, 0, 6, 0,
            0, 0, 4, 0, 0, 0, 0, 0, 0, 0, 0, 0, 0, 0, 255, 161, 0, 0, 0, 0, 110, 97, 109, 101,
            80, 75, 5, 6, 0, 0, 0, 0, 1, 0, 1, 0, 50, 0, 0, 0, 40, 0, 0, 0, 0, 0
        ] as &[u8],
    );
}

#[test]
fn write_symlink_wonky_paths() {
    let mut writer = ZipWriter::new(Cursor::new(Vec::new()));
    writer
        .add_symlink("directory\\link", "/absolute/symlink\\with\\mixed/slashes", dated())
        .unwrap();
    assert!(writer
        .write(b"writing to a symlink is not allowed and will not write any data")
        .is_err());
    let result = writer.finish().unwrap();
    assert_eq!(result.get_ref().len(), 162);
    assert_eq!(
        result.get_ref().as_slice(),
        &[
            80u8, 75, 3, 4, 20, 0, 0, 0, 0, 0, 163, 165, 15, 77, 95, 41, 81, 245, 36, 0, 0, 0,
            36, 0, 0, 0, 14, 0, 0, 0, 100, 105, 114, 101, 99, 116, 111, 114, 121, 92, 108, 105,
            110, 107, 47, 97, 98, 115, 111, 108, 117, 116, 101, 47, 115, 121, 109, 108, 105,
            110, 107, 92, 119, 105, 116, 104, 92, 109, 105, 120, 101, 100, 47, 115, 108, 97,
            115, 104, 101, 115, 80, 75, 1, 2, 46, 3, 20, 0, 0, 0, 0, 0, 163, 165, 15, 77, 95,
            41, 81, 245, 36, 0, 0, 0, 36, 0, 0, 0, 14, 0, 0, 0, 0, 0, 0, 0, 0, 0, 0, 0, 255,
            161, 0, 0, 0, 0, 100, 105, 114, 101, 99, 116, 111, 114, 121, 92, 108, 105, 110,
            107, 80, 75, 5, 6, 0, 0, 0, 0, 1, 0, 1, 0, 60, 0, 0, 0, 80, 0, 0, 0, 0, 0
        ] as &[u8],
    );
}

#[test]
fn write_mimetype_zip() {
    let mut writer = ZipWriter::new(Cursor::new(Vec::new()));
    let options = FileOptions {
        compression_method: CompressionMethod::Stored,
        compression_level: None,
        last_modified_time: DateTime::default(),
        permissions: Some(33188),
        large_file: false,
    };
    writer.start_file("mimetype", options).unwrap();
    writer.write_all(b"application/vnd.oasis.opendocument.text").unwrap();
    let result = writer.finish().unwrap();

    assert_eq!(result.get_ref().len(), 153);
    let archive = ZipArchive::new(result).unwrap();
    assert_eq!(contents(&archive, "mimetype"), b"application/vnd.oasis.opendocument.text");
}

const RT_TEST_TEXT: &str = "And I can't stop thinking about the moments that I lost to you\
                            And I can't stop thinking of things I used to do\
                            And I can't stop making bad decisions\
                            And I can't stop eating stuff you make me chew\
                            I put on a smile like you wanna see\
                            Another day goes by that I long to be like you";
const RT_TEST_FILENAME: &str = "subfolder/sub-subfolder/can't_stop.txt";
const SECOND_FILENAME: &str = "different_name.xyz";

fn copied(deep: bool) {
    let mut writer = ZipWriter::new(Cursor::new(Vec::new()));
    let options = FileOptions {
        compression_method: CompressionMethod::Deflated,
        compression_level: Some(9),
        last_modified_time: DateTime::default(),
        permissions: Some(33188),
        large_file: false,
    };
    writer.start_file(RT_TEST_FILENAME, options).unwrap();
    writer.write_all(RT_TEST_TEXT.as_ref()).unwrap();
    if deep {
        writer.deep_copy_file(RT_TEST_FILENAME, SECOND_FILENAME).unwrap();
    } else {
        writer.shallow_copy_file(RT_TEST_FILENAME, SECOND_FILENAME).unwrap();
    }
    let zip = writer.finish().unwrap();
    let reader = ZipArchive::new(zip).unwrap();
    let mut file_names: Vec<String> = reader.file_names();
    file_names.sort();
    let mut expected_file_names = vec![RT_TEST_FILENAME, SECOND_FILENAME];
    expected_file_names.sort();
    assert_eq!(file_names, expected_file_names);
    assert_eq!(contents(&reader, RT_TEST_FILENAME), RT_TEST_TEXT.as_bytes());
    assert_eq!(contents(&reader, SECOND_FILENAME), RT_TEST_TEXT.as_bytes());
    let first = reader.by_name(RT_TEST_FILENAME).unwrap().offset();
    let second = reader.by_name(SECOND_FILENAME).unwrap().offset();
    assert_eq!(first == second, !deep);
}

#[test]
fn test_shallow_copy() {
    copied(false);
}

#[test]
fn test_deep_copy() {
    copied(true);
}

#[test]
fn duplicate_filenames() {
    let mut writer = ZipWriter::new(Cursor::new(Vec::new()));
    writer.start_file("foo/bar/test", FileOptions::default()).unwrap();
    writer
        .write_all("The quick brown 🦊 jumps over the lazy 🐕".as_bytes())
        .unwrap();
    let e = writer
        .start_file("foo/bar/test", FileOptions::default())
        .expect_err("Expected duplicate filename not to be allowed");
    assert_eq!(e.message(), "invalid Zip archive: Duplicate filename");
}

#[test]
fn path_to_string() {
    let path_str = zip::path::path_to_string("/windows/.././system32");
    assert_eq!(path_str, "windows/system32");
}

#[derive(Debug, Clone, Copy)]
struct TestWriterConfig {
    method: CompressionMethod,
    large_file: bool,
}

const METHODS: [CompressionMethod; 4] = [
    CompressionMethod::Stored,
    CompressionMethod::Deflated,
    CompressionMethod::Bzip2,
    CompressionMethod::Zstd,
];

fn test_configs() -> Vec<TestWriterConfig> {
    let mut configs = Vec::new();
    for large_file in [false, true] {
        for method in METHODS {
            configs.push(TestWriterConfig { method, large_file });
        }
    }
    configs
}

fn write_test_archive(cfg: TestWriterConfig) -> ZipResult<Cursor> {
    let mut zip = ZipWriter::new(Cursor::new(Vec::new()));

    zip.add_directory("test/", Default::default())?;

    let options = FileOptions::default()
        .large_file(cfg.large_file)
        .compression_method(cfg.method)
        .unix_permissions(0o755);

    zip.start_file("test/☃.txt", options)?;
    zip.write_all(b"Hello, World!\n")?;

    zip.start_file_aligned("test_aligned.txt", options, TEST_ALIGNMENT)?;
    zip.write_all(b"i am aligned")?;

    zip.start_file("test_empty", options)?;
    zip.start_file_aligned("test_fake_aligned_empty", options, 1)?;
    zip.start_file_aligned("test_aligned_empty", options, TEST_ALIGNMENT)?;

    zip.start_file_with_extra_data("test_with_extra_data/🐢.txt", options)?;
    zip.write_all(&0xbeefu16.to_le_bytes())?;
    zip.write_all(&(EXTRA_DATA.len() as u16).to_le_bytes())?;
    zip.write_all(EXTRA_DATA)?;
    zip.end_extra_data()?;
    zip.write_all(b"Hello, World! Again.\n")?;

    zip.start_file(ENTRY_NAME, options)?;
    zip.write_all(LOREM_IPSUM)?;

    zip.finish()
}

fn check_test_archive(zip_file: Cursor) -> ZipArchive {
    let bytes = zip_file.get_ref().clone();
    let archive = ZipArchive::new(zip_file).unwrap();

    // Check archive contains expected file names.
    let mut expected_file_names = vec![
        "test/",
        "test/☃.txt",
        "test_aligned.txt",
        "test_empty",
        "test_fake_aligned_empty",
        "test_aligned_empty",
        "test_with_extra_data/🐢.txt",
        ENTRY_NAME,
    ];
    expected_file_names.sort();
    let mut file_names = archive.file_names();
    file_names.sort();
    assert_eq!(file_names, expected_file_names);

    // Check an archive file for extra data field contents.
    let file_with_extra_data = archive.by_name("test_with_extra_data/🐢.txt").unwrap();
    let mut extra_data = Vec::new();
    extra_data.extend_from_slice(&0xbeefu16.to_le_bytes());
    extra_data.extend_from_slice(&(EXTRA_DATA.len() as u16).to_le_bytes());
    extra_data.extend_from_slice(EXTRA_DATA);
    assert_eq!(file_with_extra_data.extra_data(), extra_data.as_slice());

    // Check alignment.
    for name in ["test_aligned.txt", "test_aligned_empty"] {
        let file_aligned = archive.by_name(name).unwrap();
        let header_start = file_aligned.offset();
        let data_start = zip::read::find_data_start(&bytes, header_start).unwrap();
        assert_eq!(data_start % TEST_ALIGNMENT as u64, 0);

        // central directory extra data should be empty
        // alignment is performed using local extra data, which is not exposed by ZipArchive
        assert!(file_aligned.extra_data().is_empty());
        assert!(data_start - header_start > 100);
    }

    for name in ["test_empty", "test_aligned_empty", "test_fake_aligned_empty"] {
        assert_eq!(contents(&archive, name).len(), 0);
    }

    archive
}

// After creating a zip file, then reading its contents back out, the extracted data will
// *always* be exactly the same as the original data.
#[test]
fn end_to_end() {
    for cfg in test_configs() {
        let file = write_test_archive(cfg).expect("Couldn't write test zip archive");
        let archive = check_test_archive(file);
        let entry = archive.by_name(ENTRY_NAME).unwrap();
        assert_eq!(entry.compression(), cfg.method);
        assert_eq!(entry.unix_mode(), Some(0o100755));
        assert_eq!(entry.size(), LOREM_IPSUM.len() as u64);
        assert_eq!(contents(&archive, ENTRY_NAME), LOREM_IPSUM);
    }
}

// After copying a `ZipFile` to a new `ZipWriter`, then reading its contents back out, the
// extracted data will *always* be exactly the same as the original data.
#[test]
fn copy() {
    for cfg in test_configs() {
        let src_file = write_test_archive(cfg).expect("Couldn't write test zip archive");
        let src_archive = ZipArchive::new(src_file).unwrap();
        let mut zip = ZipWriter::new(Cursor::new(Vec::new()));
        let file = src_archive.by_name(ENTRY_NAME).expect("Missing expected file");
        zip.raw_copy_file(file).expect("Couldn't copy file");
        let file = src_archive.by_name(ENTRY_NAME).expect("Missing expected file");
        zip.raw_copy_file_rename(file, COPY_ENTRY_NAME)
            .expect("Couldn't copy and rename file");
        let tgt_archive = ZipArchive::new(zip.finish().unwrap()).unwrap();
        assert_eq!(contents(&tgt_archive, ENTRY_NAME), LOREM_IPSUM);
        assert_eq!(contents(&tgt_archive, COPY_ENTRY_NAME), LOREM_IPSUM);
    }
}

// After appending to a `ZipWriter`, then reading its contents back out, both the prior data and
// the appended data will be exactly the same as their originals.
#[test]
fn append() {
    for cfg in test_configs() {
        let file = write_test_archive(cfg).expect("Couldn't write test zip archive");
        let mut zip = ZipWriter::new_append(file).unwrap();
        zip.start_file(
            COPY_ENTRY_NAME,
            FileOptions::default().compression_method(cfg.method),
        )
        .unwrap();
        zip.write_all(LOREM_IPSUM).unwrap();
        let archive = ZipArchive::new(zip.finish().unwrap()).unwrap();
        assert_eq!(contents(&archive, ENTRY_NAME), LOREM_IPSUM);
        assert_eq!(contents(&archive, COPY_ENTRY_NAME), LOREM_IPSUM);
    }
}

#[test]
fn aborted_file_is_not_there() {
    let mut zip = ZipWriter::new(Cursor::new(Vec::new()));
    zip.start_file("kept", FileOptions::default()).unwrap();
    zip.write_all(b"kept").unwrap();
    zip.start_file("gone", FileOptions::default()).unwrap();
    zip.write_all(b"gone").unwrap();
    assert!(zip.is_writing_file());
    zip.abort_file().unwrap();
    assert!(!zip.is_writing_file());
    zip.start_file("gone", FileOptions::default()).unwrap();
    zip.write_all(b"back").unwrap();
    let archive = ZipArchive::new(zip.finish().unwrap()).unwrap();
    assert_eq!(archive.file_names(), vec!["kept", "gone"]);
    assert_eq!(contents(&archive, "kept"), b"kept");
    assert_eq!(contents(&archive, "gone"), b"back");
}

#[test]
fn levels_are_checked() {
    for (method, good, bad) in [
        (CompressionMethod::Stored, vec![], vec![0, 1]),
        (CompressionMethod::Deflated, vec![0, 9], vec![-1, 10]),
        (CompressionMethod::Bzip2, vec![0, 1, 9], vec![-1, 10]),
        (CompressionMethod::Zstd, vec![-7, 0, 22], vec![-8, 23, i32::MIN]),
    ] {
        for level in good {
            let mut zip = ZipWriter::new(Cursor::new(Vec::new()));
            let options =
                FileOptions::default().compression_method(method).compression_level(Some(level));
            zip.start_file("a", options).unwrap();
            zip.write_all(LOREM_IPSUM).unwrap();
            let archive = ZipArchive::new(zip.finish().unwrap()).unwrap();
            assert_eq!(contents(&archive, "a"), LOREM_IPSUM);
        }
        for level in bad {
            let mut zip = ZipWriter::new(Cursor::new(Vec::new()));
            let options =
                FileOptions::default().compression_method(method).compression_level(Some(level));
            assert!(matches!(
                zip.start_file("a", options),
                Err(ZipError::UnsupportedArchive("Unsupported compression level"))
            ));
        }
    }
}

#[test]
fn methods_without_a_compressor_are_refused() {
    let mut zip = ZipWriter::new(Cursor::new(Vec::new()));
    assert!(matches!(
        zip.start_file("a", FileOptions::default().compression_method(CompressionMethod::AES)),
        Err(ZipError::UnsupportedArchive("AES compression is not supported for writing"))
    ));
    assert!(matches!(
        zip.start_file(
            "a",
            FileOptions::default().compression_method(CompressionMethod::Unsupported(64))
        ),
        Err(ZipError::UnsupportedArchive("Unsupported compression"))
    ));
}

#[test]
fn compression_makes_long_runs_short() {
    let run = vec![7u8; 10_000];
    for method in METHODS {
        let mut zip = ZipWriter::new(Cursor::new(Vec::new()));
        zip.start_file("run", FileOptions::default().compression_method(method)).unwrap();
        zip.write_all(&run).unwrap();
        let archive = ZipArchive::new(zip.finish().unwrap()).unwrap();
        let stored = archive.by_name("run").unwrap().compressed_size();
        if method == CompressionMethod::Stored {
            assert_eq!(stored, 10_000);
        } else {
            assert!(stored < 1_000);
        }
        assert_eq!(contents(&archive, "run"), run);
    }
}

#[test]
fn finished_writer_refuses() {
    let mut zip = ZipWriter::new(Cursor::new(Vec::new()));
    zip.finish().unwrap();
    assert!(matches!(
        zip.start_file("a", FileOptions::default()),
        Err(ZipError::Io(IoError::Simple(ErrorKind::BrokenPipe, _)))
    ));
    assert!(matches!(
        zip.write(b"a"),
        Err(ZipError::Io(IoError::Simple(ErrorKind::Other, "No file has been started")))
    ));
}

#[test]
fn extra_data_is_validated() {
    let cases: [(&[u8], &str); 5] = [
        (&[1, 0, 0], "Incomplete extra data header"),
        (&[1, 0, 0, 0], "No custom ZIP64 extra data allowed"),
        (
            &[31, 0, 0, 0],
            "Extra data header ID 0x001f requires crate feature \"unreserved\"",
        ),
        (&[0xef, 0xbe, 1, 0], "Extra data size exceeds extra field"),
        (
            &[0x01, 0x99, 0, 0],
            "Extra data header ID 0x9901 requires crate feature \"unreserved\"",
        ),
    ];
    for (extra, message) in cases {
        let mut zip = ZipWriter::new(Cursor::new(Vec::new()));
        zip.start_file_with_extra_data("a", FileOptions::default()).unwrap();
        zip.write_all(extra).unwrap();
        match zip.end_extra_data() {
            Err(ZipError::Io(e)) => {
                let text = e.message();
                if !message.contains("unreserved") {
                    assert_eq!(text, message);
                } else {
                    assert!(text.contains("requires crate feature \"unreserved\""), "{}", text);
                }
            }
            _ => panic!("{}", message),
        }
    }
    let mut zip = ZipWriter::new(Cursor::new(Vec::new()));
    zip.start_file_with_extra_data("a", FileOptions::default()).unwrap();
    zip.write_all(&vec![0u8; 0x1_0000]).unwrap();
    assert!(matches!(
        zip.end_extra_data(),
        Err(ZipError::Io(IoError::Simple(
            ErrorKind::InvalidData,
            "Extra data exceeds extra field"
        )))
    ));
}

#[test]
fn extra_data_needs_a_file() {
    let mut zip = ZipWriter::new(Cursor::new(Vec::new()));
    assert!(matches!(
        zip.end_extra_data(),
        Err(ZipError::Io(IoError::Simple(ErrorKind::Other, "Not writing to extra field")))
    ));
}

#[test]
fn requests_for_what_is_not_there() {
    let archive = ZipArchive::new(write_test_archive(test_configs()[0]).unwrap()).unwrap();
    assert!(matches!(archive.by_name("nothing"), Err(ZipError::FileNotFound)));
    assert!(matches!(archive.by_index(archive.len()), Err(ZipError::FileNotFound)));
    assert!(!archive.is_empty());
    let mut zip = ZipWriter::new(Cursor::new(Vec::new()));
    assert!(matches!(zip.deep_copy_file("a", "b"), Err(ZipError::FileNotFound)));
    assert!(matches!(zip.shallow_copy_file("a", "b"), Err(ZipError::FileNotFound)));
}

#[test]
fn damaged_archives_are_refused() {
    assert!(matches!(
        ZipArchive::new(Cursor::new(Vec::new())),
        Err(ZipError::InvalidArchive("Invalid zip header"))
    ));
    assert!(matches!(
        ZipArchive::new(Cursor::new(vec![0; 128])),
        Err(ZipError::InvalidArchive("Could not find central directory end"))
    ));
    let good = write_test_archive(test_configs()[0]).unwrap().into_inner();
    // the contents are no longer what their checksum tells
    let mut bad = good.clone();
    let at = bad.windows(5).position(|w| w == b"Lorem").unwrap();
    bad[at] = b'l';
    let archive = ZipArchive::new(Cursor::new(bad)).unwrap();
    assert!(matches!(
        archive.by_name(ENTRY_NAME).unwrap().read_to_end(),
        Err(ZipError::Io(IoError::Simple(ErrorKind::Other, "Invalid checksum")))
    ));
    // a local header is not one
    let mut bad = good.clone();
    bad[0] = b'p';
    let archive = ZipArchive::new(Cursor::new(bad)).unwrap();
    assert!(matches!(
        archive.by_index(0),
        Err(ZipError::InvalidArchive("Invalid local file header"))
    ));
    // a central header is not one
    let mut bad = good.clone();
    let at = bad.windows(4).position(|w| w == [80, 75, 1, 2]).unwrap();
    bad[at] = b'p';
    assert!(matches!(
        ZipArchive::new(Cursor::new(bad)),
        Err(ZipError::InvalidArchive("Invalid Central Directory header"))
    ));
}

#[test]
fn encrypted_files_are_refused() {
    let mut bytes = write_test_archive(test_configs()[0]).unwrap().into_inner();
    let at = bytes.windows(4).position(|w| w == [80, 75, 1, 2]).unwrap();
    bytes[at + 8] |= 1;
    let archive = ZipArchive::new(Cursor::new(bytes)).unwrap();
    assert!(matches!(
        archive.by_index(0),
        Err(ZipError::UnsupportedArchive("Encrypted files are not supported"))
    ));
}

#[test]
fn disks_are_refused() {
    let mut bytes = write_test_archive(test_configs()[0]).unwrap().into_inner();
    let at = bytes.len() - 22;
    bytes[at + 4] = 1;
    assert!(matches!(
        ZipArchive::new(Cursor::new(bytes)),
        Err(ZipError::UnsupportedArchive("Support for multi-disk files is not implemented"))
    ));
}

#[test]
fn prepended_bytes_shift_the_archive() {
    let plain = write_test_archive(test_configs()[1]).unwrap().into_inner();
    let mut shifted = vec![b'#'; 77];
    shifted.extend_from_slice(&plain);
    let archive = ZipArchive::new(Cursor::new(shifted)).unwrap();
    assert_eq!(archive.offset(), 77);
    assert_eq!(contents(&archive, ENTRY_NAME), LOREM_IPSUM);
}

#[test]
fn many_entries_need_zip64() {
    let mut zip = ZipWriter::new(Cursor::new(Vec::new()));
    zip.start_file("first", FileOptions::default()).unwrap();
    zip.write_all(b"first").unwrap();
    for i in 0..0x1_0000 {
        zip.shallow_copy_file("first", &format!("{}", i)).unwrap();
    }
    zip.set_raw_comment(b"a comment".to_vec());
    let archive = ZipArchive::new(zip.finish().unwrap()).unwrap();
    assert_eq!(archive.len(), 0x1_0001);
    assert_eq!(archive.comment(), b"a comment");
    assert_eq!(contents(&archive, "65535"), b"first");
}

#[test]
fn nothing_to_abort() {
    let mut zip = ZipWriter::new(Cursor::new(Vec::new()));
    assert!(matches!(zip.abort_file(), Err(ZipError::FileNotFound)));
    zip.finish().unwrap();
    assert!(matches!(zip.abort_file(), Err(ZipError::FileNotFound)));
}

#[test]
fn reading_in_pieces() {
    let archive = ZipArchive::new(write_test_archive(test_configs()[1]).unwrap()).unwrap();
    let mut file = archive.by_name(ENTRY_NAME).unwrap();
    let mut all = Vec::new();
    loop {
        let piece = file.read(100).unwrap();
        if piece.is_empty() {
            break;
        }
        all.extend_from_slice(&piece);
    }
    assert_eq!(all, LOREM_IPSUM);
}

#[test]
fn file_details() {
    let mut zip = ZipWriter::new(Cursor::new(Vec::new()));
    zip.start_file_from_path("/a/../b/./c.txt", dated()).unwrap();
    zip.write_all(b"123456789").unwrap();
    zip.flush().unwrap();
    zip.add_directory_from_path("d/e", dated()).unwrap();
    let archive = ZipArchive::new(zip.finish().unwrap()).unwrap();
    assert_eq!(archive.file_names(), vec!["a/b/c.txt", "d/e/"]);
    let file = archive.by_index(0).unwrap();
    assert_eq!(file.name(), "a/b/c.txt");
    assert_eq!(file.name_raw(), b"a/b/c.txt");
    assert_eq!(file.comment(), "");
    assert_eq!(file.version_made_by(), (4, 6));
    assert_eq!(file.crc32(), 0xcbf43926);
    assert_eq!(file.size(), 9);
    assert_eq!(file.unix_mode(), Some(0o100644));
    let time = file.last_modified();
    assert_eq!(
        (time.year(), time.month(), time.day(), time.hour(), time.minute(), time.second()),
        (2018, 8, 15, 20, 45, 6)
    );
    assert_eq!(archive.by_index(1).unwrap().unix_mode(), Some(0o40755));
}

#[test]
fn random_archives() {
    let stream = zip::random::generate_random_archive(12, 40).unwrap().unwrap();
    let archive = ZipArchive::new(stream).unwrap();
    assert_eq!(archive.len(), 12);
    assert_eq!(archive.file_names()[0], "random0.dat");
    assert_eq!(archive.file_names()[11], "random11.dat");
    let first = contents(&archive, "random0.dat");
    assert_eq!(first.len(), 40);
    assert_ne!(first, contents(&archive, "random1.dat"));
    assert_ne!(first, vec![0u8; 40]);

    // no random bytes are needed
    let stream = zip::random::generate_random_archive(0, 40).unwrap().unwrap();
    assert_eq!(stream.len(), 22);
    let stream = zip::random::generate_random_archive(2, 0).unwrap().unwrap();
    assert_eq!(contents(&ZipArchive::new(stream).unwrap(), "random1.dat"), b"");
}

const LOREM_IPSUM : &[u8] = b"Lorem ipsum dolor sit amet, consectetur adipiscing elit. In tellus elit, tristique vitae mattis egestas, ultricies vitae risus. Quisque sit amet quam ut urna aliquet
molestie. Proin blandit ornare dui, a tempor nisl accumsan in. Praesent a consequat felis. Morbi metus diam, auctor in auctor vel, feugiat id odio. Curabitur ex ex,
dictum quis auctor quis, suscipit id lorem. Aliquam vestibulum dolor nec enim vehicula, porta tristique augue tincidunt. Vivamus ut gravida est. Sed pellentesque, dolor
vitae tristique consectetur, neque lectus pulvinar dui, sed feugiat purus diam id lectus. Class aptent taciti sociosqu ad litora torquent per conubia nostra, per
inceptos himenaeos. Maecenas feugiat velit in ex ultrices scelerisque id id neque.
";

const EXTRA_DATA: &[u8] = b"Extra Data";

const ENTRY_NAME: &str = "test/lorem_ipsum.txt";

const COPY_ENTRY_NAME: &str = "test/lorem_ipsum_renamed.txt";

const TEST_ALIGNMENT: u16 = 512;

#[test]
fn times_that_do_not_fit_are_settled() {
    let mut writer = ZipWriter::new(Cursor::new(Vec::new()));
    let options = dated().compression_method(CompressionMethod::Stored);
    writer.start_file("a", options).unwrap();
    let mut bytes = writer.finish().unwrap().into_inner();
    let archive = ZipArchive::new(Cursor::new(bytes.clone())).unwrap();
    let time = archive.by_index(0).unwrap().last_modified_tm();
    assert_eq!((time.tm_year, time.tm_mon, time.tm_mday), (118, 7, 15));
    assert_eq!((time.tm_hour, time.tm_min, time.tm_sec), (20, 45, 6));

    // the date of the central header, which is no date
    let central = 31;
    assert_eq!(&bytes[central..central + 4], b"PK\x01\x02");
    for i in 12..16 {
        bytes[central + i] = 0;
    }
    let archive = ZipArchive::new(Cursor::new(bytes)).unwrap();
    let file = archive.by_index(0).unwrap();
    assert_eq!((file.last_modified().month(), file.last_modified().day()), (0, 0));
    let time = file.last_modified_tm();
    assert_eq!((time.tm_year, time.tm_mon, time.tm_mday), (79, 10, 30));
}

#[test]
fn deflated_files_are_read_in_pieces() {
    let contents: Vec<u8> = (0..100_000u32).map(|i| (i / 3) as u8).collect();
    let mut writer = ZipWriter::new(Cursor::new(Vec::new()));
    let options = dated().compression_method(CompressionMethod::Deflated);
    writer.start_file("a", options).unwrap();
    writer.write_all(&contents).unwrap();
    assert!(writer.is_endable());
    let archive = ZipArchive::new(writer.finish().unwrap()).unwrap();
    let mut file = archive.by_index(0).unwrap();
    let mut seen = Vec::new();
    loop {
        let out = file.read(777).unwrap();
        if out.is_empty() {
            break;
        }
        seen.extend_from_slice(&out);
    }
    assert_eq!(seen, contents);
}

/// What an encoder makes of two parts with a flush between them: what is out by the flush, and
/// what is out in the end.
fn flushed_between(method: CompressionMethod, a: &[u8], b: &[u8]) -> (Vec<u8>, Vec<u8>) {
    match method {
        CompressionMethod::Deflated => {
            let level = flate2::Compression::new(6);
            let mut encoder = flate2::write::DeflateEncoder::new(Vec::new(), level);
            encoder.write_all(a).unwrap();
            encoder.flush().unwrap();
            let first = encoder.get_ref().clone();
            encoder.write_all(b).unwrap();
            (first, encoder.finish().unwrap())
        }
        CompressionMethod::Bzip2 => {
            let level = bzip2::Compression::new(6);
            let mut encoder = bzip2::write::BzEncoder::new(Vec::new(), level);
            encoder.write_all(a).unwrap();
            encoder.flush().unwrap();
            let first = encoder.get_ref().clone();
            encoder.write_all(b).unwrap();
            (first, encoder.finish().unwrap())
        }
        CompressionMethod::Zstd => {
            let mut encoder = zstd::stream::write::Encoder::new(Vec::new(), 3).unwrap();
            encoder.write_all(a).unwrap();
            encoder.flush().unwrap();
            let first = encoder.get_ref().clone();
            encoder.write_all(b).unwrap();
            (first, encoder.finish().unwrap())
        }
        _ => (a.to_vec(), [a, b].concat()),
    }
}

fn flush_in_the_middle(method: CompressionMethod) {
    let a = LOREM_IPSUM;
    let b = &LOREM_IPSUM[17..400];
    let (first, all) = flushed_between(method, a, b);
    let mut zip = ZipWriter::new(Cursor::new(Vec::new()));
    zip.start_file("a", dated().compression_method(method)).unwrap();
    let start = zip.get_ref().unwrap().len();
    zip.write_all(a).unwrap();
    zip.flush().unwrap();
    assert_eq!(zip.get_ref().unwrap()[start..], first);
    zip.write_all(b).unwrap();
    let archive = ZipArchive::new(zip.finish().unwrap()).unwrap();
    assert_eq!(archive.by_name("a").unwrap().get_raw(), all);
    assert_eq!(contents(&archive, "a"), [a, b].concat());

    // without a flush, something else is stored, if it is packed
    let mut zip = ZipWriter::new(Cursor::new(Vec::new()));
    zip.start_file("a", dated().compression_method(method)).unwrap();
    zip.write_all(a).unwrap();
    zip.write_all(b).unwrap();
    let archive = ZipArchive::new(zip.finish().unwrap()).unwrap();
    let same = archive.by_name("a").unwrap().get_raw() == all;
    assert_eq!(same, method == CompressionMethod::Stored);
    assert_eq!(contents(&archive, "a"), [a, b].concat());
}

#[test]
fn stored_files_are_flushed() {
    flush_in_the_middle(CompressionMethod::Stored);
}

#[test]
fn deflated_files_are_flushed() {
    flush_in_the_middle(CompressionMethod::Deflated);
}

#[test]
fn bzip2_files_are_flushed() {
    flush_in_the_middle(CompressionMethod::Bzip2);
}

#[test]
fn zstd_files_are_flushed() {
    flush_in_the_middle(CompressionMethod::Zstd);
}

#[test]
fn flushes_add_up() {
    let methods =
        [CompressionMethod::Deflated, CompressionMethod::Bzip2, CompressionMethod::Zstd];
    let mut zip = ZipWriter::new(Cursor::new(Vec::new()));
    zip.flush().unwrap();
    for (i, method) in methods.iter().enumerate() {
        zip.start_file(&i.to_string(), dated().compression_method(*method)).unwrap();
        // before anything is written, between pieces, twice, and at the end
        zip.flush().unwrap();
        for piece in LOREM_IPSUM.chunks(100) {
            zip.write_all(piece).unwrap();
            zip.flush().unwrap();
            zip.flush().unwrap();
        }
    }
    let stream = zip.finish().unwrap();
    assert!(zip.get_ref().is_none());
    assert_eq!(
        zip.flush().unwrap_err().message(),
        "flush(): ZipWriter was already closed"
    );
    let archive = ZipArchive::new(stream).unwrap();
    for i in 0..methods.len() {
        assert_eq!(contents(&archive, &i.to_string()), LOREM_IPSUM);
    }
}

/// An archive in which `packed` is stored by a method, whatever it is.
fn archive_of(method: u16, packed: &[u8]) -> ZipArchive {
    let mut zip = ZipWriter::new(Cursor::new(Vec::new()));
    zip.start_file("a", dated().compression_method(CompressionMethod::Stored)).unwrap();
    zip.write_all(packed).unwrap();
    let mut bytes = zip.finish().unwrap().into_inner();
    let central = 31 + packed.len();
    assert_eq!(&bytes[central..central + 4], b"PK\x01\x02");
    bytes[8..10].copy_from_slice(&method.to_le_bytes());
    bytes[central + 10..central + 12].copy_from_slice(&method.to_le_bytes());
    ZipArchive::new(Cursor::new(bytes)).unwrap()
}

fn fails_with(method: u16, packed: &[u8], kind: ErrorKind, text: &'static str) {
    let archive = archive_of(method, packed);
    let expected = IoError::Simple(kind, text);
    let failure = archive.by_name("a").unwrap().read_to_end();
    assert!(matches!(failure, Err(ZipError::Io(e)) if e == expected));

    // and in pieces
    let mut file = archive.by_name("a").unwrap();
    let failure = loop {
        match file.read(100) {
            Ok(out) => {
                assert!(!out.is_empty());
            }
            Err(e) => {
                break e;
            }
        }
    };
    assert!(matches!(failure, ZipError::Io(e) if e == expected));
}

#[test]
fn failures_of_decoders() {
    let (_, deflated) = flushed_between(CompressionMethod::Deflated, LOREM_IPSUM, b"");
    let (_, bzip2ed) = flushed_between(CompressionMethod::Bzip2, LOREM_IPSUM, b"");
    let (_, zstded) = flushed_between(CompressionMethod::Zstd, LOREM_IPSUM, b"");

    fails_with(8, &[7], ErrorKind::InvalidInput, "corrupt deflate stream");
    let cut = deflated.len() - 10;
    fails_with(8, &deflated[..cut], ErrorKind::UnexpectedEof, "incomplete deflate stream");

    let mut broken = bzip2ed.clone();
    broken[20] ^= 0xff;
    fails_with(12, &broken, ErrorKind::InvalidInput, "bzip2: invalid data");
    let text = "decompression not finished but EOF reached";
    fails_with(12, &bzip2ed[..bzip2ed.len() - 10], ErrorKind::UnexpectedEof, text);

    fails_with(93, b"not a frame", ErrorKind::Other, "zstd: invalid data");
    fails_with(93, &zstded[..zstded.len() - 5], ErrorKind::UnexpectedEof, "incomplete frame");
}

#[test]
fn packed_files_are_read_in_pieces() {
    let all: Vec<u8> = (0..100_000u32).map(|i| (i.wrapping_mul(i) >> 9) as u8).collect();
    for method in [CompressionMethod::Deflated, CompressionMethod::Bzip2, CompressionMethod::Zstd] {
        let mut zip = ZipWriter::new(Cursor::new(Vec::new()));
        zip.start_file("a", dated().compression_method(method)).unwrap();
        zip.write_all(&all).unwrap();
        let archive = ZipArchive::new(zip.finish().unwrap()).unwrap();
        let mut file = archive.by_name("a").unwrap();
        let mut seen = file.read(1).unwrap();
        assert_eq!(seen, all[..1]);
        seen.extend_from_slice(&file.read(5000).unwrap());
        assert_eq!(seen, all[..seen.len()]);
        seen.extend_from_slice(&file.read_to_end().unwrap());
        assert_eq!(seen, all);
        assert_eq!(file.read(10).unwrap(), b"");

        // at once, and then there is nothing more
        let mut file = archive.by_name("a").unwrap();
        assert_eq!(file.read_to_end().unwrap(), all);
        assert_eq!(file.read(10).unwrap(), b"");
        assert_eq!(file.read_to_end().unwrap(), b"");
    }
}
