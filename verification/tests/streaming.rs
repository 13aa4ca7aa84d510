use std::sync::Arc;

use zip::result::{ErrorKind, IoError, ZipError, ZipResult};
use zip::stream::{Cursor, SeekFrom};
use zip::tokio::buf_reader::BufReader;
use zip::tokio::buf_writer::{BufWriter, NonEmptyReadSlice, NonEmptyWriteSlice};
use zip::tokio::channels::futurized::{RingFreeList, RingFuturized};
use zip::tokio::channels::push::Pusher;
use zip::tokio::channels::ring::{Ring, TruncateLength};
use zip::tokio::channels::{Lease, LeaseBehavior, PermitState};
use zip::tokio::combinators::{KnownExpanse, Limiter};
use zip::tokio::crc32::Crc32Reader;
use zip::tokio::extraction::{
    extract_entry, plan_entry, scan_entry, unpack_entry, CompletedPaths, Matcher,
};
use zip::tokio::os::copy_file_range::{
    check_regular_file, seek_args, validate_raw_fd, CopyProgress, FromGivenOffset, Role, Whence,
};
use zip::tokio::os::linux::FileFd;
use zip::tokio::os::subset::SharedSubset;
use zip::tokio::os::SyscallAvailability;
use zip::tokio::read::{
    drain, find_content, ReaderWrapper, SharedData, ZipArchive, ZipFileWrappedReader,
};
use zip::tokio::stream_impls::deflate::{
    Compressor, Decompressor, Drain, FlushKind, Next, Ops, Reader, Writer,
};
use zip::tokio::utils::{map_swap_uninit, map_take_manual_drop};
use zip::tokio::write::ZipWriter;
use zip::tokio::{Poll, WrappedPin};
use zip::write::FileOptions;
use zip::CompressionMethod;

fn plain(data: &[u8]) -> Cursor {
    Cursor::new(data.to_vec())
}

#[test]
fn test_empty_reader() {
    let mut reader = Crc32Reader::new(plain(b""), 0, false);
    assert_eq!(reader.read(1).unwrap().len(), 0);

    let mut reader = Crc32Reader::new(plain(b""), 1, false);
    assert!(reader.read(1).unwrap_err().message().contains("Invalid checksum"));
}

#[test]
fn test_byte_by_byte() {
    let mut reader = Crc32Reader::new(plain(b"1234"), 0x9be3e0a3, false);
    assert_eq!(reader.read(1).unwrap().len(), 1);
    assert_eq!(reader.read(1).unwrap().len(), 1);
    assert_eq!(reader.read(1).unwrap().len(), 1);
    assert_eq!(reader.read(1).unwrap().len(), 1);
    assert_eq!(reader.read(1).unwrap().len(), 0);
    // Can keep reading 0 bytes after the end
    assert_eq!(reader.read(1).unwrap().len(), 0);
}

#[test]
fn test_zero_read() {
    let mut reader = Crc32Reader::new(plain(b"1234"), 0x9be3e0a3, false);
    assert_eq!(reader.read(0).unwrap().len(), 0);
    assert_eq!(reader.read(5).unwrap().len(), 4);
}

#[test]
fn encrypted_contents_are_not_checked() {
    let mut reader = Crc32Reader::new(plain(b"1234"), 0, true);
    assert_eq!(reader.read_to_end().unwrap(), b"1234");
    let mut reader = Crc32Reader::new(plain(b"1234"), 0, false);
    assert!(reader.read_to_end().is_err());
}

#[test]
fn test_map_swap_uninit_primitive() {
    let mut x = 5;
    map_swap_uninit(&mut x, |x| x + 3);
    assert_eq!(x, 8);
}

#[test]
fn test_map_swap_uninit_heap_alloc() {
    let mut x: Vec<u8> = (0..12).map(|x| x * 3).collect();
    map_swap_uninit(&mut x, |mut x| {
        x.push(192);
        x.insert(0, 123);
        x
    });
    assert_eq!(x, vec![123, 0, 3, 6, 9, 12, 15, 18, 21, 24, 27, 30, 33, 192]);
}

#[test]
fn taken_values_are_mapped() {
    let mut slot = Some(5);
    assert_eq!(map_take_manual_drop(&mut slot, |x| format!("{}", x)), "5");
    assert_eq!(slot, None);
}

#[test]
fn copy_file_range_check_copy_file_range() {
    assert!(matches!(
        SyscallAvailability::from_probe(true, libc::EBADF),
        SyscallAvailability::Available
    ));
}

#[test]
fn linux_check_copy_file_range() {
    assert!(matches!(
        zip::tokio::os::linux::SyscallAvailability::from_probe(true, libc::EBADF),
        zip::tokio::os::linux::SyscallAvailability::Available
    ));
}

#[test]
fn probes_that_fail() {
    assert_eq!(
        SyscallAvailability::from_probe(true, libc::ENOSYS),
        SyscallAvailability::FailedProbe(libc::ENOSYS)
    );
    assert_eq!(
        SyscallAvailability::from_probe(false, libc::EBADF),
        SyscallAvailability::NotOnThisPlatform
    );
}

const REGULAR: u32 = libc::S_IFREG | 0o644;

#[test]
fn copy_file_range_check_readable_writable_file() {
    validate_raw_fd(REGULAR, libc::O_RDWR, Role::Readable).unwrap();
    validate_raw_fd(REGULAR, libc::O_RDWR, Role::Writable).unwrap();
}

#[test]
fn copy_file_range_check_only_writable() {
    validate_raw_fd(REGULAR, libc::O_WRONLY, Role::Writable).unwrap();
    assert!(validate_raw_fd(REGULAR, libc::O_WRONLY, Role::Readable).is_err());
}

#[test]
fn copy_file_range_check_only_readable() {
    validate_raw_fd(REGULAR, libc::O_RDONLY, Role::Readable).unwrap();
    assert!(validate_raw_fd(REGULAR, libc::O_RDONLY, Role::Writable).is_err());
}

#[test]
fn copy_file_range_check_no_append() {
    let flags = libc::O_WRONLY | libc::O_APPEND;
    assert_eq!(
        validate_raw_fd(REGULAR, flags, Role::Writable).unwrap_err().message(),
        "Writable Fd was set for append!"
    );
    assert_eq!(
        validate_raw_fd(REGULAR, flags, Role::Readable).unwrap_err().message(),
        "Fd is not readable!"
    );
}

#[test]
fn linux_check_readable_writable_file() {
    assert_eq!(
        *FileFd::from_raw_fd_checked(5, REGULAR, libc::O_RDWR, Role::Readable).unwrap().raw_fd(),
        5
    );
    FileFd::from_raw_fd_checked(5, REGULAR, libc::O_RDWR, Role::Writable).unwrap();
}

#[test]
fn linux_check_only_writable() {
    FileFd::from_raw_fd_checked(5, REGULAR, libc::O_WRONLY, Role::Writable).unwrap();
    assert!(FileFd::from_raw_fd_checked(5, REGULAR, libc::O_WRONLY, Role::Readable).is_err());
}

#[test]
fn linux_check_only_readable() {
    FileFd::from_raw_fd_checked(5, REGULAR, libc::O_RDONLY, Role::Readable).unwrap();
    assert!(FileFd::from_raw_fd_checked(5, REGULAR, libc::O_RDONLY, Role::Writable).is_err());
}

#[test]
fn linux_check_no_append() {
    let flags = libc::O_WRONLY | libc::O_APPEND;
    assert!(FileFd::from_raw_fd_checked(5, REGULAR, flags, Role::Writable).is_err());
    assert!(FileFd::from_raw_fd_checked(5, REGULAR, flags, Role::Readable).is_err());
}

#[test]
fn only_regular_files_fit() {
    check_regular_file(REGULAR).unwrap();
    assert_eq!(
        check_regular_file(libc::S_IFDIR | 0o755).unwrap_err().message(),
        "Fd is not a regular file"
    );
    assert!(FromGivenOffset::new(3, libc::S_IFIFO, libc::O_RDWR, Role::Readable, 0).is_err());
}

#[test]
fn offsets_of_a_file() {
    let mut f = FromGivenOffset::new(3, REGULAR, libc::O_RDWR, Role::Readable, 7).unwrap();
    assert_eq!(f.offset, 7);
    f.advance(4);
    assert_eq!(f.offset, 11);
    assert_eq!(f.seek(SeekFrom::Current(-1), 100), 10);
    assert_eq!(f.seek(SeekFrom::End(-5), 100), 95);
    assert_eq!(f.seek(SeekFrom::Start(1), 100), 1);
    assert_eq!(seek_args(SeekFrom::End(-5)), (-5, Whence::End));
}

#[test]
fn copies_end_where_nothing_comes() {
    // five bytes were requested, and four are there
    let mut progress = CopyProgress::new(5);
    assert_eq!(progress.request(), Some(5));
    assert_eq!(progress.wrote(4), None);
    assert_eq!(progress.request(), Some(1));
    assert_eq!(progress.wrote(0), Some(4));
    let mut progress = CopyProgress::new(5);
    assert_eq!(progress.wrote(5), Some(5));
    assert_eq!(progress.request(), None);
}

fn one_file(name: &str, contents: &[u8], options: FileOptions) -> ZipArchive {
    let mut zip = ZipWriter::new(Cursor::new(Vec::new()));
    zip.start_file(name, options).unwrap();
    zip.write_all(contents).unwrap();
    zip.finish_into_readable().unwrap()
}

fn read_by_name(archive: &mut ZipArchive, name: &str) -> ZipResult<Vec<u8>> {
    let mut file = archive.by_name(name)?;
    let out = file.reader_mut().read_to_end();
    archive.give_back(file);
    out
}

#[test]
fn test_split_contiguous_chunks() {
    let options = FileOptions::default();

    let mut src = one_file("a.txt", b"hello\n", options);
    let mut src2 = one_file("b.txt", b"hey\n", options);
    let mut src3 = one_file("c/d.txt", b"asdf!\n", options);

    let prefix = [0u8; 200];
    let mut buf = Cursor::new(Vec::new());
    buf.write_all(&prefix);
    let mut zip = ZipWriter::new(buf);
    zip.merge_archive(&mut src).unwrap();
    zip.merge_archive(&mut src2).unwrap();
    zip.merge_archive(&mut src3).unwrap();
    let result = zip.finish_into_readable().unwrap();

    let parent = Arc::new(result.into_shared());
    assert_eq!(parent.len(), 3);
    assert_eq!(parent.offset(), prefix.len() as u64);
    assert_eq!(200..329, parent.content_range());

    let split_result = SharedSubset::split_contiguous_chunks(parent.clone(), 3);
    assert_eq!(split_result.len(), 3);

    assert_eq!(200..243, split_result[0].content_range());
    assert_eq!(1, split_result[0].len());
    assert_eq!((0, 0), (split_result[0].first_entry(), split_result[0].last_entry()));

    assert_eq!(243..284, split_result[1].content_range());
    assert_eq!(1, split_result[1].len());
    assert_eq!((1, 1), (split_result[1].first_entry(), split_result[1].last_entry()));

    assert_eq!(284..329, split_result[2].content_range());
    assert_eq!(1, split_result[2].len());
    assert_eq!((2, 2), (split_result[2].first_entry(), split_result[2].last_entry()));
    assert_eq!(329, parent.directory_start());

    assert_eq!(split_result[2].contiguous_entries()[0].file_name, "c/d.txt");
    assert_eq!(SharedSubset::split_contiguous_chunks(parent.clone(), 1)[0].len(), 3);
    assert_eq!(split_result[1].parent().directory_start(), 329);
}

#[test]
fn parts_are_read_alone() {
    let options = FileOptions::default();
    let mut zip = ZipWriter::new(Cursor::new(Vec::new()));
    for (name, contents) in [("a.txt", "hello\n"), ("b.txt", "hello2\n"), ("c.txt", "hello3\n")] {
        zip.start_file(name, options).unwrap();
        zip.write_all(contents.as_bytes()).unwrap();
    }
    let whole = zip.finish().unwrap();
    let bytes = whole.get_ref().clone();
    let parent = Arc::new(ZipArchive::new_checked(whole).unwrap().unwrap().into_shared());
    let mut all = Vec::new();
    for chunk in SharedSubset::split_contiguous_chunks(parent, 3) {
        let range = chunk.content_range();
        let part = Cursor::new(bytes[range.start as usize..range.end as usize].to_vec());
        let mut data = chunk.mapped_entry(0).unwrap();
        let limited = find_content(&mut data, part).unwrap();
        let contents = ZipFileWrappedReader::construct(&data, limited).read_to_end().unwrap();
        all.push((data.file_name, String::from_utf8(contents).unwrap()));
    }
    assert_eq!(
        all,
        vec![
            ("a.txt".to_string(), "hello\n".to_string()),
            ("b.txt".to_string(), "hello2\n".to_string()),
            ("c.txt".to_string(), "hello3\n".to_string()),
        ]
    );
}

#[test]
fn test_find_content() {
    let mut writer = zip::ZipWriter::new(Cursor::new(Vec::new()));
    let options = FileOptions::default().compression_method(CompressionMethod::Stored);
    writer.start_file("a/b.txt", options).unwrap();
    writer.write_all(b"hello\n").unwrap();
    let buf = writer.finish().unwrap();
    let f = ZipArchive::new_checked(buf).unwrap().unwrap();

    assert_eq!(1, f.shared().len());
    let mut data = f.shared().contiguous_entries()[0].clone();
    assert_eq!(b"a/b.txt", &data.file_name_raw[..]);

    let mut limited = find_content(&mut data, f.unwrap_inner_pin()).unwrap();
    assert_eq!(drain(&mut limited), b"hello\n");
    assert_eq!(data.data_start, 37);
}

#[test]
fn test_get_reader() {
    let mut writer = zip::ZipWriter::new(Cursor::new(Vec::new()));
    let options = FileOptions::default().compression_method(CompressionMethod::Deflated);
    writer.start_file("a/b.txt", options).unwrap();
    writer.write_all(b"hello\n").unwrap();
    let buf = writer.finish().unwrap();
    let f = ZipArchive::new_checked(buf).unwrap().unwrap();

    assert_eq!(1, f.shared().len());
    let mut data = f.shared().contiguous_entries()[0].clone();
    assert_eq!(data.crc32, 909783072);
    assert_eq!(b"a/b.txt", &data.file_name_raw[..]);

    let mut limited = find_content(&mut data, f.unwrap_inner_pin()).unwrap();

    let buf = drain(&mut limited);
    // This is compressed, so it should NOT match!
    assert_ne!(&buf, b"hello\n");
    assert_eq!(buf.len(), limited.full_length());
    assert_eq!(buf.len(), data.compressed_size as usize);
    assert_eq!(b"hello\n".len(), data.uncompressed_size as usize);

    let limited = find_content(&mut data, limited.unwrap_inner_pin()).unwrap();
    // This stream should decode the compressed content!
    let mut decoded = ZipFileWrappedReader::construct(&data, limited);
    assert_eq!(decoded.read(3).unwrap(), b"hel");
    assert_eq!(decoded.read_to_end().unwrap(), b"lo\n");
}

#[test]
fn archive_is_readable_right_away() {
    for method in [CompressionMethod::Stored, CompressionMethod::Deflated] {
        let options = FileOptions::default().compression_method(method);
        let mut zip = ZipWriter::new(Cursor::new(Vec::new()));
        zip.start_file("asdf.txt", options).unwrap();
        zip.write_all(b"hello!").unwrap();
        zip.add_directory("dir", options).unwrap();
        zip.add_symlink("link", "asdf.txt", options).unwrap();
        zip.set_comment("so it ends");
        let mut archive = zip.finish_into_readable().unwrap();
        assert_eq!(archive.shared().file_names(), vec!["asdf.txt", "dir/", "link"]);
        assert_eq!(read_by_name(&mut archive, "asdf.txt").unwrap(), b"hello!");
        assert_eq!(read_by_name(&mut archive, "dir/").unwrap(), b"");
        assert_eq!(read_by_name(&mut archive, "link").unwrap(), b"asdf.txt");
        let link = &archive.shared().contiguous_entries()[2];
        assert_eq!(link.unix_mode(), Some(0o120777));
        assert_eq!(link.uncompressed_size, 8);
        assert!(matches!(read_by_name(&mut archive, "none"), Err(ZipError::FileNotFound)));
        // and the same when it is opened
        let bytes = archive.unwrap_inner_pin();
        let mut archive = ZipArchive::new_checked(bytes).unwrap().unwrap();
        assert_eq!(archive.shared().comment(), b"so it ends");
        assert_eq!(archive.shared().file_names(), vec!["asdf.txt", "dir/", "link"]);
        assert_eq!(read_by_name(&mut archive, "asdf.txt").unwrap(), b"hello!");
        assert_eq!(read_by_name(&mut archive, "link").unwrap(), b"asdf.txt");
        assert!(matches!(archive.by_index_raw(3), Err(ZipError::FileNotFound)));
    }
}

#[test]
fn merged_archives_are_read() {
    let options = FileOptions::default();
    let mut src = one_file("a.txt", b"hello\n", options);
    let mut src2 = one_file("b.txt", b"hey\n", options);
    let mut zip = ZipWriter::new(Cursor::new(Vec::new()));
    zip.merge_archive(&mut src).unwrap();
    zip.merge_archive(&mut src2).unwrap();
    zip.start_file("c.txt", options).unwrap();
    zip.write_all(b"ho\n").unwrap();
    let mut result = zip.finish_into_readable().unwrap();
    assert_eq!(read_by_name(&mut result, "a.txt").unwrap(), b"hello\n");
    assert_eq!(read_by_name(&mut result, "b.txt").unwrap(), b"hey\n");
    assert_eq!(read_by_name(&mut result, "c.txt").unwrap(), b"ho\n");
    // the sources are as they were
    assert_eq!(read_by_name(&mut src, "a.txt").unwrap(), b"hello\n");
}

#[test]
fn appended_archives_are_read() {
    let options = FileOptions::default();
    let mut zip = ZipWriter::new(Cursor::new(Vec::new()));
    zip.start_file("a.txt", options).unwrap();
    zip.write_all(b"hello\n").unwrap();
    let src = zip.finish().unwrap();
    let mut src2 = one_file("b.txt", b"hey\n", options);
    let mut zip = ZipWriter::new_append(src).unwrap();
    zip.merge_archive(&mut src2).unwrap();
    let mut result = zip.finish_into_readable().unwrap();
    assert_eq!(result.shared().len(), 2);
    assert_eq!(read_by_name(&mut result, "a.txt").unwrap(), b"hello\n");
    assert_eq!(read_by_name(&mut result, "b.txt").unwrap(), b"hey\n");
}

#[test]
fn aligned_files() {
    let options = FileOptions::default().compression_method(CompressionMethod::Stored);
    let mut zip = ZipWriter::new(Cursor::new(Vec::new()));
    zip.start_file_aligned("a", options, 64).unwrap();
    zip.write_all(b"aligned").unwrap();
    let mut archive = zip.finish_into_readable().unwrap();
    assert_eq!(archive.shared().contiguous_entries()[0].data_start % 64, 0);
    assert_eq!(read_by_name(&mut archive, "a").unwrap(), b"aligned");
}

#[test]
fn streamed_extra_data() {
    let options = FileOptions::default().compression_method(CompressionMethod::Stored);
    let mut zip = ZipWriter::new(Cursor::new(Vec::new()));
    assert!(zip.end_extra_data().is_err());
    assert_eq!(zip.start_file_with_extra_data("a", options).unwrap(), 31);
    zip.write_all(&[0xef, 0xbe, 2, 0, 1, 2]).unwrap();
    assert_eq!(zip.end_extra_data().unwrap(), 37);
    zip.write_all(b"contents").unwrap();
    let mut archive = zip.finish_into_readable().unwrap();
    assert_eq!(archive.shared().contiguous_entries()[0].extra_field, vec![0xef, 0xbe, 2, 0, 1, 2]);
    assert_eq!(read_by_name(&mut archive, "a").unwrap(), b"contents");
    // the central header has the extra data, but does not count it
    let stream = archive.unwrap_inner_pin();
    let bytes = stream.get_ref().clone();
    let central = 37 + 8;
    assert_eq!(&bytes[central..central + 4], b"PK\x01\x02");
    assert_eq!(&bytes[central + 30..central + 32], &[0, 0]);
    assert_eq!(&bytes[central + 46..central + 53], b"a\xef\xbe\x02\x00\x01\x02");
    let mut archive = ZipArchive::new_checked(stream).unwrap().unwrap();
    assert_eq!(archive.shared().contiguous_entries()[0].extra_field, Vec::<u8>::new());
    assert_eq!(read_by_name(&mut archive, "a").unwrap(), b"contents");

    // another entry after one with extra data cannot be found
    let mut zip = ZipWriter::new(Cursor::new(Vec::new()));
    zip.start_file_with_extra_data("a", options).unwrap();
    zip.write_all(&[0xef, 0xbe, 2, 0, 1, 2]).unwrap();
    zip.end_extra_data().unwrap();
    assert!(zip.is_endable());
    zip.start_file("b", options).unwrap();
    assert!(matches!(
        ZipArchive::new_checked(zip.finish().unwrap()),
        Err(ZipError::InvalidArchive("Invalid Central Directory header"))
    ));

    // what comes after the extra data of the local header is contents
    let mut zip = ZipWriter::new(Cursor::new(Vec::new()));
    zip.start_file_with_extra_data("a", options).unwrap();
    assert_eq!(zip.end_local_start_central_extra_data().unwrap(), 31);
    zip.write_all(&[0xef, 0xbe, 1, 0, 7]).unwrap();
    assert_eq!(zip.end_extra_data().unwrap(), 31);
    zip.write_all(b"contents").unwrap();
    let mut archive = ZipArchive::new_checked(zip.finish().unwrap()).unwrap().unwrap();
    assert_eq!(archive.shared().contiguous_entries()[0].extra_field, Vec::<u8>::new());
    assert_eq!(read_by_name(&mut archive, "a").unwrap(), b"\xef\xbe\x01\x00\x07contents");

    let mut zip = ZipWriter::new(Cursor::new(Vec::new()));
    zip.start_file_with_extra_data("a", options).unwrap();
    zip.write_all(&[1, 0, 0, 0]).unwrap();
    assert!(zip.end_local_start_central_extra_data().is_err());
}

#[test]
fn streamed_failures() {
    let mut zip = ZipWriter::new(Cursor::new(Vec::new()));
    assert!(matches!(
        zip.write_all(b"a"),
        Err(ZipError::Io(IoError::Simple(ErrorKind::Other, "No file has been started")))
    ));
    zip.write_all(b"").unwrap();
    assert!(matches!(
        zip.start_file("a", FileOptions::default().compression_level(Some(10))),
        Err(ZipError::UnsupportedArchive("Unsupported compression level"))
    ));
    let zip = ZipWriter::new(Cursor::new(Vec::new()));
    assert!(matches!(
        zip.finish_into_readable(),
        Err(ZipError::InvalidArchive("attempt to finalize empty zip writer into readable"))
    ));
    let mut zip = zip::ZipWriter::new(Cursor::new(Vec::new()));
    let empty = zip.finish().unwrap();
    assert!(ZipArchive::new_checked(empty).unwrap().unwrap().shared().is_empty());
}

#[test]
fn contents_that_are_cut_off() {
    let archive = one_file("a", b"hello\n", FileOptions::default());
    let data = archive.shared().contiguous_entries()[0].clone();
    let mut packed = archive.unwrap_inner_pin().into_inner();
    packed.drain(..data.data_start as usize);
    packed.truncate(data.compressed_size as usize - 3);
    // what is there does not have the checksum
    assert_eq!(unpack_entry(&data, packed).unwrap_err().message(), "Invalid checksum");
    assert_eq!(
        unpack_entry(&data, vec![0xff; 20]).unwrap_err().message(),
        "corrupt read stream(deflate decompression error)"
    );
}

#[test]
fn names_that_occur_twice() {
    let options = FileOptions::default();
    let mut zip = ZipWriter::new(Cursor::new(Vec::new()));
    zip.merge_archive(&mut one_file("a", b"1", options)).unwrap();
    zip.merge_archive(&mut one_file("a", b"2", options)).unwrap();
    let twice = zip.finish().unwrap();
    assert!(ZipArchive::new_checked(twice).unwrap().is_none());
}

#[test]
fn lost_readers() {
    let options = FileOptions::default();
    let mut bytes = one_file("a", b"1", options).unwrap_inner_pin().into_inner();
    bytes[0] = b'p';
    let mut archive = ZipArchive::new_checked(Cursor::new(bytes)).unwrap().unwrap();
    assert!(matches!(
        archive.by_index(0),
        Err(ZipError::InvalidArchive("Invalid local file header"))
    ));
}

#[test]
fn directories_of_a_path() {
    assert_eq!(CompletedPaths::containing_dirs("a/b/c.txt"), vec!["a", "a/b"]);
    assert_eq!(CompletedPaths::containing_dirs("a/b/"), vec!["a", "a/b"]);
    assert_eq!(CompletedPaths::containing_dirs("c.txt").len(), 0);
    let mut paths = CompletedPaths::new();
    assert!(!paths.contains("a"));
    paths.confirm_dir("a".to_string());
    assert!(paths.contains("a"));
    assert_eq!(paths.new_containing_dirs_needed("a/b/c/d.txt"), vec!["a/b", "a/b/c"]);
    assert!(CompletedPaths::is_dir("a/"));
    assert!(!CompletedPaths::is_dir("a"));
}

#[test]
fn extraction_in_any_order() {
    let options = FileOptions::default();
    let mut zip = ZipWriter::new(Cursor::new(Vec::new()));
    zip.start_file("a/b.txt", options).unwrap();
    zip.write_all(b"hello\n").unwrap();
    zip.start_file("c.txt", options).unwrap();
    zip.write_all(b"hey\n").unwrap();
    let mut archive = zip.finish_into_readable().unwrap();
    let mut matcher = Matcher::new(archive.shared()).unwrap();
    let mut packed = Vec::new();
    for i in 0..2 {
        let mut file = archive.by_index_raw(i).unwrap();
        packed.push(drain(file.reader_mut()));
        archive.give_back(file);
    }
    assert!(matcher.path_ready("a/b.txt").is_none());
    assert!(matcher.compressed("c.txt", packed[1].clone()).is_none());
    assert!(!matcher.finished());
    let first = matcher.compressed("a/b.txt", packed[0].clone()).unwrap();
    let second = matcher.path_ready("c.txt").unwrap();
    assert!(matcher.finished());
    let entries = archive.shared().contiguous_entries();
    assert_eq!(unpack_entry(&entries[0], first).unwrap().unwrap(), b"hello\n");
    assert_eq!(unpack_entry(&entries[1], second.clone()).unwrap().unwrap(), b"hey\n");
    assert!(unpack_entry(&entries[0], second).is_err());
    let plan = plan_entry(&entries[0]).unwrap();
    assert_eq!((plan.path.as_str(), plan.is_dir, plan.mode), ("a/b.txt", false, Some(0o100644)));
}

#[test]
fn extraction_one_by_one() {
    let options = FileOptions::default();
    let mut zip = ZipWriter::new(Cursor::new(Vec::new()));
    zip.add_directory("a", options).unwrap();
    zip.start_file("a/b.txt", options).unwrap();
    zip.write_all(b"hello\n").unwrap();
    zip.start_file("/etc", options).unwrap();
    let mut archive = zip.finish_into_readable().unwrap();
    let (plan, contents) = extract_entry(&mut archive, 0).unwrap();
    assert_eq!((plan.path.as_str(), plan.is_dir, plan.mode), ("a/", true, Some(0o40755)));
    assert!(contents.is_none());
    let (plan, contents) = extract_entry(&mut archive, 1).unwrap();
    assert_eq!((plan.path.as_str(), plan.is_dir), ("a/b.txt", false));
    assert_eq!(contents.unwrap(), b"hello\n");
    assert!(matches!(
        extract_entry(&mut archive, 2),
        Err(ZipError::InvalidArchive("Invalid file path"))
    ));
    assert!(scan_entry(&mut archive, 0).unwrap().is_none());
    let packed = scan_entry(&mut archive, 1).unwrap().unwrap();
    let data = archive.shared().contiguous_entries()[1].clone();
    assert_eq!(packed.len() as u64, data.compressed_size);
    assert_eq!(unpack_entry(&data, packed).unwrap().unwrap(), b"hello\n");
    assert!(scan_entry(&mut archive, 2).is_err());
}

#[test]
fn extraction_stops_when_nothing_more_comes() {
    let mut zip = ZipWriter::new(Cursor::new(Vec::new()));
    zip.add_directory("dir", FileOptions::default()).unwrap();
    let archive = zip.finish_into_readable().unwrap();
    let mut matcher = Matcher::new(archive.shared()).unwrap();
    assert!(matcher.path_ready("dir/").is_none());
    matcher.paths_done();
    assert!(!matcher.finished());
    matcher.compressed_done();
    assert!(matcher.finished());
}

#[test]
fn extraction_does_not_lead_out() {
    let archive = one_file("../a", b"1", FileOptions::default());
    assert!(matches!(
        Matcher::new(archive.shared()),
        Err(ZipError::InvalidArchive("Invalid file path"))
    ));
    assert!(plan_entry(&archive.shared().contiguous_entries()[0]).is_err());
}

#[test]
fn limited_streams() {
    let mut buf = Limiter::take(Cursor::new(Vec::new()), 4);
    assert_eq!(buf.write(b"hello\n"), 4);
    assert_eq!(buf.write(b"hello\n"), 0);
    let mut buf = buf.unwrap_inner_pin();
    buf.seek_start(0);
    let mut limited = Limiter::take(buf, 2);
    assert_eq!(limited.read(10), b"he");
    assert_eq!(limited.read(10), b"");
    assert_eq!(limited.full_length(), 2);
}

#[test]
fn buffered_reads() {
    let mut r = BufReader::with_capacity(4, Cursor::new(b"hello world".to_vec()));
    assert_eq!(r.capacity(), 4);
    assert_eq!(r.read(2), b"he");
    assert_eq!(r.buffer(), b"ll");
    assert_eq!(r.read(10), b"ll");
    assert_eq!(r.read(10), b"o world");
    assert_eq!(r.read(10), b"");
}

#[test]
fn buffered_writes() {
    let mut w = BufWriter::with_capacity(4, Cursor::new(Vec::new()));
    let data = b"hello world";
    let mut at = 0;
    while at < data.len() {
        at += w.write(NonEmptyReadSlice::new(&data[at..]).unwrap());
    }
    w.flush();
    assert_eq!(w.into_inner().into_inner(), data);
    assert!(NonEmptyReadSlice::<u8>::new(&[]).is_none());
    let mut room = [0u8; 3];
    let mut slice = NonEmptyWriteSlice::new(&mut room).unwrap();
    assert_eq!(slice.copy_from_slice(NonEmptyReadSlice::new(data).unwrap()), 3);
    assert_eq!(&room, b"hel");
}

#[test]
fn ring_leases() {
    let mut ring = Ring::with_capacity(10);
    assert!(matches!(ring.request_read_lease_strong(1), Lease::NoSpace));

    let mut write_lease = ring.request_write_lease_strong(5).option().unwrap();
    write_lease.copy_from_slice(b"world");
    ring.return_write_lease(write_lease);

    let read_lease = ring.request_read_lease_strong(5).option().unwrap();
    assert_eq!(read_lease.as_ref(), b"world");
    ring.return_read_lease(read_lease);

    let mut write_lease = ring.request_write_lease_strong(6).option().unwrap();
    assert_eq!(5, write_lease.len());
    write_lease.copy_from_slice(b"hello");
    ring.return_write_lease(write_lease);

    let read_lease = ring.request_read_lease_strong(4).option().unwrap();
    assert_eq!(read_lease.as_ref(), b"hell");
    ring.return_read_lease(read_lease);

    let mut write_lease = ring.request_write_lease_strong(2).option().unwrap();
    write_lease.copy_from_slice(b"k!");
    ring.return_write_lease(write_lease);

    let mut buf = Vec::new();
    let read_lease = ring.request_read_lease_strong(3).option().unwrap();
    assert_eq!(1, read_lease.len());
    buf.extend_from_slice(read_lease.as_ref());
    ring.return_read_lease(read_lease);

    let read_lease = ring.request_read_lease_strong(3).option().unwrap();
    assert_eq!(2, read_lease.len());
    buf.extend_from_slice(read_lease.as_ref());
    ring.return_read_lease(read_lease);

    assert_eq!(buf, b"ok!");
    assert!(matches!(ring.request_read_lease_strong(1), Lease::NoSpace));
}

#[test]
fn ring_leases_are_truncated() {
    let msg = b"hello world";
    let mut ring = Ring::with_capacity(30);
    let mut buf = Vec::new();

    let mut write_lease = ring.request_write_lease_strong(5).option().unwrap();
    write_lease.copy_from_slice(&msg[..5]);
    write_lease.truncate(4);
    assert_eq!(4, write_lease.len());
    ring.return_write_lease(write_lease);

    let mut read_lease = ring.request_read_lease_strong(5).option().unwrap();
    assert_eq!(4, read_lease.len());
    read_lease.truncate(1);
    buf.extend_from_slice(read_lease.as_ref());
    assert_eq!(1, buf.len());
    assert_eq!(1, read_lease.len());
    ring.return_read_lease(read_lease);

    let mut write_lease = ring.request_write_lease_strong(msg.len() - 4).option().unwrap();
    write_lease.copy_from_slice(&msg[4..]);
    ring.return_write_lease(write_lease);

    let read_lease = ring.request_read_lease_strong(msg.len() - 1).option().unwrap();
    assert_eq!(read_lease.len(), msg.len() - 1);
    buf.extend_from_slice(read_lease.as_ref());
    ring.return_read_lease(read_lease);
    assert_eq!(msg, buf.as_slice());
}

#[test]
fn one_permit_at_a_time() {
    assert_eq!(PermitState::default().to_u8(), PermitState::Unleashed.to_u8());
    for state in [PermitState::Unleashed, PermitState::TakenOut] {
        assert_eq!(PermitState::from_u8(state.to_u8()), Some(state));
    }
    assert_eq!(PermitState::from_u8(2), None);
    let mut state = PermitState::Unleashed;
    assert!(LeaseBehavior::NoSpuriousFailures.try_acquire_lease(&mut state));
    assert!(!LeaseBehavior::AllowSpuriousFailures.try_acquire_lease(&mut state));

    let mut ring = Ring::with_capacity(10);
    let permit = ring.request_write_lease_weak(4).option().unwrap();
    assert!(matches!(ring.request_write_lease_weak(4), Lease::PossiblyTaken));
    assert!(matches!(ring.request_read_lease_weak(4), Lease::NoSpace));
    ring.return_write_lease(permit);
    assert_eq!(ring.request_read_lease_weak(9).option().unwrap().len(), 4);
}

#[test]
fn ring_wakes_those_who_wait() {
    let mut free = RingFreeList::new();
    let mut ring: RingFuturized<&str> = RingFuturized::new(&mut free);
    assert!(matches!(ring.poll_read("reader", 5), Poll::Pending));
    let mut write_lease = match ring.poll_write("writer", 20) {
        Poll::Ready(lease) => lease,
        Poll::Pending => panic!("there is room"),
    };
    assert_eq!(write_lease.as_ref().len(), 20);
    write_lease.truncate(5);
    write_lease.copy_from_slice(b"hello");
    assert_eq!(ring.return_write(write_lease), vec!["reader"]);
    match ring.poll_read("reader", 5) {
        Poll::Ready(lease) => {
            assert_eq!(lease.as_ref().as_ref(), b"hello");
            ring.return_read(lease);
        }
        Poll::Pending => panic!("there are bytes"),
    }
    ring.close(&mut free);

    // a ring that was used before is as good as new
    let mut ring: RingFuturized<&str> = RingFuturized::new(&mut free);
    assert_eq!(ring.capacity(), 8 * 1024);
    assert!(matches!(ring.poll_read("reader", 1), Poll::Pending));
    match ring.poll_write("writer", 10_000) {
        Poll::Ready(lease) => assert_eq!(lease.as_ref().len(), 8 * 1024),
        Poll::Pending => panic!("there is room"),
    }
}

#[test]
fn pushed_values_come_out_in_order() {
    let mut p = Pusher::new();
    p.push(1);
    p.push(2);
    assert_eq!(p.extract(), vec![1, 2]);
    assert_eq!(p.take_owned().len(), 0);
}

fn read_through<O: Ops>(codec: O, data: &[u8], room: usize) -> Result<Vec<u8>, String> {
    let mut reader = Reader::with_state(codec, BufReader::new(Cursor::new(data.to_vec())));
    let mut all = Vec::new();
    loop {
        let (out, next) = reader.try_read(room);
        all.extend_from_slice(&out);
        match next {
            Err(e) => return Err(e.message()),
            Ok(Next::Again) => {}
            Ok(Next::Done(())) => {
                if out.is_empty() {
                    return Ok(all);
                }
            }
        }
    }
}

fn write_through<O: Ops>(codec: O, data: &[u8], capacity: usize) -> Result<Vec<u8>, String> {
    let inner = BufWriter::with_capacity(capacity, Cursor::new(Vec::new()));
    let mut writer = Writer::with_state(codec, inner);
    let mut at = 0;
    while at < data.len() {
        match writer.try_write(NonEmptyReadSlice::new(&data[at..]).unwrap()) {
            None => writer.get_mut().flush(),
            Some(Err(e)) => return Err(e.message()),
            Some(Ok(Next::Again)) => {}
            Some(Ok(Next::Done(n))) => at += n,
        }
    }
    for (flush, once) in
        [(FlushKind::Sync, true), (FlushKind::Free, false), (FlushKind::Finish, false)]
    {
        loop {
            match writer.try_drain(flush) {
                None => writer.get_mut().flush(),
                Some(Err(e)) => return Err(e.message()),
                Some(Ok(Next::Again)) => {
                    if once {
                        break;
                    }
                }
                Some(Ok(Next::Done(()))) => break,
            }
        }
    }
    writer.get_mut().flush();
    Ok(writer.unwrap_inner_pin().into_inner().into_inner())
}

#[test]
fn deflate_while_reading() {
    for room in [1, 4, 100] {
        assert_eq!(
            read_through(Compressor::new(6), b"hello", room).unwrap(),
            vec![203, 72, 205, 201, 201, 7, 0]
        );
        assert_eq!(
            read_through(Decompressor::new(), &[203, 72, 205, 201, 201, 7, 0], room).unwrap(),
            b"hello"
        );
    }
}

#[test]
fn deflate_while_writing() {
    assert_eq!(
        write_through(Compressor::new(6), b"hello", 100).unwrap(),
        vec![202, 72, 205, 201, 201, 7, 0, 0, 0, 255, 255, 3, 0]
    );
    assert_eq!(
        write_through(
            Decompressor::new(),
            &[202, 72, 205, 201, 201, 231, 2, 0, 0, 0, 255, 255, 3, 0],
            100
        )
        .unwrap(),
        b"hello\n"
    );
}

#[test]
fn levels_of_step_by_step_compression() {
    let data = [b'a'; 300];
    let best = read_through(Compressor::new(9), &data, 100).unwrap();
    let none = read_through(Compressor::new(0), &data, 100).unwrap();
    assert!(best.len() < 20);
    assert_eq!(none.len(), 305);
    for packed in [best, none] {
        assert_eq!(read_through(Decompressor::new(), &packed, 7).unwrap(), data);
    }
}

#[test]
fn corrupt_deflate_streams() {
    assert_eq!(
        read_through(Decompressor::new(), &[0xff, 0xff, 0xff], 10).unwrap_err(),
        "corrupt read stream(deflate decompression error)"
    );
    assert_eq!(
        write_through(Decompressor::new(), &[0xff, 0xff, 0xff], 10).unwrap_err(),
        "corrupt write stream(deflate decompression error)/1"
    );
}

#[test]
fn plain_generator() {
    let mut zip = zip::writer::ZipWriter::new(Cursor::new(Vec::new()));
    assert!(zip.write(b"nothing").is_err());
    for (name, method) in [
        ("stored", CompressionMethod::Stored),
        ("deflated", CompressionMethod::Deflated),
        ("bzip2", CompressionMethod::Bzip2),
    ] {
        zip.start_file(name, method).unwrap();
        zip.write(b"Hello, World!").unwrap();
    }
    let archive = zip::ZipArchive::new(zip.finish().unwrap()).unwrap();
    assert_eq!(archive.comment(), b"zip-rs");
    for i in 0..3 {
        let mut file = archive.by_index(i).unwrap();
        assert_eq!(file.version_made_by(), (25, 5));
        assert_eq!(file.read_to_end().unwrap(), b"Hello, World!");
    }
    let mut zip = zip::writer::ZipWriter::new(Cursor::new(Vec::new()));
    assert!(matches!(
        zip.start_file("zstd", CompressionMethod::Zstd),
        Err(ZipError::UnsupportedArchive("Unsupported compression"))
    ));
    assert!(matches!(
        zip.write(b"lost"),
        Err(ZipError::Io(IoError::Simple(ErrorKind::BrokenPipe, _)))
    ));
    let mut zip = zip::writer::ZipWriter::new(Cursor::new(Vec::new()));
    zip.flush().unwrap();
    assert!(zip.start_file("late", CompressionMethod::Stored).is_err());
}

#[test]
fn buffered_readers_are_unwrapped() {
    let mut reader = BufReader::new(Cursor::new(b"0123456789".to_vec()));
    assert_eq!(reader.capacity(), 8 * 1024);
    assert!(reader.buffer().is_empty());
    assert_eq!(reader.read(4), b"0123");
    assert_eq!(reader.buffer(), b"456789");
    assert_eq!(reader.unwrap_inner_pin().stream_position(), 10);

    let reader = BufReader::with_capacity(3, Cursor::new(b"0123456789".to_vec()));
    let inner = reader.unwrap_inner_pin();
    assert_eq!(inner.stream_position(), 0);
    assert_eq!(inner.get_ref(), b"0123456789");

    let mut reader = BufReader::with_capacity(3, Cursor::new(b"0123456789".to_vec()));
    assert_eq!(reader.read(1), b"0");
    assert_eq!(reader.read_all(), b"123456789");
}

fn entry_of(method: CompressionMethod) -> zip::types::ZipFileData {
    let options = FileOptions::default().compression_method(method);
    let mut zip = ZipWriter::new(Cursor::new(Vec::new()));
    zip.start_file("a", options).unwrap();
    zip.write_all(b"abcdef").unwrap();
    zip.finish_into_readable().unwrap().shared().contiguous_entries()[0].clone()
}

#[test]
fn contents_are_read_as_they_are_asked_for() {
    let data = entry_of(CompressionMethod::Stored);
    let stream = Cursor::new(b"abcdefghi".to_vec());
    let mut reader = ZipFileWrappedReader::construct(&data, Limiter::take(stream, 6));
    assert_eq!(reader.read(0).unwrap(), b"");
    assert_eq!(reader.read(4).unwrap(), b"abcd");
    let mut stream = reader.unwrap_inner_pin();
    assert_eq!(stream.stream_position(), 4);

    // the rest alone has another checksum
    let mut reader =
        ZipFileWrappedReader::construct(&data, Limiter::take(Cursor::new(stream.read(2)), 2));
    assert_eq!(reader.read(9).unwrap(), b"ef");
    assert!(reader.read(9).is_err());

    // nothing is taken from the stream before the first read
    let data = entry_of(CompressionMethod::Deflated);
    let reader =
        ZipFileWrappedReader::construct(&data, Limiter::take(Cursor::new(vec![3, 0]), 2));
    assert_eq!(reader.unwrap_inner_pin().stream_position(), 0);
}

#[test]
fn corrupt_contents_begin_well() {
    // a block that is stored, and then one of a kind that there is not
    let contents: Vec<u8> = (0..65535u32).map(|i| (i * 7 % 251) as u8).collect();
    let mut packed = vec![0, 0xff, 0xff, 0, 0];
    packed.extend_from_slice(&contents);
    packed.push(7);
    let n = packed.len();
    let data = entry_of(CompressionMethod::Deflated);

    let limited = Limiter::take(Cursor::new(packed.clone()), n);
    let mut reader = ZipFileWrappedReader::construct(&data, limited);
    let mut seen = Vec::new();
    let failure = loop {
        match reader.read(1000) {
            Ok(out) => {
                assert!(!out.is_empty());
                seen.extend_from_slice(&out);
            }
            Err(e) => {
                break e;
            }
        }
    };
    assert!(seen.len() > 32000);
    assert_eq!(seen, contents[..seen.len()]);
    let expected = IoError::Simple(
        ErrorKind::InvalidInput,
        "corrupt read stream(deflate decompression error)",
    );
    assert!(matches!(failure, ZipError::Io(e) if e == expected));

    // the stream is taken in pieces
    let limited = Limiter::take(Cursor::new(packed.clone()), n);
    let mut reader = ZipFileWrappedReader::construct(&data, limited);
    assert_eq!(reader.read(10).unwrap(), contents[..10]);
    assert_eq!(reader.unwrap_inner_pin().stream_position(), 32768);

    // at once, there is nothing but the failure
    let limited = Limiter::take(Cursor::new(packed), n);
    let mut reader = ZipFileWrappedReader::construct(&data, limited);
    assert!(matches!(reader.read_to_end(), Err(ZipError::Io(e)) if e == expected));
}

#[test]
fn long_contents_are_read_in_pieces() {
    let options = FileOptions::default().compression_method(CompressionMethod::Deflated);
    let contents: Vec<u8> = (0..200_000u32).map(|i| (i.wrapping_mul(i) >> 7) as u8).collect();
    let mut zip = ZipWriter::new(Cursor::new(Vec::new()));
    zip.start_file("a", options).unwrap();
    zip.write_all(&contents).unwrap();
    let mut archive = zip.finish_into_readable().unwrap();
    let mut file = archive.by_name("a").unwrap();
    let mut seen = file.reader_mut().read(70_000).unwrap();
    assert!(!seen.is_empty());
    seen.extend_from_slice(&file.reader_mut().read(3).unwrap());
    seen.extend_from_slice(&file.reader_mut().read_to_end().unwrap());
    assert_eq!(seen, contents);
    // and once more at the end
    assert_eq!(file.reader_mut().read(5).unwrap(), b"");
    archive.give_back(file);
    assert_eq!(read_by_name(&mut archive, "a").unwrap(), contents);
}

#[test]
fn flushes_and_shutdowns_go_step_by_step() {
    let inner = BufWriter::with_capacity(100, Cursor::new(Vec::new()));
    let mut writer = Writer::with_state(Compressor::new(6), inner);
    let data = NonEmptyReadSlice::new(b"hello").unwrap();
    assert!(matches!(writer.try_write(data), Some(Ok(Next::Done(5)))));
    // a flush takes a step of its own first
    assert!(matches!(writer.drain_next(Drain::Sync), Some(Ok(Drain::Free))));
    assert!(matches!(writer.drain_next(Drain::Free), Some(Ok(Drain::Drained))));
    writer.get_mut().flush();
    let out = writer.get_ref().get_ref().get_ref().clone();
    assert_eq!(out, vec![202, 72, 205, 201, 201, 7, 0, 0, 0, 255, 255]);
    assert!(matches!(writer.drain_next(Drain::Finish), Some(Ok(Drain::Finish))));
    assert!(matches!(writer.drain_next(Drain::Finish), Some(Ok(Drain::Drained))));
    writer.get_mut().flush();
    let out = writer.unwrap_inner_pin().into_inner().into_inner();
    assert_eq!(out[11..], [3, 0]);

    // what is buffered is in the way
    let inner = BufWriter::with_capacity(1, Cursor::new(Vec::new()));
    let mut writer = Writer::with_state(Compressor::new(6), inner);
    assert!(matches!(writer.try_write(data), Some(Ok(Next::Done(5)))));
    assert!(matches!(writer.drain_next(Drain::Sync), Some(Ok(Drain::Free))));
    assert!(writer.drain_next(Drain::Free).is_none());

    assert_eq!(Drain::Drained.towards(Drain::Sync), Drain::Sync);
    assert_eq!(Drain::Free.towards(Drain::Sync), Drain::Free);
    assert_eq!(Drain::Free.towards(Drain::Finish), Drain::Finish);
}

#[test]
fn streamed_files_are_flushed() {
    let options = FileOptions::default().compression_method(CompressionMethod::Deflated);
    let mut zip = ZipWriter::new(Cursor::new(Vec::new()));
    zip.flush().unwrap();
    zip.start_file("a", options).unwrap();
    let start = zip.get_ref().len();
    zip.write_all(b"hello").unwrap();
    assert_eq!(zip.get_ref().len(), start);
    zip.flush().unwrap();
    assert_eq!(
        zip.get_ref()[start..],
        [202, 72, 205, 201, 201, 7, 0, 0, 0, 255, 255]
    );
    zip.write_all(b" there").unwrap();
    zip.flush().unwrap();
    zip.flush().unwrap();
    let mut archive = zip.finish_into_readable().unwrap();
    assert_eq!(read_by_name(&mut archive, "a").unwrap(), b"hello there");

    // what is stored as it is has arrived
    let options = FileOptions::default().compression_method(CompressionMethod::Stored);
    let mut zip = ZipWriter::new(Cursor::new(Vec::new()));
    zip.start_file("a", options).unwrap();
    zip.write_all(b"hello").unwrap();
    let before = zip.get_ref().clone();
    zip.flush().unwrap();
    assert_eq!(*zip.get_ref(), before);
}

#[test]
fn long_streamed_files_arrive_as_they_are_written() {
    let options = FileOptions::default().compression_method(CompressionMethod::Deflated);
    let mut noise: u32 = 1;
    let contents: Vec<u8> = (0..300_000u32)
        .map(|_| {
            noise = noise.wrapping_mul(1_664_525).wrapping_add(1_013_904_223);
            (noise >> 24) as u8
        })
        .collect();
    let mut zip = ZipWriter::new(Cursor::new(Vec::new()));
    zip.start_file("a", options).unwrap();
    let start = zip.get_ref().len();
    zip.write_all(&contents[..200_000]).unwrap();
    let before = zip.get_ref().len();
    // the buffer is written out whenever it is full
    assert!(before > start);
    assert_eq!((before - start) % 8192, 0);
    zip.flush().unwrap();
    assert!(zip.get_ref().len() > start + 200_000);
    zip.write_all(&contents[200_000..]).unwrap();
    let mut archive = zip.finish_into_readable().unwrap();
    assert_eq!(read_by_name(&mut archive, "a").unwrap(), contents);
}
