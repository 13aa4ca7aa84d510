//! Archives to try things out on.
use vstd::prelude::*;

use crate::compression::CompressionMethod;
use crate::entries::begun_entry_says;
use crate::format::decimal;
use crate::result::{ZipError, ZipResult};
use crate::stream::{vec_fits, Cursor, StreamState};
use crate::text::decimal_padded;
use crate::types::S_IFREG;
use crate::write::{no_raw_values, FileOptions, Step, WriterState, ZipWriter};

verus! {

/// The failures of `getrandom`.
#[verifier::external_type_specification]
#[verifier::external_body]
pub struct ExGetrandomError(getrandom::Error);

/// `getrandom::getrandom`: fills the buffer with random bytes, of which there are
/// as many as before. An empty buffer is filled without asking the system. Nothing
/// is said of which bytes they are, nor of when else there are none to be had: both
/// are up to the system.
#[verifier::external_body]
fn fill_random(buf: &mut Vec<u8>) -> (r: Result<(), getrandom::Error>)
    ensures
        final(buf)@.len() == old(buf)@.len(),
        old(buf)@.len() == 0 ==> r is Ok,
{
    getrandom::getrandom(buf.as_mut_slice())
}

/// The name of an entry.
pub open spec fn entry_name(i: nat) -> Seq<char> {
    "random"@ + decimal(i) + ".dat"@
}

/// The contents of several entries.
pub open spec fn all_contents(contents: Seq<Vec<u8>>) -> Seq<Seq<u8>> {
    contents.map_values(|bytes: Vec<u8>| bytes@)
}

/// An archive to which entries with the given contents are written, with numbers
/// for names.
pub open spec fn entries_written(
    w: WriterState,
    options: FileOptions,
    contents: Seq<Seq<u8>>,
) -> Step<()>
    decreases contents.len(),
{
    if contents.len() == 0 {
        (w, Ok(()))
    } else {
        match entries_written(w, options, contents.drop_last()) {
            (w, Err(e)) => (w, Err(e)),
            (w, Ok(_)) => entry_written(
                w,
                entry_name((contents.len() - 1) as nat),
                options,
                contents.last(),
            ),
        }
    }
}

/// An archive to which an entry with the given contents is written.
pub open spec fn entry_written(
    w: WriterState,
    name: Seq<char>,
    options: FileOptions,
    contents: Seq<u8>,
) -> Step<()> {
    match w.file_started(name, options) {
        (w, Err(e)) => (w, Err(e)),
        (w, Ok(_)) => if contents.len() == 0 {
            (w, Ok(()))
        } else {
            match w.data_written(contents) {
                (w, Err(e)) => (w, Err(e)),
                (w, Ok(_)) => (w, Ok(())),
            }
        },
    }
}

/// An archive of entries with the given contents, and nothing else.
pub open spec fn numbered_archive(options: FileOptions, contents: Seq<Seq<u8>>) -> ZipResult<
    StreamState,
> {
    let empty = StreamState { bytes: Seq::empty(), pos: 0 };
    match entries_written(WriterState::fresh(empty), options, contents) {
        (_, Err(e)) => Err(e),
        (w, Ok(_)) => match w.finalized() {
            (_, Err(e)) => Err(e),
            (w, Ok(_)) => Ok(w.sink.stream()),
        },
    }
}

/// Once an entry fails, no more are written.
proof fn failures_stay(w: WriterState, options: FileOptions, contents: Seq<Seq<u8>>, i: int)
    requires
        0 <= i <= contents.len(),
        entries_written(w, options, contents.take(i)).1 is Err,
    ensures
        entries_written(w, options, contents) == entries_written(w, options, contents.take(i)),
    decreases contents.len() - i,
{
    if i == contents.len() {
        assert(contents.take(i) =~= contents);
    } else {
        assert(contents.take(i + 1).drop_last() =~= contents.take(i));
        failures_stay(w, options, contents, i + 1);
    }
}

/// The name of an entry.
fn name_entry(i: usize) -> (name: String)
    ensures
        name@ == entry_name(i as nat),
{
    let mut name = "random".to_owned();
    name.append(decimal_padded(i as u64, 1).as_str());
    name.append(".dat");
    name
}

/// What is made of options with a time that there is: files of a regular kind.
pub open spec fn as_written(options: FileOptions) -> FileOptions {
    FileOptions {
        permissions: Some(
            (match options.permissions {
                Some(mode) => mode,
                None => 0o644u32,
            }) | S_IFREG,
        ),
        ..options
    }
}

/// Writes an archive of entries with the given contents. Their time must be one
/// that there is.
pub fn write_numbered(options: FileOptions, contents: &Vec<Vec<u8>>) -> (r: ZipResult<Cursor>)
    requires
        options.last_modified_time@.in_bounds(),
    ensures
        match r {
            Ok(stream) => numbered_archive(as_written(options), all_contents(contents@)) == Ok::<
                StreamState,
                ZipError,
            >(stream@),
            Err(e) => numbered_archive(as_written(options), all_contents(contents@)) == Err::<
                StreamState,
                ZipError,
            >(e),
        },
{
    let ghost all = all_contents(contents@);
    let ghost made = as_written(options);
    let out = Cursor::new(Vec::new());
    let ghost empty = StreamState { bytes: Seq::empty(), pos: 0 };
    assert(out@ =~= empty);
    let mut zip = ZipWriter::new(out);
    let mut i: usize = 0;
    let ghost begun = zip@;
    assert(all.take(0) =~= Seq::empty());
    while i < contents.len()
        invariant
            i <= contents.len(),
            all == all_contents(contents@),
            begun == WriterState::fresh(empty),
            empty == (StreamState { bytes: Seq::empty(), pos: 0 }),
            options.last_modified_time@.in_bounds(),
            made == as_written(options),
            zip@.wf(),
            entries_written(begun, made, all.take(i as int)) == (
                zip@,
                Ok::<(), ZipError>(()),
            ),
        decreases contents.len() - i,
    {
        proof {
            assert(all.take(i + 1).drop_last() =~= all.take(i as int));
            assert(all.take(i + 1).last() == contents@[i as int]@);
        }
        let name = name_entry(i);
        let ghost before = zip@;
        match zip.start_file(name.as_str(), options) {
            Err(e) => {
                proof {
                    failures_stay(begun, made, all, i + 1);
                }
                return Err(e);
            },
            Ok(()) => {},
        }
        proof {
            vec_fits(contents[i as int]);
        }
        match zip.write_all(contents[i].as_slice()) {
            Err(e) => {
                proof {
                    failures_stay(begun, made, all, i + 1);
                }
                return Err(e);
            },
            Ok(()) => {},
        }
        i += 1;
    }
    assert(all.take(all.len() as int) =~= all);
    zip.finish()
}

/// Writes an archive of so many entries, each with so many random bytes for
/// contents; `None`, if the system has no random bytes to give, where any are needed.
pub fn generate_random_archive(num_entries: usize, entry_size: usize) -> (r: Option<
    ZipResult<Cursor>,
>)
    ensures
        num_entries == 0 || entry_size == 0 ==> r is Some,
        r matches Some(r) ==> exists|options: FileOptions, contents: Seq<Seq<u8>>|
            {
                &&& options.compression_method == CompressionMethod::Stored
                &&& options.compression_level is None
                &&& options.permissions == Some(0o644u32 | S_IFREG)
                &&& !options.large_file
                &&& options.last_modified_time@.in_bounds()
                &&& contents.len() == num_entries
                &&& forall|i: int|
                    0 <= i < contents.len() ==> (#[trigger] contents[i]).len() == entry_size
                &&& match r {
                    Ok(stream) => #[trigger] numbered_archive(options, contents) == Ok::<
                        StreamState,
                        ZipError,
                    >(stream@),
                    Err(e) => numbered_archive(options, contents) == Err::<StreamState, ZipError>(
                        e,
                    ),
                }
            },
{
    // No point compressing random entries.
    let options = FileOptions::default().compression_method(CompressionMethod::Stored);
    let mut contents: Vec<Vec<u8>> = Vec::new();
    let mut i: usize = 0;
    while i < num_entries
        invariant
            i <= num_entries,
            contents@.len() == i,
            forall|k: int| 0 <= k < i ==> (#[trigger] contents@[k])@.len() == entry_size,
        decreases num_entries - i,
    {
        let mut bytes: Vec<u8> = vec![0u8; entry_size];
        if fill_random(&mut bytes).is_err() {
            return None;
        }
        contents.push(bytes);
        i += 1;
    }
    let r = write_numbered(options, &contents);
    assert(as_written(options).permissions == Some(0o644u32 | S_IFREG));
    assert(all_contents(contents@).len() == num_entries);
    Some(r)
}

/// The entries of an archive that is written with numbers for names are as many as contents were
/// given, and each has its number in its name.
pub proof fn numbered_entries_say(options: FileOptions, contents: Seq<Seq<u8>>, stream: StreamState)
    requires
        entries_written(WriterState::fresh(stream), options, contents).1 is Ok,
    ensures
        ({
            let w = entries_written(WriterState::fresh(stream), options, contents).0;
            &&& w.files.len() == contents.len()
            &&& w.comment.len() == 0
            &&& !w.writing_to_extra_field
            &&& forall|i: int|
                0 <= i < contents.len() ==> (#[trigger] w.files[i]).file_name == entry_name(
                    i as nat,
                ) && w.files[i].compression_method == options.compression_method
                    && w.files[i].last_modified_time == options.last_modified_time@
            &&& contents.len() > 0 ==> w.contents == contents.last()
        }),
    decreases contents.len(),
{
    if contents.len() > 0 {
        let fewer = contents.drop_last();
        numbered_entries_say(options, fewer, stream);
        let w = entries_written(WriterState::fresh(stream), options, fewer).0;
        let name = entry_name((contents.len() - 1) as nat);
        let started = w.file_started(name, options).0;
        begun_entry_says(w, name, options, no_raw_values());
        let ended = w.finished().0;
        let next = entries_written(WriterState::fresh(stream), options, contents).0;
        assert(next.files == started.files);
        assert forall|i: int| 0 <= i < contents.len() implies (#[trigger] next.files[i]).file_name
            == entry_name(i as nat) && next.files[i].compression_method
            == options.compression_method && next.files[i].last_modified_time
            == options.last_modified_time@ by {
            if i < fewer.len() {
                assert(next.files.drop_last()[i] == next.files[i]);
                assert(ended.files[i].file_name == w.files[i].file_name);
            } else {
                assert(next.files[i] == next.files.last());
            }
        }
        assert(Seq::<u8>::empty() + contents.last() =~= contents.last());
        if contents.last().len() == 0 {
            assert(next.contents =~= contents.last());
        }
    }
}

} // verus!
