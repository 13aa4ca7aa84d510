//! What is to be done to extract an archive.
use vstd::hash_map::StringHashMap;
use vstd::prelude::*;

use crate::crc32::crc32_of;
use crate::path::{
    is_enclosed, joined, joined_pieces_part_again, pieces, pieces_make_the_path, split_path, views,
};
use crate::read::{data_start_at, limited, records};
use crate::result::{ZipError, ZipResult};
use crate::stream::{Cursor, Readable};
use crate::text::{chars_of, string_of};
use crate::tokio::combinators::Limiter;
use crate::tokio::index::Names;
use crate::tokio::read::{
    data_start_noted, drain, number_of, streamable, streamed_contents_of, ReaderWrapper, Shared,
    SharedData, ZipArchive, ZipFileWrappedReader,
};
use crate::types::{FileRecord, ZipFileData};

verus! {

/// Whether a path is that of a directory.
pub open spec fn names_dir(path: Seq<char>) -> bool {
    path.len() > 0 && path.last() == '/'
}

/// Whether a piece of a path leads anywhere.
pub open spec fn leads(piece: Seq<char>) -> bool {
    piece.len() > 0 && piece != seq!['.']
}

/// The pieces of a path that lead anywhere.
pub open spec fn components(all: Seq<Seq<char>>) -> Seq<Seq<char>>
    decreases all.len(),
{
    if all.len() == 0 {
        Seq::empty()
    } else if leads(all.last()) {
        components(all.drop_last()).push(all.last())
    } else {
        components(all.drop_last())
    }
}

/// The directories that a path lies in, the outermost first. A directory lies in
/// itself.
pub open spec fn dirs_of(path: Seq<char>) -> Seq<Seq<char>> {
    let all = components(pieces(path));
    let n: nat = if names_dir(path) {
        all.len()
    } else if all.len() == 0 {
        0
    } else {
        (all.len() - 1) as nat
    };
    Seq::new(n, |k: int| joined(all.take(k + 1)))
}

/// Each directory that a path lies in comes after the one that it is itself
/// directly in.
pub proof fn dirs_follow_their_parents(path: Seq<char>, k: int)
    requires
        0 <= k,
        k + 1 < dirs_of(path).len(),
    ensures
        dirs_of(path)[k + 1] == dirs_of(path)[k].push('/') + components(pieces(path))[k + 1],
{
    let all = components(pieces(path));
    assert(all.take(k + 2).drop_last() =~= all.take(k + 1));
}

/// Whether a piece of a path leads anywhere.
fn leads_anywhere(piece: &Vec<char>) -> (r: bool)
    ensures
        r == leads(piece@),
{
    if piece.len() == 1 && piece[0] == '.' {
        assert(piece@ =~= seq!['.']);
        false
    } else {
        assert(piece@ == seq!['.'] ==> piece@.len() == 1 && piece@[0] == '.');
        piece.len() > 0
    }
}

/// The strings of a vector.
pub open spec fn texts(v: Seq<String>) -> Seq<Seq<char>> {
    v.map_values(|s: String| s@)
}

/// The directories that are known to be there.
pub struct CompletedPaths {
    seen: StringHashMap<()>,
}

impl CompletedPaths {
    /// The directories that are known to be there.
    pub closed spec fn view(&self) -> Set<Seq<char>> {
        self.seen@.dom()
    }

    /// None yet.
    pub fn new() -> (r: Self)
        ensures
            r@ == Set::<Seq<char>>::empty(),
    {
        let r = CompletedPaths { seen: StringHashMap::new() };
        assert(r@ =~= Set::empty());
        r
    }

    /// Whether a path is that of a directory.
    pub fn is_dir(path: &str) -> (r: bool)
        ensures
            r == names_dir(path@),
    {
        let chars = chars_of(path);
        chars.len() > 0 && chars[chars.len() - 1] == '/'
    }

    /// Whether a directory is known to be there.
    pub fn contains(&self, dir: &str) -> (r: bool)
        ensures
            r == self@.contains(dir@),
    {
        self.seen.contains_key(dir)
    }

    /// Notes that a directory is there.
    pub fn confirm_dir(&mut self, dir: String)
        ensures
            final(self)@ == old(self)@.insert(dir@),
    {
        let ghost was = self@;
        let ghost name = dir@;
        self.seen.insert(dir, ());
        assert(self@ =~= was.insert(name));
    }

    /// The directories that a path lies in, the outermost first.
    pub fn containing_dirs(path: &str) -> (r: Vec<String>)
        ensures
            texts(r@) == dirs_of(path@),
    {
        let chars = chars_of(path);
        let all = split_path(chars.as_slice());
        let dir: bool = CompletedPaths::is_dir(path);
        let ghost whole = components(pieces(path@));
        let mut dirs: Vec<String> = Vec::new();
        let mut so_far: Vec<char> = Vec::new();
        let mut count: usize = 0;
        let mut i: usize = 0;
        assert(views(all@).take(0) =~= Seq::empty());
        while i < all.len()
            invariant
                i <= all.len(),
                views(all@) == pieces(path@),
                whole == components(pieces(path@)),
                count <= i,
                count == components(views(all@).take(i as int)).len(),
                so_far@ == joined(components(views(all@).take(i as int))),
                texts(dirs@) == Seq::new(
                    count as nat,
                    |k: int| joined(components(views(all@).take(i as int)).take(k + 1)),
                ),
            decreases all.len() - i,
        {
            let ghost before = components(views(all@).take(i as int));
            let ghost known = texts(dirs@);
            proof {
                assert(views(all@).take(i + 1).drop_last() =~= views(all@).take(i as int));
                assert(views(all@).take(i + 1).last() == all@[i as int]@);
            }
            if leads_anywhere(&all[i]) {
                let ghost after = before.push(all@[i as int]@);
                if count > 0 {
                    so_far.push('/');
                }
                let mut piece: Vec<char> = all[i].clone();
                assert(piece@ =~= all@[i as int]@);
                so_far.append(&mut piece);
                count += 1;
                proof {
                    assert(after.drop_last() =~= before);
                    if count == 1 {
                        assert(before =~= Seq::empty());
                        assert(so_far@ =~= after[0]);
                    }
                    assert(so_far@ == joined(after));
                }
                dirs.push(string_of(so_far.as_slice()));
                proof {
                    assert(after.take(count as int) =~= after);
                    assert(texts(dirs@) =~= known.push(joined(after)));
                    assert forall|k: int| 0 <= k < count - 1 implies #[trigger] known[k] == joined(
                        after.take(k + 1),
                    ) by {
                        assert(after.take(k + 1) =~= before.take(k + 1));
                    }
                    assert(texts(dirs@) =~= Seq::new(
                        count as nat,
                        |k: int| joined(after.take(k + 1)),
                    ));
                }
            }
            i += 1;
        }
        assert(views(all@).take(all.len() as int) =~= views(all@));
        if !dir && dirs.len() > 0 {
            let ghost known = texts(dirs@);
            dirs.pop();
            assert(texts(dirs@) =~= known.drop_last());
        }
        assert(texts(dirs@) =~= dirs_of(path@));
        dirs
    }

    /// The directories that a path lies in and that are not known to be there, the
    /// outermost first.
    pub fn new_containing_dirs_needed(&self, path: &str) -> (r: Vec<String>)
        ensures
            texts(r@) == dirs_of(path@).filter(|dir: Seq<char>| !self@.contains(dir)),
    {
        let all = CompletedPaths::containing_dirs(path);
        let ghost whole = texts(all@);
        let ghost missing = |dir: Seq<char>| !self@.contains(dir);
        let mut needed: Vec<String> = Vec::new();
        let mut i: usize = 0;
        reveal(Seq::filter);
        assert(whole.take(0).filter(missing) =~= Seq::empty());
        while i < all.len()
            invariant
                i <= all.len(),
                whole == texts(all@),
                missing == (|dir: Seq<char>| !self@.contains(dir)),
                texts(needed@) =~= whole.take(i as int).filter(missing),
            decreases all.len() - i,
        {
            reveal(Seq::filter);
            let ghost known = texts(needed@);
            proof {
                assert(whole.take(i + 1).drop_last() =~= whole.take(i as int));
                assert(whole.take(i + 1).last() == all@[i as int]@);
            }
            if !self.contains(all[i].as_str()) {
                needed.push(all[i].clone());
                assert(texts(needed@) =~= known.push(all@[i as int]@));
            }
            i += 1;
        }
        assert(whole.take(all.len() as int) =~= whole);
        needed
    }
}

/// What is to be made of an entry.
#[derive(Debug)]
pub struct Extraction {
    /// The path, from where the archive is extracted to.
    pub path: String,
    /// Whether a directory is to be made, and not a file.
    pub is_dir: bool,
    /// The permissions, if they are known.
    pub mode: Option<u32>,
}

/// Tells what is to be made of an entry. It must not lead out of where the archive
/// is extracted to.
pub fn plan_entry(data: &ZipFileData) -> (r: ZipResult<Extraction>)
    ensures
        match r {
            Ok(plan) => {
                &&& is_enclosed(data@.file_name)
                &&& plan.path@ == data@.file_name
                &&& plan.is_dir == names_dir(data@.file_name)
                &&& plan.mode == data@.unix_mode()
            },
            Err(e) => {
                &&& !is_enclosed(data@.file_name)
                &&& e == ZipError::InvalidArchive("Invalid file path")
            },
        },
{
    match data.enclosed_name() {
        None => Err(ZipError::InvalidArchive("Invalid file path")),
        Some(name) => Ok(
            Extraction {
                path: (*name).to_owned(),
                is_dir: CompletedPaths::is_dir(name),
                mode: data.unix_mode(),
            },
        ),
    }
}

/// What came of an entry so far: whether its directories are there, and the bytes
/// that are stored for it.
pub type Arrived = (bool, Option<Seq<u8>>);

/// What the directories of an entry being there leads to: the entry can be
/// unpacked, if the bytes that are stored for it came already.
pub open spec fn path_came(waiting: Map<Seq<char>, Arrived>, name: Seq<char>) -> (
    Map<Seq<char>, Arrived>,
    Option<Seq<u8>>,
) {
    match waiting[name].1 {
        Some(buf) => (waiting.remove(name), Some(buf)),
        None => (waiting.insert(name, (true, None)), None),
    }
}

/// What the bytes that are stored for an entry lead to: the entry can be
/// unpacked, if its directories are there already.
pub open spec fn compressed_came(
    waiting: Map<Seq<char>, Arrived>,
    name: Seq<char>,
    buf: Seq<u8>,
) -> (Map<Seq<char>, Arrived>, Option<Seq<u8>>) {
    if waiting[name].0 {
        (waiting.remove(name), Some(buf))
    } else {
        (waiting.insert(name, (false, Some(buf))), None)
    }
}

/// Whichever of the two comes first, once both have come the entry can be
/// unpacked from its own bytes, and is waited for no longer.
pub proof fn both_orders_meet(waiting: Map<Seq<char>, Arrived>, name: Seq<char>, buf: Seq<u8>)
    requires
        waiting.contains_key(name),
        waiting[name] == (false, None::<Seq<u8>>),
    ensures
        compressed_came(path_came(waiting, name).0, name, buf) == (waiting.remove(name), Some(buf)),
        path_came(compressed_came(waiting, name, buf).0, name) == (waiting.remove(name), Some(buf)),
        path_came(waiting, name).1 is None,
        compressed_came(waiting, name, buf).1 is None,
{
    assert(waiting.insert(name, (true, None::<Seq<u8>>)).remove(name) =~= waiting.remove(name));
    assert(waiting.insert(name, (false, Some(buf))).remove(name) =~= waiting.remove(name));
}

/// Matches the entries whose directories are there with the bytes that are stored
/// for them.
pub struct Matcher {
    remaining: Names,
    ready: Vec<bool>,
    bufs: Vec<Option<Vec<u8>>>,
    stopped_path: bool,
    stopped_compressed: bool,
}

/// What came of the entries whose numbers are given.
pub open spec fn arrived(
    remaining: Map<Seq<char>, usize>,
    ready: Seq<bool>,
    bufs: Seq<Option<Vec<u8>>>,
) -> Map<Seq<char>, Arrived> {
    remaining.map_values(
        |i: usize|
            (
                ready[i as int],
                match bufs[i as int] {
                    Some(buf) => Some(buf@),
                    None => None,
                },
            ),
    )
}

/// The files of an archive, when nothing came of them yet.
pub open spec fn none_arrived(files: Seq<FileRecord>) -> Map<Seq<char>, Arrived> {
    Map::new(
        |name: Seq<char>| exists|i: int| #[trigger] number_of(files, name, i),
        |name: Seq<char>| (false, None),
    )
}

impl Matcher {
    /// Whether each entry that is waited for has a number of its own.
    pub closed spec fn wf(&self) -> bool {
        &&& self.ready@.len() == self.bufs@.len()
        &&& forall|name: Seq<char>| #[trigger]
            self.remaining@.contains_key(name) ==> self.remaining@[name] < self.ready@.len()
        &&& forall|a: Seq<char>, b: Seq<char>|
            #![trigger self.remaining@[a], self.remaining@[b]]
            self.remaining@.contains_key(a) && self.remaining@.contains_key(b) && a != b
                ==> self.remaining@[a] != self.remaining@[b]
    }

    /// What came of each entry that is waited for.
    pub closed spec fn view(&self) -> Map<Seq<char>, Arrived> {
        arrived(self.remaining@, self.ready@, self.bufs@)
    }

    /// Whether no more directories, and no more bytes, will come.
    pub closed spec fn stopped(&self) -> (bool, bool) {
        (self.stopped_path, self.stopped_compressed)
    }

    /// Waits for every entry of an archive. None may lead out of where it is
    /// extracted to.
    pub fn new(shared: &Shared) -> (r: ZipResult<Matcher>)
        ensures
            match r {
                Ok(matcher) => {
                    &&& forall|i: int|
                        0 <= i < shared@.files.len() ==> is_enclosed(
                            (#[trigger] shared@.files[i]).file_name,
                        )
                    &&& matcher.wf()
                    &&& matcher@ == none_arrived(shared@.files)
                    &&& matcher.stopped() == (false, false)
                },
                Err(e) => {
                    &&& exists|i: int|
                        0 <= i < shared@.files.len() && !is_enclosed(
                            (#[trigger] shared@.files[i]).file_name,
                        )
                    &&& e == ZipError::InvalidArchive("Invalid file path")
                },
            },
    {
        let files = shared.contiguous_entries();
        let ghost all = shared@.files;
        let mut remaining = Names::with_capacity(files.len());
        let mut ready: Vec<bool> = Vec::new();
        let mut bufs: Vec<Option<Vec<u8>>> = Vec::new();
        let mut i: usize = 0;
        while i < files.len()
            invariant
                i <= files.len(),
                all == shared@.files,
                all == records(files@),
                ready@.len() == i,
                bufs@.len() == i,
                forall|j: int| 0 <= j < i ==> is_enclosed((#[trigger] all[j]).file_name),
                forall|j: int| 0 <= j < i ==> !#[trigger] ready@[j],
                forall|j: int| 0 <= j < i ==> (#[trigger] bufs@[j]) is None,
                forall|name: Seq<char>| #[trigger]
                    remaining@.contains_key(name) ==> remaining@[name] < i && number_of(
                        all,
                        name,
                        remaining@[name] as int,
                    ),
                forall|j: int| 0 <= j < i ==> remaining@.contains_key((#[trigger] all[j]).file_name),
            decreases files.len() - i,
        {
            assert(all[i as int] == files@[i as int]@);
            match files[i].enclosed_name() {
                None => {
                    return Err(ZipError::InvalidArchive("Invalid file path"));
                },
                Some(name) => {
                    remaining.insert((*name).to_owned(), i);
                },
            }
            ready.push(false);
            bufs.push(None);
            i += 1;
        }
        let matcher = Matcher {
            remaining,
            ready,
            bufs,
            stopped_path: false,
            stopped_compressed: false,
        };
        proof {
            assert forall|name: Seq<char>| matcher@.contains_key(name) <==> none_arrived(
                all,
            ).contains_key(name) by {
                if none_arrived(all).contains_key(name) {
                    let j = choose|j: int| #[trigger] number_of(all, name, j);
                    assert(all[j].file_name == name);
                }
            }
            assert(matcher@ =~= none_arrived(all));
        }
        Ok(matcher)
    }

    /// Takes an entry out, both of whose parts came.
    fn complete(&mut self, name: &str, i: usize) -> (r: Vec<u8>)
        requires
            old(self).wf(),
            old(self)@.contains_key(name@),
            old(self)@[name@].1 is Some,
            old(self).number(name@) == i,
        ensures
            final(self).wf(),
            final(self)@ == old(self)@.remove(name@),
            r@ == old(self)@[name@].1->0,
            final(self).stopped() == old(self).stopped(),
    {
        let mut none: Option<Vec<u8>> = None;
        let ghost was = *self;
        self.bufs.set_and_swap(i, &mut none);
        self.remaining.remove(name);
        proof {
            assert forall|n: Seq<char>| self@.contains_key(n) implies self@[n]
                == was@.remove(name@)[n] by {
                assert(self.remaining@[n] != i) by {
                    assert(was.remaining@[n] != was.remaining@[name@]);
                }
            }
            assert(self@ =~= was@.remove(name@));
        }
        none.unwrap()
    }

    /// The number of an entry that is waited for.
    closed spec fn number(&self, name: Seq<char>) -> usize {
        self.remaining@[name]
    }

    /// The directories of an entry are there. If the bytes that are stored for it
    /// came already, they are returned, and the entry can be unpacked.
    pub fn path_ready(&mut self, name: &str) -> (r: Option<Vec<u8>>)
        requires
            old(self).wf(),
            old(self)@.contains_key(name@),
            !old(self)@[name@].0,
        ensures
            final(self).wf(),
            final(self)@ == path_came(old(self)@, name@).0,
            match r {
                Some(buf) => path_came(old(self)@, name@).1 == Some(buf@),
                None => path_came(old(self)@, name@).1 is None,
            },
            final(self).stopped() == old(self).stopped(),
    {
        let i: usize = self.remaining.get(name).unwrap();
        if self.bufs[i].is_some() {
            return Some(self.complete(name, i));
        }
        let ghost was = *self;
        self.ready.set(i, true);
        proof {
            let want = path_came(was@, name@).0;
            assert forall|n: Seq<char>| self@.contains_key(n) implies self@[n] == want[n] by {
                if n != name@ {
                    assert(was.remaining@[n] != was.remaining@[name@]);
                }
            }
            assert(self@ =~= want);
        }
        None
    }

    /// The bytes that are stored for an entry came. If its directories are there
    /// already, they are returned, and the entry can be unpacked.
    pub fn compressed(&mut self, name: &str, buf: Vec<u8>) -> (r: Option<Vec<u8>>)
        requires
            old(self).wf(),
            old(self)@.contains_key(name@),
            old(self)@[name@].1 is None,
        ensures
            final(self).wf(),
            final(self)@ == compressed_came(old(self)@, name@, buf@).0,
            match r {
                Some(buf2) => compressed_came(old(self)@, name@, buf@).1 == Some(buf2@),
                None => compressed_came(old(self)@, name@, buf@).1 is None,
            },
            final(self).stopped() == old(self).stopped(),
    {
        let i: usize = self.remaining.get(name).unwrap();
        let ghost was = *self;
        let ghost bytes = buf@;
        self.bufs.set(i, Some(buf));
        proof {
            let want = was@.insert(name@, (was@[name@].0, Some(bytes)));
            assert forall|n: Seq<char>| self@.contains_key(n) implies self@[n] == want[n] by {
                if n != name@ {
                    assert(was.remaining@[n] != was.remaining@[name@]);
                }
            }
            assert(self@ =~= want);
            assert(want.remove(name@) =~= was@.remove(name@));
        }
        if self.ready[i] {
            Some(self.complete(name, i))
        } else {
            None
        }
    }

    /// No more directories will come.
    pub fn paths_done(&mut self)
        requires
            old(self).wf(),
        ensures
            final(self).wf(),
            final(self)@ == old(self)@,
            final(self).stopped() == (true, old(self).stopped().1),
    {
        self.stopped_path = true;
    }

    /// No more bytes will come.
    pub fn compressed_done(&mut self)
        requires
            old(self).wf(),
        ensures
            final(self).wf(),
            final(self)@ == old(self)@,
            final(self).stopped() == (old(self).stopped().0, true),
    {
        self.stopped_compressed = true;
    }

    /// Whether there is nothing left to wait for.
    pub fn finished(&self) -> (r: bool)
        requires
            self.wf(),
        ensures
            r == (self.stopped() == (true, true) || self@ == Map::<Seq<char>, Arrived>::empty()),
    {
        proof {
            if self@ == Map::<Seq<char>, Arrived>::empty() {
                assert forall|n: Seq<char>| !self.remaining@.contains_key(n) by {
                    assert(!self@.contains_key(n));
                }
                assert(self.remaining@ =~= Map::<Seq<char>, usize>::empty());
            }
            if self.remaining@ == Map::<Seq<char>, usize>::empty() {
                assert(self@ =~= Map::<Seq<char>, Arrived>::empty());
            }
        }
        (self.stopped_path && self.stopped_compressed) || self.remaining.is_empty()
    }
}

/// What is read to extract a file: nothing for a directory, and else the bytes that
/// are stored for it.
pub open spec fn scanned(b: Seq<u8>, f: FileRecord) -> ZipResult<Option<Seq<u8>>> {
    match data_start_at(b, f.header_start as int) {
        Err(e) => Err(e),
        Ok(start) => if !is_enclosed(f.file_name) {
            Err(ZipError::InvalidArchive("Invalid file path"))
        } else if names_dir(f.file_name) {
            Ok(None)
        } else {
            Ok(Some(limited(b, start, (f.compressed_size as usize) as int)))
        },
    }
}

/// What a file is extracted as: nothing for a directory, and else its contents.
pub open spec fn extracted(b: Seq<u8>, f: FileRecord) -> ZipResult<Option<Seq<u8>>> {
    match scanned(b, f) {
        Ok(Some(packed)) => match streamed_contents_of(f, packed) {
            Ok(contents) => Ok(Some(contents)),
            Err(e) => Err(e),
        },
        Ok(None) => Ok(None),
        Err(e) => Err(e),
    }
}

/// Whether an archive is as it was before one of its files was read, but for the
/// note of where the contents of the file begin. Where the header of the file was
/// not found, what the archive was read by is lost.
pub open spec fn read_one(before: ZipArchive, i: int, after: ZipArchive) -> bool {
    let b = before.reader()->0@.bytes;
    match data_start_at(b, before@.files[i].header_start as int) {
        Ok(start) => {
            &&& after@ == data_start_noted(before@, i, start as u64)
            &&& after.reader() is Some
            &&& after.reader()->0@.bytes == b
        },
        Err(_) => after@ == before@ && after.reader() is None,
    }
}

/// Reads the bytes that are stored for an entry, to be unpacked later; `None`, for a
/// directory.
pub fn scan_entry(archive: &mut ZipArchive, i: usize) -> (r: ZipResult<Option<Vec<u8>>>)
    requires
        old(archive).reader() is Some,
        i < old(archive)@.files.len(),
    ensures
        read_one(*old(archive), i as int, *final(archive)),
        match r {
            Ok(Some(buf)) => scanned(old(archive).reader()->0@.bytes, old(archive)@.files[i as int])
                == Ok::<Option<Seq<u8>>, ZipError>(Some(buf@)),
            Ok(None) => scanned(old(archive).reader()->0@.bytes, old(archive)@.files[i as int])
                == Ok::<Option<Seq<u8>>, ZipError>(None),
            Err(e) => scanned(old(archive).reader()->0@.bytes, old(archive)@.files[i as int])
                == Err::<Option<Seq<u8>>, ZipError>(e),
        },
{
    let mut file = match archive.by_index_raw(i) {
        Err(e) => {
            return Err(e);
        },
        Ok(file) => file,
    };
    let r = match plan_entry(file.data()) {
        Err(e) => Err(e),
        Ok(plan) => if plan.is_dir {
            Ok(None)
        } else {
            Ok(Some(drain(file.reader_mut())))
        },
    };
    archive.give_back(file);
    r
}

/// Extracts an entry: tells what is to be made of it, and reads its contents,
/// unless it is a directory.
pub fn extract_entry(archive: &mut ZipArchive, i: usize) -> (r: ZipResult<
    (Extraction, Option<Vec<u8>>),
>)
    requires
        old(archive).reader() is Some,
        i < old(archive)@.files.len(),
        streamable(old(archive)@.files[i as int]),
    ensures
        read_one(*old(archive), i as int, *final(archive)),
        match r {
            Ok((plan, contents)) => {
                let f = old(archive)@.files[i as int];
                &&& plan.path@ == f.file_name
                &&& plan.is_dir == names_dir(f.file_name)
                &&& plan.mode == f.unix_mode()
                &&& extracted(old(archive).reader()->0@.bytes, f) == Ok::<
                    Option<Seq<u8>>,
                    ZipError,
                >(
                    match contents {
                        Some(contents) => Some(contents@),
                        None => None,
                    },
                )
            },
            Err(e) => extracted(old(archive).reader()->0@.bytes, old(archive)@.files[i as int])
                == Err::<Option<Seq<u8>>, ZipError>(e),
        },
{
    let mut file = match archive.by_index(i) {
        Err(e) => {
            return Err(e);
        },
        Ok(file) => file,
    };
    let r = match plan_entry(file.data()) {
        Err(e) => Err(e),
        Ok(plan) => if plan.is_dir {
            Ok((plan, None))
        } else {
            match file.reader_mut().read_to_end() {
                Ok(contents) => Ok((plan, Some(contents))),
                Err(e) => Err(e),
            }
        },
    };
    archive.give_back(file);
    r
}

/// An entry that is scanned first and unpacked later comes out as one that is
/// extracted at once.
pub proof fn scanned_then_unpacked(b: Seq<u8>, f: FileRecord, buf: Seq<u8>)
    requires
        scanned(b, f) == Ok::<Option<Seq<u8>>, ZipError>(Some(buf)),
    ensures
        extracted(b, f) == (match streamed_contents_of(f, buf) {
            Ok(contents) => Ok(Some(contents)),
            Err(e) => Err(e),
        }),
{
}

/// Unpacks an entry from the bytes that are stored for it; `None`, if its contents
/// are not as long as the archive says.
pub fn unpack_entry(data: &ZipFileData, buf: Vec<u8>) -> (r: ZipResult<Option<Vec<u8>>>)
    requires
        streamable(data@),
    ensures
        match r {
            Ok(Some(out)) => streamed_contents_of(data@, buf@) == Ok::<Seq<u8>, ZipError>(out@)
                && out@.len() == data@.uncompressed_size,
            Ok(None) => streamed_contents_of(data@, buf@) matches Ok(out) && out.len()
                != data@.uncompressed_size,
            Err(e) => streamed_contents_of(data@, buf@) == Err::<Seq<u8>, ZipError>(e),
        },
{
    let n: usize = buf.len();
    let s = Limiter::take(Cursor::new(buf), n);
    assert(s.rest() =~= buf@);
    let mut reader = ZipFileWrappedReader::construct(data, s);
    match reader.read_to_end() {
        Err(e) => Err(e),
        Ok(out) => if out.len() as u64 == data.uncompressed_size {
            Ok(Some(out))
        } else {
            Ok(None)
        },
    }
}

/// Which pieces of a path lead anywhere: all but the empty one and `.`. They are kept in their
/// order, and no others are.
pub proof fn leading_pieces_are_kept(a: Seq<Seq<char>>, b: Seq<Seq<char>>, piece: Seq<char>)
    ensures
        components(a + b) == components(a) + components(b),
        piece.len() > 0 && piece != seq!['.'] ==> components(seq![piece]) == seq![piece],
        piece.len() == 0 || piece == seq!['.'] ==> components(seq![piece]).len() == 0,
    decreases b.len(),
{
    reveal_with_fuel(components, 2);
    let one = seq![piece];
    assert(one.drop_last() =~= Seq::empty());
    assert(one.last() == piece);
    if leads(piece) {
        assert(components(one) =~= one);
    }
    if b.len() == 0 {
        assert(a + b =~= a);
        assert(components(a) + components(b) =~= components(a));
    } else {
        leading_pieces_are_kept(a, b.drop_last(), piece);
        assert((a + b).drop_last() =~= a + b.drop_last());
        assert((a + b).last() == b.last());
        assert(components(a + b) =~= components(a) + components(b));
    }
}

proof fn components_hold_no_slash(all: Seq<Seq<char>>)
    requires
        forall|i: int| 0 <= i < all.len() ==> !(#[trigger] all[i]).contains('/'),
    ensures
        forall|i: int|
            0 <= i < components(all).len() ==> !(#[trigger] components(all)[i]).contains('/'),
    decreases all.len(),
{
    if all.len() > 0 {
        let before = all.drop_last();
        assert forall|i: int| 0 <= i < before.len() implies !(#[trigger] before[i]).contains(
            '/',
        ) by {
            assert(before[i] == all[i]);
        }
        components_hold_no_slash(before);
        assert(!all[all.len() - 1].contains('/'));
        let kept = components(before);
        assert forall|i: int| 0 <= i < components(all).len() implies !(
        #[trigger] components(all)[i]).contains('/') by {
            if i < kept.len() {
                assert(!kept[i].contains('/'));
            }
        }
    }
}

proof fn all_lead(all: Seq<Seq<char>>)
    requires
        forall|i: int| 0 <= i < all.len() ==> leads(#[trigger] all[i]),
    ensures
        components(all) == all,
    decreases all.len(),
{
    if all.len() > 0 {
        let before = all.drop_last();
        assert forall|i: int| 0 <= i < before.len() implies leads(#[trigger] before[i]) by {
            assert(before[i] == all[i]);
        }
        all_lead(before);
        assert(leads(all[all.len() - 1]));
        assert(before.push(all.last()) =~= all);
    }
}

/// The directories that a path lies in are made of its first pieces that lead anywhere: the first
/// of one, the next of two, and so on. A file lies in one fewer of them than it has pieces; a
/// directory, whose path ends with a slash, in all of them.
pub proof fn dirs_are_made_of_pieces(path: Seq<char>)
    ensures
        ({
            let all = components(pieces(path));
            &&& path.len() > 0 && path.last() == '/' ==> dirs_of(path).len() == all.len()
            &&& (path.len() == 0 || path.last() != '/') && all.len() > 0 ==> dirs_of(path).len()
                == all.len() - 1
            &&& all.len() == 0 ==> dirs_of(path).len() == 0
            &&& forall|k: int|
                0 <= k < dirs_of(path).len() ==> pieces(#[trigger] dirs_of(path)[k]) == all.take(
                    k + 1,
                )
        }),
{
    let all = components(pieces(path));
    pieces_make_the_path(path);
    components_hold_no_slash(pieces(path));
    assert forall|k: int| 0 <= k < dirs_of(path).len() implies pieces(#[trigger] dirs_of(path)[k])
        == all.take(k + 1) by {
        let some = all.take(k + 1);
        assert forall|i: int| 0 <= i < some.len() implies !(#[trigger] some[i]).contains('/') by {
            assert(some[i] == all[i]);
        }
        joined_pieces_part_again(some);
    }
}

/// A file whose path has nothing but pieces that lead somewhere stands in the last of its
/// directories: its path is that of the directory, a slash, and its own last piece.
pub proof fn file_lies_in_its_directory(path: Seq<char>)
    requires
        forall|i: int| 0 <= i < pieces(path).len() ==> leads(#[trigger] pieces(path)[i]),
    ensures
        pieces(path).len() > 1 ==> dirs_of(path).len() > 0 && path == dirs_of(path).last().push('/')
            + pieces(path).last(),
        pieces(path).len() == 1 ==> dirs_of(path).len() == 0,
{
    pieces_make_the_path(path);
    let all = pieces(path);
    all_lead(all);
    if path.len() > 0 && path.last() == '/' {
        assert(all.last().len() == 0);
        assert(leads(all[all.len() - 1]));
    }
    if all.len() > 1 {
        assert(all.take(all.len() - 1) =~= all.drop_last());
        assert(dirs_of(path).last() == joined(all.drop_last()));
    }
}

/// What comes for one entry leaves what is waited for of the others.
pub proof fn others_wait_on(
    waiting: Map<Seq<char>, Arrived>,
    name: Seq<char>,
    other: Seq<char>,
    buf: Seq<u8>,
)
    requires
        name != other,
    ensures
        path_came(waiting, name).0.contains_key(other) == waiting.contains_key(other),
        compressed_came(waiting, name, buf).0.contains_key(other) == waiting.contains_key(other),
        waiting.contains_key(other) ==> path_came(waiting, name).0[other] == waiting[other]
            && compressed_came(waiting, name, buf).0[other] == waiting[other],
{
}

/// Nothing leads out of where an archive is extracted to. Of a directory nothing is read, and of a
/// file no contents come out but those whose checksum is right.
pub proof fn extracted_is_safe(b: Seq<u8>, f: FileRecord)
    ensures
        !is_enclosed(f.file_name) ==> extracted(b, f) is Err && scanned(b, f) is Err,
        f.file_name.len() > 0 && f.file_name.last() == '/' ==> (extracted(b, f) matches Ok(c) ==> c
            is None),
        extracted(b, f) matches Ok(None) ==> f.file_name.len() > 0 && f.file_name.last() == '/',
        extracted(b, f) matches Ok(Some(contents)) ==> crc32_of(contents) == f.crc32,
        extracted(b, f) is Ok <==> (scanned(b, f) is Ok && (scanned(b, f)->Ok_0 matches Some(
            packed,
        ) ==> streamed_contents_of(f, packed) is Ok)),
{
}

/// At first, every file of an archive is waited for, and nothing else is: neither are its
/// directories there, nor have its bytes come.
pub proof fn all_are_waited_for(files: Seq<FileRecord>)
    ensures
        forall|i: int|
            0 <= i < files.len() ==> none_arrived(files).contains_key(
                (#[trigger] files[i]).file_name,
            ) && none_arrived(files)[files[i].file_name] == (false, None::<Seq<u8>>),
        forall|name: Seq<char>| #[trigger]
            none_arrived(files).contains_key(name) ==> exists|i: int|
                0 <= i < files.len() && (#[trigger] files[i]).file_name == name,
{
    assert forall|i: int| 0 <= i < files.len() implies none_arrived(files).contains_key(
        (#[trigger] files[i]).file_name,
    ) by {
        assert(number_of(files, files[i].file_name, i));
    }
    assert forall|name: Seq<char>| #[trigger]
        none_arrived(files).contains_key(name) implies exists|i: int|
        0 <= i < files.len() && (#[trigger] files[i]).file_name == name by {
        let i = choose|i: int| #[trigger] number_of(files, name, i);
        assert(files[i].file_name == name);
    }
}

/// To read one file of an archive leaves the archive as it is, but that it is noted where the
/// contents of the file begin.
pub proof fn reading_one_leaves_the_rest(before: ZipArchive, i: int, after: ZipArchive)
    requires
        read_one(before, i, after),
        0 <= i < before@.files.len(),
    ensures
        after@.comment == before@.comment,
        after@.files.len() == before@.files.len(),
        after@.directory_start == before@.directory_start,
        forall|j: int|
            0 <= j < before@.files.len() ==> (#[trigger] after@.files[j]) == (FileRecord {
                data_start: after@.files[j].data_start,
                ..before@.files[j]
            }),
        forall|j: int|
            0 <= j < before@.files.len() && j != i ==> #[trigger] after@.files[j]
                == before@.files[j],
        after.reader() matches Some(reader) ==> reader@.bytes == before.reader()->0@.bytes,
{
}

} // verus!
