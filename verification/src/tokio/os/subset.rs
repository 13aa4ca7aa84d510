//! Parts of an archive.
use std::ops::Range;
use std::sync::Arc;
use vstd::prelude::*;

use crate::bytes::{u16_at, u32_at};
use crate::read::{data_start_at, limited, records, ArchiveRecord};
use crate::result::ZipError;
use crate::tokio::read::{Shared, SharedData};
use crate::types::{FileRecord, ZipFileData};

verus! {

/// How many entries go into a part.
pub open spec fn chunk_size(len: nat, num_chunks: nat) -> nat {
    if len / num_chunks > 1 {
        len / num_chunks
    } else {
        1
    }
}

/// How many parts there are.
pub open spec fn chunk_count(len: nat, num_chunks: nat) -> nat {
    let size = chunk_size(len, num_chunks);
    ((len + size - 1) / (size as int)) as nat
}

/// The number of the first entry of a part.
pub open spec fn chunk_start(len: nat, num_chunks: nat, i: int) -> int {
    i * chunk_size(len, num_chunks)
}

/// The number after that of the last entry of a part.
pub open spec fn chunk_end(len: nat, num_chunks: nat, i: int) -> int {
    if chunk_start(len, num_chunks, i + 1) < len {
        chunk_start(len, num_chunks, i + 1)
    } else {
        len as int
    }
}

/// Where the entries of a part are: from the first of them to the first of the
/// next part, or to the central headers.
pub open spec fn chunk_region(archive: ArchiveRecord, num_chunks: nat, i: int) -> (u64, u64) {
    let len = archive.files.len();
    (
        archive.files[chunk_start(len, num_chunks, i)].header_start,
        if chunk_end(len, num_chunks, i) < len {
            archive.files[chunk_end(len, num_chunks, i)].header_start
        } else {
            archive.directory_start
        },
    )
}

proof fn chunk_facts(len: nat, num_chunks: nat, i: int)
    requires
        num_chunks > 0,
        0 <= i,
    ensures
        chunk_size(len, num_chunks) > 0,
        i < chunk_count(len, num_chunks) <==> chunk_start(len, num_chunks, i) < len,
        chunk_start(len, num_chunks, i + 1) == chunk_start(len, num_chunks, i) + chunk_size(
            len,
            num_chunks,
        ),
        chunk_start(len, num_chunks, i) >= 0,
        chunk_start(len, num_chunks, 0) == 0,
{
    let size = chunk_size(len, num_chunks) as int;
    let count = (len + size - 1) / size;
    assert(count >= 0 && (i < count <==> i * size < len)) by (nonlinear_arith)
        requires
            size > 0,
            0 <= i,
            len >= 0,
            count == (len + size - 1) / size,
    ;
    assert((i + 1) * size == i * size + size && i * size >= 0 && 0 * size == 0)
        by (nonlinear_arith)
        requires
            size > 0,
            0 <= i,
    ;
}

/// The parts hold every entry once, in order: the first part starts with the first
/// entry, each part starts where the one before it ends, no part is empty, and the
/// last part ends with the last entry.
pub proof fn chunks_cover(len: nat, num_chunks: nat, i: int)
    requires
        num_chunks > 0,
        0 <= i < chunk_count(len, num_chunks),
    ensures
        chunk_start(len, num_chunks, 0) == 0,
        chunk_start(len, num_chunks, i) < chunk_end(len, num_chunks, i) <= len,
        i + 1 < chunk_count(len, num_chunks) ==> chunk_start(len, num_chunks, i + 1) == chunk_end(
            len,
            num_chunks,
            i,
        ),
        i + 1 == chunk_count(len, num_chunks) ==> chunk_end(len, num_chunks, i) == len,
{
    chunk_facts(len, num_chunks, i);
    chunk_facts(len, num_chunks, i + 1);
}

/// The parts lie side by side: each starts where the one before it ends, and the
/// last one ends where the central headers start.
pub proof fn regions_adjoin(archive: ArchiveRecord, num_chunks: nat, i: int)
    requires
        num_chunks > 0,
        0 <= i < chunk_count(archive.files.len(), num_chunks),
    ensures
        i + 1 < chunk_count(archive.files.len(), num_chunks) ==> chunk_region(
            archive,
            num_chunks,
            i,
        ).1 == chunk_region(archive, num_chunks, i + 1).0,
        i + 1 == chunk_count(archive.files.len(), num_chunks) ==> chunk_region(
            archive,
            num_chunks,
            i,
        ).1 == archive.directory_start,
        chunk_region(archive, num_chunks, 0).0 == archive.files[0].header_start,
{
    let len = archive.files.len();
    chunks_cover(len, num_chunks, i);
    chunk_facts(len, num_chunks, i + 1);
}

/// There are no more parts than asked for, where there are no more entries than
/// that, or they can be shared out evenly.
pub proof fn few_chunks(len: nat, num_chunks: nat)
    requires
        num_chunks > 0,
        len <= num_chunks || len % num_chunks == 0,
    ensures
        chunk_count(len, num_chunks) <= num_chunks,
{
    let size = chunk_size(len, num_chunks) as int;
    if len <= num_chunks {
        assert(len / num_chunks <= 1) by (nonlinear_arith)
            requires
                len <= num_chunks,
                num_chunks > 0,
        ;
    } else {
        let q = (len / num_chunks) as int;
        assert(len == q * num_chunks && q >= 1) by (nonlinear_arith)
            requires
                len % num_chunks == 0,
                len > num_chunks,
                num_chunks > 0,
                q == (len / num_chunks) as int,
        ;
        assert((q * num_chunks + q - 1) / q == num_chunks) by (nonlinear_arith)
            requires
                q >= 1,
                num_chunks > 0,
        ;
    }
}

/// A file of a part, as it is found in the bytes of the part alone, which start at
/// `start`.
pub open spec fn mapped(f: FileRecord, start: u64) -> FileRecord {
    FileRecord { header_start: (f.header_start - start) as u64, ..f }
}

/// A file is read from the bytes of a part as it is from those of the whole
/// archive, where the part holds all that is stored of it.
pub proof fn parts_read_alike(b: Seq<u8>, region: (u64, u64), f: FileRecord, size: int)
    requires
        region.0 <= f.header_start,
        region.1 <= b.len(),
        0 <= size,
        data_start_at(b, f.header_start as int) matches Ok(start) && start + size <= region.1,
    ensures
        ({
            let part = b.subrange(region.0 as int, region.1 as int);
            let start = data_start_at(b, f.header_start as int)->Ok_0;
            &&& data_start_at(part, mapped(f, region.0).header_start as int) == Ok::<int, ZipError>(
                start - region.0,
            )
            &&& limited(part, start - region.0, size) == limited(b, start, size)
        }),
{
    reveal(u16_at);
    reveal(u32_at);
    let part = b.subrange(region.0 as int, region.1 as int);
    let i = f.header_start as int;
    let start = data_start_at(b, i)->Ok_0;
    assert(part[i - region.0 + 0] == b[i + 0]);
    assert(part[i - region.0 + 1] == b[i + 1]);
    assert(part[i - region.0 + 2] == b[i + 2]);
    assert(part[i - region.0 + 3] == b[i + 3]);
    assert(part[i - region.0 + 26] == b[i + 26]);
    assert(part[i - region.0 + 27] == b[i + 27]);
    assert(part[i - region.0 + 28] == b[i + 28]);
    assert(part[i - region.0 + 29] == b[i + 29]);
    assert(limited(part, start - region.0, size) =~= limited(b, start, size));
}

/// A part of an archive.
pub struct SharedSubset {
    parent: Arc<Shared>,
    content_start: u64,
    content_end: u64,
    entry_start: usize,
    entry_end: usize,
}

impl SharedData for SharedSubset {
    closed spec fn entries(&self) -> Seq<FileRecord> {
        self.parent@.files.subrange(self.entry_start as int, self.entry_end as int)
    }

    closed spec fn spec_content_range(&self) -> (u64, u64) {
        (self.content_start, self.content_end)
    }

    closed spec fn spec_comment(&self) -> Seq<u8> {
        self.parent@.comment
    }

    fn content_range(&self) -> (r: Range<u64>) {
        Range { start: self.content_start, end: self.content_end }
    }

    fn comment(&self) -> (r: &[u8]) {
        self.parent.comment()
    }

    fn contiguous_entries(&self) -> (r: &[ZipFileData]) {
        proof {
            use_type_invariant(self);
        }
        let all = self.parent.contiguous_entries();
        let r = vstd::slice::slice_subrange(all, self.entry_start, self.entry_end);
        assert(records(r@) =~= records(all@).subrange(
            self.entry_start as int,
            self.entry_end as int,
        ));
        r
    }
}

impl SharedSubset {
    #[verifier::type_invariant]
    spec fn holds(self) -> bool {
        self.entry_start < self.entry_end <= self.parent@.files.len()
    }

    /// The archive that this is a part of.
    pub closed spec fn spec_parent(&self) -> Arc<Shared> {
        self.parent
    }

    /// The numbers of the first entry of this and of the one after the last.
    pub closed spec fn entry_range(&self) -> (int, int) {
        (self.entry_start as int, self.entry_end as int)
    }

    /// A part has the entries of its archive that its numbers tell, and the comment of the
    /// archive.
    pub proof fn is_part_of_parent(&self)
        ensures
            self.spec_comment() == self.spec_parent()@.comment,
            self.entries() == self.spec_parent()@.files.subrange(
                self.entry_range().0,
                self.entry_range().1,
            ),
    {
    }

    /// The archive that this is a part of.
    pub fn parent(&self) -> (r: Arc<Shared>)
        ensures
            r == self.spec_parent(),
    {
        Arc::clone(&self.parent)
    }

    /// The number of the first entry of this.
    pub fn first_entry(&self) -> (r: usize)
        ensures
            r == self.entry_range().0,
    {
        self.entry_start
    }

    /// The number of the last entry of this.
    pub fn last_entry(&self) -> (r: usize)
        ensures
            r == self.entry_range().1 - 1,
    {
        proof {
            use_type_invariant(self);
        }
        self.entry_end - 1
    }

    /// An entry of this, as it is found in the bytes of this part alone; `None`, if
    /// it starts before them.
    pub fn mapped_entry(&self, i: usize) -> (r: Option<ZipFileData>)
        requires
            i < self.entries().len(),
        ensures
            match r {
                Some(f) => {
                    &&& self.spec_content_range().0 <= self.entries()[i as int].header_start
                    &&& f@ == mapped(self.entries()[i as int], self.spec_content_range().0)
                },
                None => self.entries()[i as int].header_start < self.spec_content_range().0,
            },
    {
        let entries = self.contiguous_entries();
        assert(entries@[i as int]@ == self.entries()[i as int]);
        if entries[i].header_start < self.content_start {
            return None;
        }
        let mut f = entries[i].clone();
        f.header_start = f.header_start - self.content_start;
        assert(f@ =~= mapped(self.entries()[i as int], self.content_start));
        Some(f)
    }

    /// Splits an archive into parts. Its entries must be shared out without needing
    /// more parts than asked for, and the first of them must be where the archive
    /// starts.
    pub fn split_contiguous_chunks(parent: Arc<Shared>, num_chunks: usize) -> (r: Vec<
        SharedSubset,
    >)
        requires
            num_chunks > 0,
            chunk_count(parent@.files.len(), num_chunks as nat) <= num_chunks,
            parent@.files.len() > 0 ==> parent@.files[0].header_start == parent@.offset,
        ensures
            r@.len() == chunk_count(parent@.files.len(), num_chunks as nat),
            forall|i: int|
                0 <= i < r@.len() ==> {
                    &&& (#[trigger] r@[i]).spec_parent() == parent
                    &&& r@[i].entry_range() == (
                        chunk_start(parent@.files.len(), num_chunks as nat, i),
                        chunk_end(parent@.files.len(), num_chunks as nat, i),
                    )
                    &&& r@[i].entries() == parent@.files.subrange(
                        r@[i].entry_range().0,
                        r@[i].entry_range().1,
                    )
                    &&& r@[i].spec_content_range() == chunk_region(parent@, num_chunks as nat, i)
                },
    {
        let files = parent.contiguous_entries();
        let len: usize = files.len();
        let size: usize = if len / num_chunks > 1 {
            len / num_chunks
        } else {
            1
        };
        let mut subsets: Vec<SharedSubset> = Vec::new();
        let mut start: usize = 0;
        proof {
            chunk_facts(len as nat, num_chunks as nat, 0);
        }
        while start < len
            invariant
                num_chunks > 0,
                len == files@.len(),
                records(files@) == parent@.files,
                size == chunk_size(len as nat, num_chunks as nat),
                start <= len,
                subsets@.len() <= chunk_count(len as nat, num_chunks as nat),
                start < len ==> start == chunk_start(
                    len as nat,
                    num_chunks as nat,
                    subsets@.len() as int,
                ),
                start == len ==> subsets@.len() == chunk_count(len as nat, num_chunks as nat),
                forall|i: int|
                    0 <= i < subsets@.len() ==> {
                        &&& (#[trigger] subsets@[i]).spec_parent() == parent
                        &&& subsets@[i].entry_range() == (
                            chunk_start(len as nat, num_chunks as nat, i),
                            chunk_end(len as nat, num_chunks as nat, i),
                        )
                        &&& subsets@[i].entries() == parent@.files.subrange(
                            subsets@[i].entry_range().0,
                            subsets@[i].entry_range().1,
                        )
                        &&& subsets@[i].spec_content_range() == chunk_region(
                            parent@,
                            num_chunks as nat,
                            i,
                        )
                    },
            decreases len - start,
        {
            let ghost i = subsets@.len() as int;
            proof {
                chunk_facts(len as nat, num_chunks as nat, i);
                chunk_facts(len as nat, num_chunks as nat, i + 1);
            }
            let end: usize = if len - start > size {
                start + size
            } else {
                len
            };
            assert(files@[start as int]@ == parent@.files[start as int]);
            let content_end: u64 = if end < len {
                assert(files@[end as int]@ == parent@.files[end as int]);
                files[end].header_start
            } else {
                parent.directory_start()
            };
            subsets.push(
                SharedSubset {
                    parent: Arc::clone(&parent),
                    content_start: files[start].header_start,
                    content_end,
                    entry_start: start,
                    entry_end: end,
                },
            );
            start = end;
        }
        subsets
    }
}

/// There are as many parts as asked for, or more, unless there are fewer entries: then each entry
/// is a part. No part holds more entries than another, but that the last may hold fewer.
pub proof fn enough_chunks(len: nat, num_chunks: nat, i: int)
    requires
        num_chunks > 0,
        0 <= i < chunk_count(len, num_chunks),
    ensures
        len <= num_chunks ==> chunk_count(len, num_chunks) == len,
        len >= num_chunks ==> chunk_count(len, num_chunks) >= num_chunks,
        i + 1 < chunk_count(len, num_chunks) ==> chunk_end(len, num_chunks, i) - chunk_start(
            len,
            num_chunks,
            i,
        ) == chunk_end(len, num_chunks, 0) - chunk_start(len, num_chunks, 0),
        chunk_end(len, num_chunks, i) - chunk_start(len, num_chunks, i) <= chunk_end(
            len,
            num_chunks,
            0,
        ) - chunk_start(len, num_chunks, 0),
{
    let size = chunk_size(len, num_chunks) as int;
    chunk_facts(len, num_chunks, i);
    chunk_facts(len, num_chunks, i + 1);
    chunk_facts(len, num_chunks, 0);
    chunk_facts(len, num_chunks, 1);
    if len <= num_chunks {
        assert(len / num_chunks <= 1) by (nonlinear_arith)
            requires
                len <= num_chunks,
                num_chunks > 0,
        ;
    }
    if len >= num_chunks {
        assert(size * num_chunks <= len) by (nonlinear_arith)
            requires
                len >= num_chunks,
                num_chunks > 0,
                size == len / num_chunks || size == 1,
        ;
        assert((len + size - 1) / size >= num_chunks) by (nonlinear_arith)
            requires
                size * num_chunks <= len,
                size > 0,
                num_chunks > 0,
        ;
    }
}

} // verus!
