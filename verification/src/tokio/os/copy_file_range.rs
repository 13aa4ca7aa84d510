//! Copying between files, without the bytes passing through here.
use vstd::prelude::*;

use crate::result::{ErrorKind, IoError};
use crate::stream::SeekFrom;

verus! {

/// Open for reading only.
pub const O_RDONLY: i32 = 0;

/// Open for writing only.
pub const O_WRONLY: i32 = 1;

/// Open for both.
pub const O_RDWR: i32 = 2;

/// The flags that tell what a file is open for.
pub const O_ACCMODE: i32 = 3;

/// What is written goes to the end.
pub const O_APPEND: i32 = 0o2000;

/// The bits of a mode that tell what kind of file it is of.
pub const S_IFMT: u32 = 0o170000;

/// The kind of a regular file.
pub const S_IFREG: u32 = 0o100000;

/// What a file is used for.
#[derive(Copy, Clone, Debug, Eq, PartialEq, Structural, Hash, PartialOrd, Ord)]
pub enum Role {
    /// fd has the read capability
    Readable,
    /// fd has the write capability
    Writable,
}

/// What makes a file unfit for a role, by the flags that it was opened with.
pub open spec fn flags_flaw(role: Role, flags: i32) -> Option<&'static str> {
    let mode = flags & O_ACCMODE;
    match role {
        Role::Readable => if mode == O_RDONLY || mode == O_RDWR {
            None
        } else {
            Some("Fd is not readable!")
        },
        Role::Writable => if mode != O_WRONLY && mode != O_RDWR {
            Some("Fd is not writable!")
        } else if flags & O_APPEND != 0 {
            Some("Writable Fd was set for append!")
        } else {
            None
        },
    }
}

impl Role {
    /// Whether a file that is open in this way fits.
    fn allows_mode(&self, access_mode: i32) -> (r: bool)
        ensures
            r == match self {
                Role::Readable => access_mode == O_RDONLY || access_mode == O_RDWR,
                Role::Writable => access_mode == O_WRONLY || access_mode == O_RDWR,
            },
    {
        match self {
            Role::Readable => access_mode == O_RDONLY || access_mode == O_RDWR,
            Role::Writable => access_mode == O_WRONLY || access_mode == O_RDWR,
        }
    }

    /// Refuses to write where all that is written goes to the end.
    fn check_append(&self, flags: i32) -> (r: Result<(), IoError>)
        ensures
            r == if *self == Role::Writable && flags & O_APPEND != 0 {
                Err::<(), IoError>(
                    IoError::Simple(ErrorKind::Other, "Writable Fd was set for append!"),
                )
            } else {
                Ok(())
            },
    {
        if let Role::Writable = self {
            if (flags & O_APPEND) != 0 {
                return Err(IoError::Simple(ErrorKind::Other, "Writable Fd was set for append!"));
            }
        }
        Ok(())
    }

    fn errmsg(&self) -> (r: &'static str)
        ensures
            r == match self {
                Role::Readable => "Fd is not readable!",
                Role::Writable => "Fd is not writable!",
            },
    {
        match self {
            Role::Readable => "Fd is not readable!",
            Role::Writable => "Fd is not writable!",
        }
    }

    /// Checks whether a file fits, by the flags that it was opened with.
    pub fn validate_flags(&self, flags: i32) -> (r: Result<(), IoError>)
        ensures
            match r {
                Ok(()) => flags_flaw(*self, flags) is None,
                Err(e) => flags_flaw(*self, flags) matches Some(message) && e == IoError::Simple(
                    ErrorKind::Other,
                    message,
                ),
            },
    {
        let access_mode: i32 = flags & O_ACCMODE;
        if !self.allows_mode(access_mode) {
            return Err(IoError::Simple(ErrorKind::Other, self.errmsg()));
        }
        self.check_append(flags)
    }
}

/// Refuses all but regular files, by the mode of the file.
pub fn check_regular_file(mode: u32) -> (r: Result<(), IoError>)
    ensures
        r == if mode & S_IFMT == S_IFREG {
            Ok::<(), IoError>(())
        } else {
            Err(IoError::Simple(ErrorKind::Other, "Fd is not a regular file"))
        },
{
    if (mode & S_IFMT) == S_IFREG {
        Ok(())
    } else {
        Err(IoError::Simple(ErrorKind::Other, "Fd is not a regular file"))
    }
}

/// What makes a file unfit for a role, by its mode and the flags that it was opened
/// with.
pub open spec fn file_flaw(role: Role, mode: u32, flags: i32) -> Option<&'static str> {
    if mode & S_IFMT != S_IFREG {
        Some("Fd is not a regular file")
    } else {
        flags_flaw(role, flags)
    }
}

/// Checks whether a file fits, by its mode and the flags that it was opened with.
pub fn validate_raw_fd(mode: u32, flags: i32, role: Role) -> (r: Result<(), IoError>)
    ensures
        match r {
            Ok(()) => file_flaw(role, mode, flags) is None,
            Err(e) => file_flaw(role, mode, flags) matches Some(message) && e == IoError::Simple(
                ErrorKind::Other,
                message,
            ),
        },
{
    match check_regular_file(mode) {
        Err(e) => Err(e),
        Ok(()) => role.validate_flags(flags),
    }
}

/// The ways in which a seek counts.
#[derive(Copy, Clone, Debug, Eq, PartialEq, Structural)]
pub enum Whence {
    /// From the start.
    Start,
    /// From where it is.
    Current,
    /// From the end.
    End,
}

/// What a seek asks of the operating system.
pub fn seek_args(arg: SeekFrom) -> (r: (i64, Whence))
    ensures
        r == match arg {
            SeekFrom::Start(pos) => (pos as i64, Whence::Start),
            SeekFrom::Current(diff) => (diff, Whence::Current),
            SeekFrom::End(diff) => (diff, Whence::End),
        },
{
    match arg {
        SeekFrom::Start(pos) => (#[verifier::truncate] (pos as i64), Whence::Start),
        SeekFrom::Current(diff) => (diff, Whence::Current),
        SeekFrom::End(diff) => (diff, Whence::End),
    }
}

/// A file that is read or written at an offset of its own.
#[derive(Debug, Clone, Copy)]
pub struct FromGivenOffset {
    pub fd: i32,
    pub offset: i64,
    pub role: Role,
}

impl FromGivenOffset {
    /// The file of a descriptor, by its mode and the flags that it was opened with.
    pub fn new(fd: i32, mode: u32, flags: i32, role: Role, init: u32) -> (r: Result<Self, IoError>)
        ensures
            match r {
                Ok(file) => file_flaw(role, mode, flags) is None && file == (FromGivenOffset {
                    fd,
                    offset: init as i64,
                    role,
                }),
                Err(e) => file_flaw(role, mode, flags) matches Some(message) && e
                    == IoError::Simple(ErrorKind::Other, message),
            },
    {
        match validate_raw_fd(mode, flags, role) {
            Err(e) => Err(e),
            Ok(()) => Ok(FromGivenOffset { fd, offset: init as i64, role }),
        }
    }

    /// Notes that bytes were read or written.
    pub fn advance(&mut self, count: usize)
        requires
            old(self).offset + count <= i64::MAX,
            count <= i64::MAX,
        ensures
            *final(self) == (FromGivenOffset {
                offset: (old(self).offset + count) as i64,
                ..*old(self)
            }),
    {
        self.offset = self.offset + count as i64;
    }

    /// Where a seek leads, in a file of the given length.
    pub open spec fn target(self, arg: SeekFrom, full_len: i64) -> int {
        match arg {
            SeekFrom::Start(from_start) => (from_start as i64) as int,
            SeekFrom::Current(diff) => self.offset + diff,
            SeekFrom::End(from_end) => full_len + from_end,
        }
    }

    /// Seeks, in a file of the given length. From the end, it leads back only.
    pub fn seek(&mut self, arg: SeekFrom, full_len: i64) -> (r: u64)
        requires
            i64::MIN <= old(self).target(arg, full_len) <= i64::MAX,
            arg matches SeekFrom::End(from_end) ==> from_end <= 0,
        ensures
            *final(self) == (FromGivenOffset {
                offset: old(self).target(arg, full_len) as i64,
                ..*old(self)
            }),
            r == final(self).offset as u64,
    {
        self.offset = match arg {
            SeekFrom::Start(from_start) => #[verifier::truncate] (from_start as i64),
            SeekFrom::Current(diff) => self.offset + diff,
            SeekFrom::End(from_end) => full_len + from_end,
        };
        #[verifier::truncate] (self.offset as u64)
    }
}

/// A copy that takes several calls.
#[derive(Debug, Clone, Copy, PartialEq, Eq, Structural)]
pub struct CopyProgress {
    pub full_len: usize,
    pub remaining: usize,
}

impl CopyProgress {
    /// Whether no more was copied than is to be.
    pub open spec fn wf(self) -> bool {
        self.remaining <= self.full_len
    }

    /// A copy of so many bytes.
    pub fn new(full_len: usize) -> (r: Self)
        ensures
            r.wf(),
            r == (CopyProgress { full_len, remaining: full_len }),
    {
        CopyProgress { full_len, remaining: full_len }
    }

    /// How many bytes the next call is to copy; `None`, if all are.
    pub fn request(&self) -> (r: Option<usize>)
        ensures
            r == if self.remaining > 0 {
                Some(self.remaining)
            } else {
                None
            },
    {
        if self.remaining > 0 {
            Some(self.remaining)
        } else {
            None
        }
    }

    /// Notes what a call copied, no more than it was to. Returns how many bytes were
    /// copied in all, if that is the end of it: where nothing came, or nothing is
    /// left.
    pub fn wrote(&mut self, cur_written: usize) -> (r: Option<usize>)
        requires
            old(self).wf(),
            cur_written <= old(self).remaining,
        ensures
            final(self).wf(),
            *final(self) == (CopyProgress {
                remaining: (old(self).remaining - cur_written) as usize,
                ..*old(self)
            }),
            r == if cur_written == 0 || cur_written == old(self).remaining {
                Some((final(self).full_len - final(self).remaining) as usize)
            } else {
                None
            },
    {
        self.remaining = self.remaining - cur_written;
        if cur_written == 0 || self.remaining == 0 {
            Some(self.full_len - self.remaining)
        } else {
            None
        }
    }
}

/// Which files fit: regular ones; to be read, if they are open for reading; to be written, if they
/// are open for writing and what is written does not go to the end.
pub proof fn fit_files(role: Role, mode: u32, flags: i32)
    ensures
        file_flaw(role, mode, flags) is None <==> {
            &&& mode & 0o170000 == 0o100000
            &&& role is Readable ==> flags & 3 == 0 || flags & 3 == 2
            &&& role is Writable ==> (flags & 3 == 1 || flags & 3 == 2) && flags & 0o2000 == 0
        },
{
}

/// To seek from where a file is twice is to seek by both at once; from the start, it does not
/// matter where it was, nor does it from the end.
pub proof fn seeks_add_up(file: FromGivenOffset, other: FromGivenOffset, a: i64, b: i64, len: i64)
    requires
        i64::MIN <= file.offset + a <= i64::MAX,
        i64::MIN <= a + b <= i64::MAX,
    ensures
        ({
            let there = FromGivenOffset {
                offset: file.target(SeekFrom::Current(a), len) as i64,
                ..file
            };
            &&& there.target(SeekFrom::Current(b), len) == file.target(
                SeekFrom::Current((a + b) as i64),
                len,
            )
            &&& file.target(SeekFrom::Current(0), len) == file.offset
            &&& a >= 0 ==> file.target(SeekFrom::Start(a as u64), len) == a
            &&& file.target(SeekFrom::End(a), len) == len + a
            &&& file.target(SeekFrom::End(a), len) == other.target(SeekFrom::End(a), len)
        }),
{
}

} // verus!
