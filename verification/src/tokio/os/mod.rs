//! What the operating system is asked for, and what is made of its answers.
use vstd::prelude::*;

pub mod copy_file_range;
pub mod linux;
pub mod subset;

verus! {

/// Whether the operating system can copy between files by itself.
#[derive(Debug, Clone, Copy, PartialEq, Eq, Structural)]
pub enum SyscallAvailability {
    /// It can.
    Available,
    /// A probe failed, with this error number.
    FailedProbe(i32),
    /// Not on this platform.
    NotOnThisPlatform,
}

/// Invalid file descriptor.
///
/// Valid file descriptors are guaranteed to be positive numbers (see `open()` manpage)
/// while negative values are used to indicate errors.
/// Thus -1 will never be overlap with a valid open file.
pub const INVALID_FD: i32 = -1;

/// The error number that tells of a bad file descriptor.
pub const EBADF: i32 = 9;

/// What a probe with [`INVALID_FD`] tells, by the error number that it ended with.
/// A call that is there complains of the file descriptor.
pub open spec fn availability(on_linux: bool, errno: i32) -> SyscallAvailability {
    if !on_linux {
        SyscallAvailability::NotOnThisPlatform
    } else if errno == EBADF {
        SyscallAvailability::Available
    } else {
        SyscallAvailability::FailedProbe(errno)
    }
}

impl SyscallAvailability {
    /// What a probe with [`INVALID_FD`] tells, by the error number that it ended
    /// with.
    pub fn from_probe(on_linux: bool, errno: i32) -> (r: SyscallAvailability)
        ensures
            r == availability(on_linux, errno),
    {
        if !on_linux {
            SyscallAvailability::NotOnThisPlatform
        } else if errno == EBADF {
            SyscallAvailability::Available
        } else {
            SyscallAvailability::FailedProbe(errno)
        }
    }
}

/// A call is there if and only if, on a platform that has it, the probe complains of the file
/// descriptor.
pub proof fn probes_tell(on_linux: bool, errno: i32)
    ensures
        availability(on_linux, errno) is Available <==> on_linux && errno == 9,
        on_linux && errno != 9 ==> availability(on_linux, errno)
            == SyscallAvailability::FailedProbe(errno),
        !on_linux ==> availability(on_linux, errno) is NotOnThisPlatform,
{
}

} // verus!
