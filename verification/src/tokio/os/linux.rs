//! File descriptors that are known to fit what they are used for.
use vstd::prelude::*;

pub use super::copy_file_range::Role;
pub use super::SyscallAvailability;

use super::copy_file_range::{file_flaw, validate_raw_fd};
use crate::result::{ErrorKind, IoError};

verus! {

/// The descriptor of a regular file.
#[derive(Debug)]
pub struct FileFd {
    fd: i32,
}

impl FileFd {
    /// The descriptor.
    pub closed spec fn view(&self) -> i32 {
        self.fd
    }

    /// The descriptor.
    pub fn raw_fd(&self) -> (r: &i32)
        ensures
            *r == self@,
    {
        &self.fd
    }

    /// The descriptor of a file that fits a role, by its mode and the flags that it
    /// was opened with.
    pub fn from_raw_fd_checked(fd: i32, mode: u32, flags: i32, role: Role) -> (r: Result<
        FileFd,
        IoError,
    >)
        ensures
            match r {
                Ok(file) => file_flaw(role, mode, flags) is None && file@ == fd,
                Err(e) => file_flaw(role, mode, flags) matches Some(message) && e
                    == IoError::Simple(ErrorKind::Other, message),
            },
    {
        match validate_raw_fd(mode, flags, role) {
            Err(e) => Err(e),
            Ok(()) => Ok(FileFd { fd }),
        }
    }
}

} // verus!
