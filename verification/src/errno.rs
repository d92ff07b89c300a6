//! The ways in which a request can fail.

use vstd::prelude::*;

verus! {

/// An error, as the kernel is told about it.
#[derive(Clone, Copy, Debug, PartialEq, Eq, Structural)]
pub enum Errno {
    /// `ENOENT`: there is no such file.
    NoEntry,
    /// `EIO`: something went wrong.
    Io,
    /// `ENOTDIR`: that is not a directory.
    NotDirectory,
    /// `EISDIR`: that is a directory.
    IsDirectory,
    /// `EINVAL`: that makes no sense.
    Invalid,
    /// `EBADFD`: that is not an open file.
    BadHandle,
    /// What the operating system said, by its number.
    Os(i32),
}

impl Errno {
    /// The error for an operation that the operating system refused, with the
    /// number that it gave, if it gave one.
    pub open spec fn of_os(raw: Option<i32>) -> Errno {
        match raw {
            Some(number) => Errno::Os(number),
            None => Errno::Io,
        }
    }

    /// Tells what error an operation failed with that the operating system
    /// refused.
    pub fn from_os(raw: Option<i32>) -> (errno: Errno)
        ensures
            errno == Errno::of_os(raw),
    {
        match raw {
            Some(number) => Errno::Os(number),
            None => Errno::Io,
        }
    }
}

} // verus!
