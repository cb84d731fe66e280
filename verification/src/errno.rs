use vstd::prelude::*;

verus! {

/// POSIX-style error codes crossing the kernel boundary.
#[derive(Clone, Copy, Debug, PartialEq, Eq, Structural)]
pub enum Errno {
    /// The requested inode or name does not exist locally.
    NoEntry,
    /// The operation required a directory inode.
    NotADirectory,
    /// Internal: the name already exists; swallowed during population.
    Exists,
    /// The directory could not be populated from the remote.
    NoData,
    /// Unknown handle, read failure, or catch-all remote error.
    Io,
}

impl Errno {
    /// The raw errno value reported to the kernel transport.
    pub open spec fn raw_spec(self) -> i32 {
        match self {
            Errno::NoEntry => 2,
            Errno::Io => 5,
            Errno::Exists => 17,
            Errno::NotADirectory => 20,
            Errno::NoData => 61,
        }
    }

    /// The raw errno value reported to the kernel transport.
    pub fn to_raw(self) -> (r: i32)
        ensures
            r == self.raw_spec(),
    {
        match self {
            Errno::NoEntry => 2,
            Errno::Io => 5,
            Errno::Exists => 17,
            Errno::NotADirectory => 20,
            Errno::NoData => 61,
        }
    }
}

} // verus!
