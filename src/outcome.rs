//! What a purge reports, and what the file system answered.

use vstd::prelude::*;

verus! {

/// The outcome of a purge.
#[derive(Debug, PartialEq, Eq)]
pub enum AppResult {
    /// Something was removed.
    Purged,
    /// The exact key's cache file (this path, relative to the cache root)
    /// does not exist.
    AlreadyPurged(Vec<Vec<u8>>),
    /// An exclude key covers the exact key; nothing was touched.
    CacheIgnored,
    /// A wildcard or bulk purge removed nothing.
    AlreadyPurgedWildcard,
}

impl AppResult {
    /// The process exit code for this outcome: 0 when something was purged,
    /// 44 when there was nothing to purge or the key was excluded.
    pub fn exit_code(&self) -> (r: u8)
        ensures
            r == (if self is Purged {
                0u8
            } else {
                NOTHING_PURGED_EXIT_CODE
            }),
    {
        match self {
            AppResult::Purged => 0,
            _ => NOTHING_PURGED_EXIT_CODE,
        }
    }
}

/// The exit code for "nothing to purge" and "excluded".
pub const NOTHING_PURGED_EXIT_CODE: u8 = 44;

/// What removing a file answered.
#[derive(Debug, Clone, Copy, PartialEq, Eq, Structural)]
pub enum FileRemoval {
    Removed,
    NotFound,
    /// Any other error.
    Failed,
}

/// What removing a directory answered.
#[derive(Debug, Clone, Copy, PartialEq, Eq, Structural)]
pub enum DirRemoval {
    Removed,
    NotFound,
    /// The directory still holds something.
    NotEmpty,
    /// Any other error.
    Failed,
}

/// What a directory listing says an entry is.
#[derive(Debug, Clone, Copy, PartialEq, Eq, Structural)]
pub enum EntryKind {
    Dir,
    File,
    /// Neither a directory nor a regular file (a symbolic link, a socket).
    Other,
    /// The entry was gone by the time its type was asked for.
    Vanished,
}

} // verus!
