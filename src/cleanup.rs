//! Removing the directories that a deletion left empty.
//!
//! After a cache file is deleted, its parent directory is removed, then that
//! one's parent, up to as many directories as there are levels, so the cache
//! root itself is never touched. The walk up stops, without error, at the
//! first directory that is gone or still holds something.
//!
//! The file system is modelled as the set of paths, relative to the cache
//! root, of every directory and file under it.

use vstd::prelude::*;

use crate::bytes::{byte_views, copy_prefix};
use crate::outcome::{DirRemoval, FileRemoval};

verus! {

/// A path relative to the cache root, one entry per component.
pub type RelPath = Seq<Seq<u8>>;

/// The directories to try after deleting the file at `path`: its parent
/// first, `depth` of them in all.
pub open spec fn ancestors(path: RelPath, depth: int) -> Seq<RelPath> {
    Seq::new(depth as nat, |k: int| path.take(path.len() - 1 - k))
}

/// Whether `dir` is a proper prefix of `path`, i.e. holds it.
pub open spec fn holds(dir: RelPath, path: RelPath) -> bool {
    dir.len() < path.len() && path.take(dir.len() as int) == dir
}

/// What removing the directory `dir` answers on the tree `tree`.
pub open spec fn dir_removal_model(tree: Set<RelPath>, dir: RelPath) -> DirRemoval {
    if !tree.contains(dir) {
        DirRemoval::NotFound
    } else if exists|e: RelPath| tree.contains(e) && #[trigger] holds(dir, e) {
        DirRemoval::NotEmpty
    } else {
        DirRemoval::Removed
    }
}

/// The directories still to try once the first of `pending` answered
/// `outcome`.
pub open spec fn cleanup_after(pending: Seq<RelPath>, outcome: DirRemoval) -> Seq<RelPath> {
    if outcome == DirRemoval::Removed {
        pending.drop_first()
    } else {
        Seq::empty()
    }
}

/// The tree once the directories `pending` have been tried in order.
pub open spec fn run_cleanup(tree: Set<RelPath>, pending: Seq<RelPath>) -> Set<RelPath>
    decreases pending.len(),
{
    if pending.len() == 0 {
        tree
    } else {
        let outcome = dir_removal_model(tree, pending[0]);
        if outcome == DirRemoval::Removed {
            run_cleanup(tree.remove(pending[0]), cleanup_after(pending, outcome))
        } else {
            tree
        }
    }
}

/// What to do once a directory's removal has answered.
#[derive(Debug, Clone, Copy, PartialEq, Eq, Structural)]
pub enum CleanupStep {
    /// Go on with the next directory, if any.
    Continue,
    /// Done, without error.
    Stop,
    /// Done, with the error that the removal gave.
    Fail,
}

/// The walk up from a deleted file, one directory at a time.
pub struct AncestorCleanup {
    path: Vec<Vec<u8>>,
    /// The length of the next directory's path.
    upto: usize,
    /// How many directories are left to try.
    left: usize,
}

impl AncestorCleanup {
    pub closed spec fn wf(&self) -> bool {
        &&& self.upto < self.path@.len()
        &&& self.left <= self.upto
    }

    /// The directories still to try, next first.
    pub closed spec fn pending(&self) -> Seq<RelPath> {
        Seq::new(self.left as nat, |k: int| byte_views(self.path@).take(self.upto - k))
    }

    /// Starts the walk up from the file at `path` over `depth` directories.
    pub fn new(path: &Vec<Vec<u8>>, depth: usize) -> (r: Self)
        requires
            depth < path@.len(),
        ensures
            r.wf(),
            r.pending() == ancestors(byte_views(path@), depth as int),
    {
        let r = AncestorCleanup { path: copy_prefix(path, path.len()), upto: path.len() - 1, left: depth };
        assert(byte_views(path@).take(path@.len() as int) =~= byte_views(path@));
        assert(r.pending() =~= ancestors(byte_views(path@), depth as int));
        r
    }

    /// The next directory to try, if any.
    pub fn next_dir(&self) -> (r: Option<Vec<Vec<u8>>>)
        requires
            self.wf(),
        ensures
            match r {
                Some(dir) => self.pending().len() > 0 && byte_views(dir@) == self.pending()[0],
                None => self.pending().len() == 0,
            },
    {
        if self.left == 0 {
            return None;
        }
        let dir = copy_prefix(&self.path, self.upto);
        Some(dir)
    }

    /// Takes in what removing the next directory answered.
    pub fn record(&mut self, outcome: DirRemoval) -> (r: CleanupStep)
        requires
            old(self).wf(),
            old(self).pending().len() > 0,
        ensures
            final(self).wf(),
            final(self).pending() == cleanup_after(old(self).pending(), outcome),
            r == match outcome {
                DirRemoval::Removed => CleanupStep::Continue,
                DirRemoval::NotFound => CleanupStep::Stop,
                DirRemoval::NotEmpty => CleanupStep::Stop,
                DirRemoval::Failed => CleanupStep::Fail,
            },
    {
        let ghost before = self.pending();
        match outcome {
            DirRemoval::Removed => {
                self.upto = self.upto - 1;
                self.left = self.left - 1;
                assert(self.pending() =~= before.drop_first());
                CleanupStep::Continue
            },
            DirRemoval::NotFound | DirRemoval::NotEmpty => {
                self.left = 0;
                assert(self.pending() =~= Seq::<RelPath>::empty());
                CleanupStep::Stop
            },
            DirRemoval::Failed => {
                self.left = 0;
                assert(self.pending() =~= Seq::<RelPath>::empty());
                CleanupStep::Fail
            },
        }
    }
}

/// What removing the file `path` answers on the tree `tree`.
pub open spec fn file_removal_model(tree: Set<RelPath>, path: RelPath) -> FileRemoval {
    if tree.contains(path) {
        FileRemoval::Removed
    } else {
        FileRemoval::NotFound
    }
}

/// The tree, and what the deletion answered, once the file `path` has been
/// deleted and `depth` directories above it cleaned up.
pub open spec fn purge_file_model(tree: Set<RelPath>, path: RelPath, depth: int) -> (
    Set<RelPath>,
    FileRemoval,
) {
    let removal = file_removal_model(tree, path);
    if removal == FileRemoval::Removed {
        (run_cleanup(tree.remove(path), ancestors(path, depth)), removal)
    } else {
        (tree, removal)
    }
}

/// `path` and every directory above it, up to (not including) the cache root.
pub open spec fn prefixes(path: RelPath) -> Set<RelPath> {
    Set::new(|e: RelPath| 1 <= e.len() <= path.len() && e == path.take(e.len() as int))
}

} // verus!
