//! Removing everything under the cache root, but not the root itself.

use vstd::prelude::*;

use crate::outcome::{EntryKind, FileRemoval};

verus! {

/// How to remove a direct child of the cache root.
#[derive(Debug, Clone, Copy, PartialEq, Eq, Structural)]
pub enum WipeAction {
    /// Remove the directory and everything in it.
    RemoveDirAll,
    /// Remove the file (or link, or other non-directory).
    RemoveFile,
    /// It is gone already.
    Skip,
}

/// How to remove a direct child of the cache root of kind `kind`.
pub fn wipe_action(kind: EntryKind) -> (r: WipeAction)
    ensures
        r == match kind {
            EntryKind::Dir => WipeAction::RemoveDirAll,
            EntryKind::Vanished => WipeAction::Skip,
            _ => WipeAction::RemoveFile,
        },
{
    match kind {
        EntryKind::Dir => WipeAction::RemoveDirAll,
        EntryKind::Vanished => WipeAction::Skip,
        _ => WipeAction::RemoveFile,
    }
}

/// The first failure among `outcomes`, if any.
pub open spec fn first_failure(outcomes: Seq<FileRemoval>) -> Option<int> {
    if exists|i: int| 0 <= i < outcomes.len() && outcomes[i] == FileRemoval::Failed {
        Some(
            choose|i: int|
                0 <= i < outcomes.len() && outcomes[i] == FileRemoval::Failed && forall|k: int|
                    0 <= k < i ==> outcomes[k] != FileRemoval::Failed,
        )
    } else {
        None
    }
}

/// Whether some removal among `outcomes` removed something.
pub open spec fn any_removed(outcomes: Seq<FileRemoval>) -> bool {
    exists|i: int| 0 <= i < outcomes.len() && outcomes[i] == FileRemoval::Removed
}

/// The result of removing the direct children of the cache root, given what
/// each removal answered, in listing order: `Ok` with whether anything was
/// removed (a child already gone counts for nothing), or `Err` with the
/// position of the first removal that failed.
pub fn remove_all_files_in_directory(outcomes: &Vec<FileRemoval>) -> (r: Result<bool, usize>)
    ensures
        match r {
            Ok(removed) => first_failure(outcomes@) is None && removed == any_removed(outcomes@),
            Err(i) => first_failure(outcomes@) == Some(i as int),
        },
{
    let mut removed = false;
    let mut i: usize = 0;
    while i < outcomes.len()
        invariant
            i <= outcomes@.len(),
            forall|k: int| 0 <= k < i ==> outcomes@[k] != FileRemoval::Failed,
            removed == exists|k: int| 0 <= k < i && outcomes@[k] == FileRemoval::Removed,
        decreases outcomes@.len() - i,
    {
        match outcomes[i] {
            FileRemoval::Failed => {
                assert(exists|j: int| 0 <= j < outcomes@.len() && outcomes@[j] == FileRemoval::Failed);
                let ghost chosen = choose|j: int|
                    0 <= j < outcomes@.len() && outcomes@[j] == FileRemoval::Failed && forall|k: int|
                        0 <= k < j ==> outcomes@[k] != FileRemoval::Failed;
                assert(0 <= i < outcomes@.len() && outcomes@[i as int] == FileRemoval::Failed
                    && forall|k: int| 0 <= k < i ==> outcomes@[k] != FileRemoval::Failed);
                assert(chosen == i) by {
                    if chosen < i {
                        assert(outcomes@[chosen] != FileRemoval::Failed);
                    } else if chosen > i {
                        assert(outcomes@[i as int] != FileRemoval::Failed);
                    }
                }
                return Err(i);
            },
            FileRemoval::Removed => {
                removed = true;
            },
            FileRemoval::NotFound => {},
        }
        i = i + 1;
    }
    Ok(removed)
}

} // verus!
