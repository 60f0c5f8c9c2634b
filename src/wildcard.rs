//! Purging every cache entry whose stored key matches a wildcard key.
//!
//! The caller walks the cache root down to the files at the depth of the
//! levels, and asks this module what to do with each entry. A file whose path
//! is a literal exclude path is skipped, and that exclude path is used up.
//! Any other file is read: it is deleted when its stored key matches the
//! wildcard key and no wildcard exclude key. A file that ends before its key
//! is left alone and the walk goes on.

use vstd::multiset::Multiset;
use vstd::prelude::*;
use vstd::string::StringSliceAdditionalSpecFns;

use crate::bytes::{byte_views, lemma_path_views_push, path_views, paths_equal};
use crate::cache_path::{cache_file_path_spec, create_cache_file_path};
use crate::cleanup::RelPath;
use crate::exact::keys_bytes;
use crate::levels::{levels_spec, parse_levels, valid_levels, LevelsError};
use crate::outcome::{AppResult, EntryKind, FileRemoval};
use crate::pattern::{compile_pattern, hit_key, is_match_all, key_matches, parse_key, wf_pattern, STAR};
use crate::stored_key::KeyScan;

verus! {

broadcast use vstd::seq_lib::group_to_multiset_ensures;

/// Whether a key holds a `*`.
pub open spec fn has_star(key: Seq<u8>) -> bool {
    key.contains(STAR)
}

/// The compiled exclude keys that hold a `*`, in order.
pub open spec fn exclude_patterns_spec(excludes: Seq<Seq<u8>>) -> Seq<Seq<Seq<u8>>>
    decreases excludes.len(),
{
    if excludes.len() == 0 {
        Seq::empty()
    } else {
        let before = exclude_patterns_spec(excludes.drop_last());
        if has_star(excludes.last()) {
            before.push(compile_pattern(excludes.last()))
        } else {
            before
        }
    }
}

/// The cache file paths of the exclude keys that hold no `*`, in order.
pub open spec fn exclude_paths_spec(levels: Seq<usize>, excludes: Seq<Seq<u8>>) -> Seq<RelPath>
    decreases excludes.len(),
{
    if excludes.len() == 0 {
        Seq::empty()
    } else {
        let before = exclude_paths_spec(levels, excludes.drop_last());
        if has_star(excludes.last()) {
            before
        } else {
            before.push(cache_file_path_spec(levels, excludes.last()))
        }
    }
}

/// Whether some exclude key with a `*` compiles to the pattern that matches
/// everything.
pub open spec fn excludes_everything(excludes: Seq<Seq<u8>>) -> bool {
    exists|j: int|
        0 <= j < excludes.len() && has_star(#[trigger] excludes[j]) && is_match_all(
            compile_pattern(excludes[j]),
        )
}

/// Whether a file with stored key `key` is to be deleted.
pub open spec fn removes_key(
    pattern: Seq<Seq<u8>>,
    exclude_patterns: Seq<Seq<Seq<u8>>>,
    key: Seq<u8>,
) -> bool {
    &&& !exists|j: int|
        0 <= j < exclude_patterns.len() && key_matches(key, #[trigger] exclude_patterns[j])
    &&& key_matches(key, pattern)
}

/// What a canonicalized cache root turned out to be.
#[derive(Debug, Clone, Copy, PartialEq, Eq, Structural)]
pub enum RootState {
    Directory,
    NotADirectory,
    Missing,
}

/// Why a wildcard purge could not start.
#[derive(Debug, Clone, Copy, PartialEq, Eq, Structural)]
pub enum WildcardError {
    /// The cache root exists but is not a directory.
    NotADirectory,
    Levels(LevelsError),
}

/// The literal exclude paths that no file has used up yet. Each one stands
/// for one file, and is used up by the first file found at that path.
pub struct ExcludePaths {
    paths: Vec<Vec<Vec<u8>>>,
}

impl View for ExcludePaths {
    type V = Multiset<RelPath>;

    /// The paths not used up yet, as a multiset.
    closed spec fn view(&self) -> Multiset<RelPath> {
        path_views(self.paths@).to_multiset()
    }
}

impl ExcludePaths {
    /// Uses up the exclude path equal to `path`, if there is one, and says
    /// whether there was.
    pub fn take(&mut self, path: &Vec<Vec<u8>>) -> (r: bool)
        ensures
            r == old(self)@.contains(byte_views(path@)),
            final(self)@ == if r {
                old(self)@.remove(byte_views(path@))
            } else {
                old(self)@
            },
    {
        let ghost views = path_views(self.paths@);
        let mut i: usize = 0;
        while i < self.paths.len()
            invariant
                i <= self.paths@.len(),
                views == path_views(self.paths@),
                self.paths@ == old(self).paths@,
                forall|k: int| 0 <= k < i ==> views[k] != byte_views(path@),
            decreases self.paths@.len() - i,
        {
            if paths_equal(&self.paths[i], path) {
                let ghost target = byte_views(path@);
                assert(views[i as int] == target);
                assert(views.contains(target));
                self.paths.remove(i);
                assert(path_views(self.paths@) =~= views.remove(i as int));
                assert(views.remove(i as int).to_multiset() =~= views.to_multiset().remove(target));
                return true;
            }
            i = i + 1;
        }
        assert(!views.contains(byte_views(path@)));
        false
    }

    /// How many exclude paths are left.
    pub fn len(&self) -> (r: usize)
        ensures
            r == self@.len(),
    {
        self.paths.len()
    }
}

/// What to do with an entry met on the walk.
#[derive(Debug, Clone, Copy, PartialEq, Eq, Structural)]
pub enum EntryAction {
    /// Walk into this directory, one level down.
    Descend,
    /// A file at the depth of the levels: check it.
    CheckFile,
    /// Leave it.
    Skip,
}

/// The read-only part of a wildcard purge, shared by every task of its walk.
pub struct WildcardWalk {
    number_of_levels: usize,
    keys: Vec<Vec<u8>>,
    exclude_key_keys: Vec<Vec<Vec<u8>>>,
}

impl WildcardWalk {
    pub closed spec fn depth(&self) -> nat {
        self.number_of_levels as nat
    }

    pub closed spec fn pattern(&self) -> Seq<Seq<u8>> {
        byte_views(self.keys@)
    }

    pub closed spec fn exclude_patterns(&self) -> Seq<Seq<Seq<u8>>> {
        path_views(self.exclude_key_keys@)
    }

    pub closed spec fn wf(&self) -> bool {
        &&& wf_pattern(self.pattern())
        &&& forall|j: int|
            0 <= j < self.exclude_patterns().len() ==> wf_pattern(
                #[trigger] self.exclude_patterns()[j],
            )
    }

    /// How many levels of directories lie above the cache files.
    pub fn number_of_levels(&self) -> (r: usize)
        ensures
            r == self.depth(),
    {
        self.number_of_levels
    }

    /// What to do with an entry of kind `kind` met `level` directories below
    /// the cache root.
    pub fn entry_action(&self, level: usize, kind: EntryKind) -> (r: EntryAction)
        ensures
            r == if level == self.depth() {
                if kind == EntryKind::File {
                    EntryAction::CheckFile
                } else {
                    EntryAction::Skip
                }
            } else if level < self.depth() && kind == EntryKind::Dir {
                EntryAction::Descend
            } else {
                EntryAction::Skip
            },
    {
        if level == self.number_of_levels {
            match kind {
                EntryKind::File => EntryAction::CheckFile,
                _ => EntryAction::Skip,
            }
        } else if level < self.number_of_levels {
            match kind {
                EntryKind::Dir => EntryAction::Descend,
                _ => EntryAction::Skip,
            }
        } else {
            EntryAction::Skip
        }
    }

    /// Whether a file whose stored key is `stored_key` is to be deleted: the
    /// key matches the wildcard key and no wildcard exclude key.
    pub fn should_remove(&self, stored_key: &[u8]) -> (r: bool)
        requires
            self.wf(),
        ensures
            r == removes_key(self.pattern(), self.exclude_patterns(), stored_key@),
    {
        let mut j: usize = 0;
        while j < self.exclude_key_keys.len()
            invariant
                self.wf(),
                j <= self.exclude_patterns().len(),
                forall|k: int|
                    0 <= k < j ==> !key_matches(stored_key@, #[trigger] self.exclude_patterns()[k]),
            decreases self.exclude_patterns().len() - j,
        {
            assert(self.exclude_patterns()[j as int] == byte_views(self.exclude_key_keys@[j as int]@));
            if hit_key(stored_key, &self.exclude_key_keys[j]) {
                return false;
            }
            j = j + 1;
        }
        hit_key(stored_key, &self.keys)
    }

    /// Whether the file whose first bytes read as `scan` is to be deleted. A
    /// file that ends before its key is kept.
    pub fn check_file(&self, scan: &KeyScan) -> (r: bool)
        requires
            self.wf(),
        ensures
            r == match scan {
                KeyScan::Found(k) => removes_key(self.pattern(), self.exclude_patterns(), k@),
                _ => false,
            },
    {
        match scan {
            KeyScan::Found(k) => self.should_remove(k.as_slice()),
            _ => false,
        }
    }
}

/// What a wildcard purge is to do.
pub enum WildcardPlan {
    /// Nothing: a wildcard exclude key covers every key, or the cache root is
    /// missing.
    Noop,
    /// Remove everything under the cache root.
    WipeAll,
    /// Walk the tree and check each cache file.
    Walk(WildcardWalk, ExcludePaths),
}

/// Plans a wildcard purge of `key` under the cache root (`root`, as
/// canonicalizing it found it) and the level specification `levels`.
pub fn remove_caches_via_wildcard(
    root: RootState,
    levels: &str,
    key: &str,
    exclude_keys: &Vec<String>,
) -> (r: Result<WildcardPlan, WildcardError>)
    ensures
        root == RootState::Missing ==> r matches Ok(WildcardPlan::Noop),
        root == RootState::NotADirectory ==> r == Err::<WildcardPlan, WildcardError>(
            WildcardError::NotADirectory,
        ),
        root == RootState::Directory ==> match levels_spec(levels.spec_bytes()) {
            Err(e) => r == Err::<WildcardPlan, WildcardError>(WildcardError::Levels(e)),
            Ok(lv) => {
                let excludes = keys_bytes(exclude_keys@);
                if excludes_everything(excludes) {
                    r matches Ok(WildcardPlan::Noop)
                } else if is_match_all(compile_pattern(key.spec_bytes())) && excludes.len() == 0 {
                    r matches Ok(WildcardPlan::WipeAll)
                } else {
                    &&& r matches Ok(WildcardPlan::Walk(walk, paths))
                    &&& walk.wf()
                    &&& walk.depth() == lv.len()
                    &&& walk.pattern() == compile_pattern(key.spec_bytes())
                    &&& walk.exclude_patterns() == exclude_patterns_spec(excludes)
                    &&& paths@ == exclude_paths_spec(lv, excludes).to_multiset()
                }
            },
        },
{
    match root {
        RootState::Missing => {
            return Ok(WildcardPlan::Noop);
        },
        RootState::NotADirectory => {
            return Err(WildcardError::NotADirectory);
        },
        RootState::Directory => {},
    }
    let level_list = match parse_levels(levels) {
        Ok(v) => v,
        Err(e) => {
            return Err(WildcardError::Levels(e));
        },
    };
    let ghost excludes = keys_bytes(exclude_keys@);
    let mut exclude_key_keys: Vec<Vec<Vec<u8>>> = Vec::new();
    let mut exclude_paths: Vec<Vec<Vec<u8>>> = Vec::new();
    let mut j: usize = 0;
    while j < exclude_keys.len()
        invariant
            j <= exclude_keys@.len(),
            excludes == keys_bytes(exclude_keys@),
            root == RootState::Directory,
            levels_spec(levels.spec_bytes()) == Ok::<Seq<usize>, LevelsError>(level_list@),
            valid_levels(level_list@),
            forall|k: int|
                0 <= k < j ==> !(has_star(#[trigger] excludes[k]) && is_match_all(
                    compile_pattern(excludes[k]),
                )),
            path_views(exclude_key_keys@) == exclude_patterns_spec(excludes.take(j as int)),
            forall|k: int|
                0 <= k < exclude_key_keys@.len() ==> wf_pattern(
                    #[trigger] byte_views(exclude_key_keys@[k]@),
                ),
            path_views(exclude_paths@) == exclude_paths_spec(level_list@, excludes.take(j as int)),
        decreases exclude_keys@.len() - j,
    {
        let exclude = exclude_keys[j].as_str();
        assert(exclude.spec_bytes() == excludes[j as int]);
        assert(excludes.take(j as int + 1).drop_last() =~= excludes.take(j as int));
        let exclude_bytes = exclude.as_bytes();
        if contains_star(exclude_bytes) {
            let pattern = parse_key(exclude);
            if pattern.len() == 1 && pattern[0].len() == 0 {
                assert(has_star(excludes[j as int]) && is_match_all(compile_pattern(excludes[j as int])));
                return Ok(WildcardPlan::Noop);
            }
            proof {
                lemma_path_views_push(exclude_key_keys@, pattern);
            }
            exclude_key_keys.push(pattern);
        } else {
            let path = create_cache_file_path(&level_list, exclude);
            proof {
                lemma_path_views_push(exclude_paths@, path);
            }
            exclude_paths.push(path);
        }
        j = j + 1;
    }
    assert(excludes.take(j as int) =~= excludes);
    assert(!excludes_everything(excludes));
    let keys = parse_key(key);
    if keys.len() == 1 && keys[0].len() == 0 && exclude_keys.len() == 0 {
        return Ok(WildcardPlan::WipeAll);
    }
    let walk = WildcardWalk { number_of_levels: level_list.len(), keys, exclude_key_keys };
    Ok(WildcardPlan::Walk(walk, ExcludePaths { paths: exclude_paths }))
}

/// Whether `bytes` holds a `*`.
pub fn contains_star(bytes: &[u8]) -> (r: bool)
    ensures
        r == has_star(bytes@),
{
    let mut k: usize = 0;
    while k < bytes.len()
        invariant
            k <= bytes@.len(),
            forall|i: int| 0 <= i < k ==> bytes@[i] != STAR,
        decreases bytes@.len() - k,
    {
        if bytes[k] == STAR {
            assert(bytes@[k as int] == STAR);
            return true;
        }
        k = k + 1;
    }
    false
}

/// What a walked file's deletion answered means for the purge: `Some(true)`
/// once the file is gone (also when it was gone already), `None` when the
/// deletion failed. After `Some(true)` the caller cleans up the directories
/// above the file.
pub fn leaf_removal(removal: FileRemoval) -> (r: Option<bool>)
    ensures
        r == match removal {
            FileRemoval::Failed => None::<bool>,
            _ => Some(true),
        },
{
    match removal {
        FileRemoval::Failed => None,
        _ => Some(true),
    }
}

/// The outcome of a wildcard or bulk purge that did or did not remove
/// something.
pub fn wildcard_outcome(removed: bool) -> (r: AppResult)
    ensures
        r == if removed {
            AppResult::Purged
        } else {
            AppResult::AlreadyPurgedWildcard
        },
{
    if removed {
        AppResult::Purged
    } else {
        AppResult::AlreadyPurgedWildcard
    }
}

} // verus!
