//! Purging one exact key.

use vstd::prelude::*;
use vstd::string::StringSliceAdditionalSpecFns;
use vstd::utf8::encode_utf8;

use crate::bytes::byte_views;
use crate::cache_path::{cache_file_path_spec, create_cache_file_path};
use crate::cleanup::RelPath;
use crate::levels::{levels_spec, parse_levels, valid_levels, LevelsError};
use crate::outcome::{AppResult, FileRemoval};
use crate::pattern::{compile_pattern, hit_key, key_matches, parse_key};

verus! {

/// The bytes of each key, in order.
pub open spec fn keys_bytes(keys: Seq<String>) -> Seq<Seq<u8>> {
    keys.map_values(|k: String| encode_utf8(k@))
}

/// Whether the exclude key `exclude` covers the exact key `key`: an empty
/// exclude key covers only the empty key; any other, read as a pattern,
/// covers the keys it matches.
pub open spec fn exclude_covers(exclude: Seq<u8>, key: Seq<u8>) -> bool {
    if exclude.len() == 0 {
        key.len() == 0
    } else {
        key_matches(key, compile_pattern(exclude))
    }
}

/// Whether some exclude key covers the exact key.
pub open spec fn excluded_exact(key: Seq<u8>, excludes: Seq<Seq<u8>>) -> bool {
    exists|j: int| 0 <= j < excludes.len() && exclude_covers(#[trigger] excludes[j], key)
}

/// What an exact purge is to do.
#[derive(Debug)]
pub enum ExactPurge {
    /// An exclude key covers the key: leave everything as it is.
    Ignored,
    /// Delete the file at `path` (relative to the cache root), then clean up
    /// `depth` directories above it.
    Remove { path: Vec<Vec<u8>>, depth: usize },
}

/// Plans the purge of the exact key `key` under the level specification
/// `levels`: `Ignored` if an exclude key covers it, else the file to delete.
pub fn remove_one_cache(levels: &str, key: &str, exclude_keys: &Vec<String>) -> (r: Result<
    ExactPurge,
    LevelsError,
>)
    ensures
        levels_spec(levels.spec_bytes()) matches Err(e) ==> r == Err::<ExactPurge, LevelsError>(e),
        levels_spec(levels.spec_bytes()) matches Ok(lv) ==> match r {
            Ok(ExactPurge::Ignored) => excluded_exact(key.spec_bytes(), keys_bytes(exclude_keys@)),
            Ok(ExactPurge::Remove { path, depth }) => {
                &&& !excluded_exact(key.spec_bytes(), keys_bytes(exclude_keys@))
                &&& byte_views(path@) == cache_file_path_spec(lv, key.spec_bytes())
                &&& depth == lv.len()
            },
            Err(_) => false,
        },
{
    let level_list = parse_levels(levels)?;
    let key_bytes = key.as_bytes();
    let ghost excludes = keys_bytes(exclude_keys@);
    let mut j: usize = 0;
    while j < exclude_keys.len()
        invariant
            j <= exclude_keys@.len(),
            excludes == keys_bytes(exclude_keys@),
            key_bytes@ == key.spec_bytes(),
            levels_spec(levels.spec_bytes()) == Ok::<Seq<usize>, LevelsError>(level_list@),
            valid_levels(level_list@),
            forall|i: int| 0 <= i < j ==> !exclude_covers(#[trigger] excludes[i], key_bytes@),
        decreases exclude_keys@.len() - j,
    {
        let exclude = exclude_keys[j].as_str();
        assert(exclude.spec_bytes() == excludes[j as int]);
        if exclude.as_bytes().len() == 0 {
            if key_bytes.len() == 0 {
                assert(exclude_covers(excludes[j as int], key_bytes@));
                return Ok(ExactPurge::Ignored);
            }
        } else {
            let pattern = parse_key(exclude);
            if hit_key(key_bytes, &pattern) {
                assert(exclude_covers(excludes[j as int], key_bytes@));
                return Ok(ExactPurge::Ignored);
            }
        }
        j = j + 1;
    }
    let path = create_cache_file_path(&level_list, key);
    Ok(ExactPurge::Remove { path, depth: level_list.len() })
}

/// The outcome of an exact purge once deleting its file at `path` answered
/// `removal`; `None` when the deletion failed. After `Removed`, the caller
/// still cleans up the directories above the file.
pub fn exact_outcome(path: Vec<Vec<u8>>, removal: FileRemoval) -> (r: Option<AppResult>)
    ensures
        removal == FileRemoval::Removed ==> r == Some(AppResult::Purged),
        removal == FileRemoval::NotFound ==> (r matches Some(AppResult::AlreadyPurged(p))
            && byte_views(p@) == byte_views(path@)),
        removal == FileRemoval::Failed ==> r is None,
{
    match removal {
        FileRemoval::Removed => Some(AppResult::Purged),
        FileRemoval::NotFound => Some(AppResult::AlreadyPurged(path)),
        FileRemoval::Failed => None,
    }
}

} // verus!
