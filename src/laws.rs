//! Properties that relate several calls of the engine.

use vstd::multiset::Multiset;
use vstd::prelude::*;

use crate::cache_path::cache_file_path_spec;
use crate::cleanup::{
    ancestors, dir_removal_model, holds, prefixes, purge_file_model, run_cleanup, RelPath,
};
use crate::exact::{exclude_covers, excluded_exact};
use crate::levels::valid_levels;
use crate::outcome::{DirRemoval, FileRemoval};
use crate::pattern::{compile_pattern, is_match_all, key_matches, match_from, segments, STAR};
use crate::wildcard::{excludes_everything, has_star, removes_key};
use crate::wipe::{any_removed, first_failure};

verus! {

/// Cleaning up only removes directories it was asked to try.
proof fn lemma_run_cleanup_removes_only_pending(tree: Set<RelPath>, pending: Seq<RelPath>)
    ensures
        run_cleanup(tree, pending).subset_of(tree),
        forall|e: RelPath|
            tree.contains(e) && !pending.contains(e) ==> #[trigger] run_cleanup(
                tree,
                pending,
            ).contains(e),
    decreases pending.len(),
{
    if pending.len() > 0 {
        let outcome = dir_removal_model(tree, pending[0]);
        if outcome == DirRemoval::Removed {
            let rest = pending.drop_first();
            lemma_run_cleanup_removes_only_pending(tree.remove(pending[0]), rest);
            assert forall|e: RelPath|
                tree.contains(e) && !pending.contains(e) implies #[trigger] run_cleanup(
                tree,
                pending,
            ).contains(e) by {
                if rest.contains(e) {
                    let k = choose|k: int| 0 <= k < rest.len() && rest[k] == e;
                    assert(pending[k + 1] == e);
                }
                assert(e != pending[0]);
            }
        }
    }
}

/// The directories above a file are proper prefixes of its path.
proof fn lemma_ancestors_hold(path: RelPath, depth: int, e: RelPath)
    requires
        0 <= depth < path.len(),
        ancestors(path, depth).contains(e),
    ensures
        holds(e, path),
{
    let k = choose|k: int| 0 <= k < depth && ancestors(path, depth)[k] == e;
    assert(e == path.take(path.len() - 1 - k));
    assert(path.take(e.len() as int) =~= e);
}

/// Round trip of an exact purge. The cache file of an exact key that was
/// never cached is not found, and nothing changes. Once a file is placed at
/// the key's derived path, purging deletes it and, of everything else, at most
/// the emptied directories above it. Purging once more finds nothing again.
/// (`exact_outcome` reports a deleted file as `Purged` and a missing one as
/// `AlreadyPurged` with its path.)
pub proof fn lemma_exact_purge_round_trip(tree: Set<RelPath>, levels: Seq<usize>, key: Seq<u8>)
    requires
        valid_levels(levels),
        !tree.contains(cache_file_path_spec(levels, key)),
    ensures
        ({
            let path = cache_file_path_spec(levels, key);
            let depth = levels.len() as int;
            let placed = tree + prefixes(path);
            let (after, removal) = purge_file_model(placed, path, depth);
            &&& purge_file_model(tree, path, depth) == (tree, FileRemoval::NotFound)
            &&& removal == FileRemoval::Removed
            &&& !after.contains(path)
            &&& after.subset_of(placed)
            &&& forall|e: RelPath|
                placed.contains(e) && e != path && !holds(e, path) ==> #[trigger] after.contains(
                    e,
                )
            &&& purge_file_model(after, path, depth).1 == FileRemoval::NotFound
        }),
{
    let path = cache_file_path_spec(levels, key);
    let depth = levels.len() as int;
    let placed = tree + prefixes(path);
    assert(prefixes(path).contains(path)) by {
        assert(path.take(path.len() as int) =~= path);
    }
    let pending = ancestors(path, depth);
    lemma_run_cleanup_removes_only_pending(placed.remove(path), pending);
    let after = run_cleanup(placed.remove(path), pending);
    assert forall|e: RelPath|
        placed.contains(e) && e != path && !holds(e, path) implies #[trigger] after.contains(e) by {
        if pending.contains(e) {
            lemma_ancestors_hold(path, depth, e);
        }
    }
}

proof fn lemma_segments_of_plain_key(key: Seq<u8>)
    requires
        key.len() > 0,
        !has_star(key),
    ensures
        segments(key) == seq![key],
    decreases key.len(),
{
    let before = key.drop_last();
    assert(key.last() != STAR) by {
        assert(key[key.len() - 1] == key.last());
    }
    if before.len() > 0 {
        assert(!has_star(before)) by {
            if before.contains(STAR) {
                let i = choose|i: int| 0 <= i < before.len() && before[i] == STAR;
                assert(key[i] == STAR);
            }
        }
        lemma_segments_of_plain_key(before);
        assert(before.push(key.last()) =~= key);
        assert(seq![before].update(0, before.push(key.last())) =~= seq![key]);
    } else {
        assert(segments(before) == Seq::<Seq<u8>>::empty());
        assert(seq![key.last()] =~= key);
        assert(Seq::<Seq<u8>>::empty().push(seq![key.last()]) =~= seq![key]);
    }
}

/// An exclude key equal to the exact key (one without `*`) always covers it,
/// so an exact purge of that key is `Ignored` and touches nothing.
pub proof fn lemma_exact_exclude_precedence(key: Seq<u8>, excludes: Seq<Seq<u8>>)
    requires
        !has_star(key),
        excludes.contains(key),
    ensures
        excluded_exact(key, excludes),
{
    let j = choose|j: int| 0 <= j < excludes.len() && excludes[j] == key;
    if key.len() > 0 {
        lemma_segments_of_plain_key(key);
        let pattern = compile_pattern(key);
        assert(key.subrange(0, key.len() as int) =~= pattern[0]);
        assert(match_from(key, pattern, key.len() as int, 1));
        assert(key_matches(key, pattern));
    }
    assert(exclude_covers(excludes[j], key));
}

/// Under a wildcard purge, a file whose stored key matches a wildcard exclude
/// key is never deleted, whatever the wildcard key.
pub proof fn lemma_wildcard_exclude_precedence(
    pattern: Seq<Seq<u8>>,
    exclude_patterns: Seq<Seq<Seq<u8>>>,
    key: Seq<u8>,
    j: int,
)
    requires
        0 <= j < exclude_patterns.len(),
        key_matches(key, exclude_patterns[j]),
    ensures
        !removes_key(pattern, exclude_patterns, key),
{
}

/// A request of nothing but `*` with no exclude keys is a bulk wipe: its key
/// compiles to the pattern that matches everything, no exclude key stops it,
/// and a wipe of an empty cache root fails nowhere and removes nothing, so it
/// reports "nothing to purge".
pub proof fn lemma_full_wildcard_wipes(key: Seq<u8>)
    requires
        key.len() > 0,
        forall|i: int| 0 <= i < key.len() ==> key[i] == STAR,
    ensures
        is_match_all(compile_pattern(key)),
        !excludes_everything(Seq::<Seq<u8>>::empty()),
        first_failure(Seq::<FileRemoval>::empty()) is None,
        !any_removed(Seq::<FileRemoval>::empty()),
    decreases key.len(),
{
    assert(key.last() == key[key.len() - 1]);
    if key.len() > 1 {
        lemma_full_wildcard_wipes(key.drop_last());
        assert(compile_pattern(key.drop_last()) == segments(key.drop_last()));
        assert(segments(key.drop_last())[0] =~= Seq::<u8>::empty());
        assert(segments(key) == segments(key.drop_last()));
    } else {
        assert(key.drop_last() =~= Seq::<u8>::empty());
        assert(segments(key.drop_last()) == Seq::<Seq<u8>>::empty());
    }
    assert(segments(key) =~= seq![Seq::<u8>::empty()]);
}

/// The answers that exclude paths `m` give to the files at `paths`, taken in
/// that order.
pub open spec fn take_all(m: Multiset<RelPath>, paths: Seq<RelPath>) -> Seq<bool>
    decreases paths.len(),
{
    if paths.len() == 0 {
        Seq::empty()
    } else {
        let found = m.contains(paths[0]);
        let rest = if found {
            m.remove(paths[0])
        } else {
            m
        };
        seq![found] + take_all(rest, paths.drop_first())
    }
}

/// However the tasks of a wildcard purge interleave, each file is skipped
/// exactly when its path was among the exclude paths at the start: taking
/// the exclude paths for distinct files, in any order, gives each file the
/// answer the initial collection gives.
pub proof fn lemma_take_order_independent(m: Multiset<RelPath>, paths: Seq<RelPath>)
    requires
        paths.no_duplicates(),
    ensures
        take_all(m, paths).len() == paths.len(),
        forall|i: int|
            0 <= i < paths.len() ==> #[trigger] take_all(m, paths)[i] == m.contains(paths[i]),
    decreases paths.len(),
{
    if paths.len() > 0 {
        let found = m.contains(paths[0]);
        let rest = if found {
            m.remove(paths[0])
        } else {
            m
        };
        let tail = paths.drop_first();
        lemma_take_order_independent(rest, tail);
        assert forall|i: int| 0 <= i < paths.len() implies #[trigger] take_all(m, paths)[i]
            == m.contains(paths[i]) by {
            if i > 0 {
                assert(take_all(m, paths)[i] == take_all(rest, tail)[i - 1]);
                assert(tail[i - 1] == paths[i]);
                assert(paths[i] != paths[0]);
                assert(rest.contains(paths[i]) == m.contains(paths[i]));
            }
        }
    }
}

/// Cleanup never tries the cache root: every directory it tries lies below it.
proof fn lemma_ancestors_below_root(path: RelPath, depth: int)
    requires
        0 <= depth < path.len(),
    ensures
        forall|k: int| 0 <= k < depth ==> (#[trigger] ancestors(path, depth)[k]).len() >= 1,
{
}

/// Deleting a cache file whose directory holds another entry removes the
/// file and nothing else: the cleanup stops at that directory.
pub proof fn lemma_cleanup_keeps_shared_directory(tree: Set<RelPath>, file: RelPath, other: RelPath)
    requires
        file.len() >= 2,
        tree.contains(file),
        tree.contains(other),
        other != file,
        holds(file.drop_last(), other),
    ensures
        purge_file_model(tree, file, file.len() - 1) == (tree.remove(file), FileRemoval::Removed),
{
    let left = tree.remove(file);
    let pending = ancestors(file, file.len() - 1);
    assert(pending[0] =~= file.drop_last());
    assert(left.contains(other));
    assert(dir_removal_model(left, pending[0]) != DirRemoval::Removed);
}

proof fn lemma_run_cleanup_removes_chain(rest: Set<RelPath>, file: RelPath, m: int)
    requires
        1 <= m < file.len(),
        forall|e: RelPath|
            #[trigger] rest.contains(e) ==> !(e.len() >= 1 && e[0] == file[0]),
    ensures
        run_cleanup(
            rest + Set::new(|e: RelPath| 1 <= e.len() <= m && e == file.take(e.len() as int)),
            Seq::new(m as nat, |k: int| file.take(m - k)),
        ) == rest,
    decreases m,
{
    let chain = Set::new(|e: RelPath| 1 <= e.len() <= m && e == file.take(e.len() as int));
    let tree = rest + chain;
    let pending = Seq::new(m as nat, |k: int| file.take(m - k));
    let top = file.take(m);
    assert(top.len() == m);
    assert(chain.contains(top)) by {
        assert(top =~= file.take(top.len() as int));
    }
    assert forall|e: RelPath| tree.contains(e) implies !#[trigger] holds(top, e) by {
        if holds(top, e) {
            assert(e.take(m) == top);
            assert(e[0] == e.take(m)[0]);
            assert(top[0] == file[0]);
        }
    }
    assert(dir_removal_model(tree, top) == DirRemoval::Removed);
    assert(!rest.contains(top)) by {
        assert(top[0] == file[0]);
    }
    assert(pending[0] == top);
    assert(run_cleanup(tree, pending) == run_cleanup(tree.remove(top), pending.drop_first()));
    if m == 1 {
        assert(tree.remove(top) =~= rest);
        assert(pending.drop_first() =~= Seq::<RelPath>::empty());
        assert(run_cleanup(rest, Seq::<RelPath>::empty()) == rest);
    } else {
        let smaller = Set::new(
            |e: RelPath| 1 <= e.len() <= m - 1 && e == file.take(e.len() as int),
        );
        assert(tree.remove(top) =~= rest + smaller);
        assert(pending.drop_first() =~= Seq::new((m - 1) as nat, |k: int| file.take(m - 1 - k)));
        lemma_run_cleanup_removes_chain(rest, file, m - 1);
    }
}

/// Deleting a cache file that is the last entry under its first directory
/// removes the file and every directory above it, up to the cache root, and
/// leaves everything else.
pub proof fn lemma_cleanup_removes_emptied_directories(tree: Set<RelPath>, file: RelPath)
    requires
        file.len() >= 2,
        prefixes(file).subset_of(tree),
        forall|e: RelPath|
            tree.contains(e) && e.len() >= 1 && e[0] == file[0] ==> #[trigger] prefixes(
                file,
            ).contains(e),
    ensures
        purge_file_model(tree, file, file.len() - 1) == (
            tree.difference(prefixes(file)),
            FileRemoval::Removed,
        ),
{
    let m = file.len() - 1;
    assert(prefixes(file).contains(file)) by {
        assert(file.take(file.len() as int) =~= file);
    }
    let rest = tree.difference(prefixes(file));
    let chain = Set::new(|e: RelPath| 1 <= e.len() <= m && e == file.take(e.len() as int));
    assert(tree.remove(file) =~= rest + chain);
    assert(ancestors(file, m) =~= Seq::new(m as nat, |k: int| file.take(m - k)));
    assert forall|e: RelPath| #[trigger] rest.contains(e) implies !(e.len() >= 1 && e[0]
        == file[0]) by {}
    lemma_run_cleanup_removes_chain(rest, file, m);
}

proof fn lemma_cache_file_path_len(levels: Seq<usize>, key: Seq<u8>)
    ensures
        cache_file_path_spec(levels, key).len() == levels.len() + 1,
{
}

/// Two exact purges of keys whose cache files share a directory. The first
/// purge deletes its file and leaves every directory, since the other file
/// still lives there. If nothing else lives under their first directory, the
/// second purge then deletes the other file and every directory above it, up
/// to the cache root, which is never tried.
pub proof fn lemma_exact_purges_sharing_a_directory(
    tree: Set<RelPath>,
    levels: Seq<usize>,
    first_key: Seq<u8>,
    second_key: Seq<u8>,
)
    requires
        valid_levels(levels),
        cache_file_path_spec(levels, first_key) != cache_file_path_spec(levels, second_key),
        cache_file_path_spec(levels, first_key).drop_last() == cache_file_path_spec(
            levels,
            second_key,
        ).drop_last(),
        prefixes(cache_file_path_spec(levels, first_key)).subset_of(tree),
        prefixes(cache_file_path_spec(levels, second_key)).subset_of(tree),
    ensures
        ({
            let first = cache_file_path_spec(levels, first_key);
            let second = cache_file_path_spec(levels, second_key);
            let depth = levels.len() as int;
            &&& purge_file_model(tree, first, depth) == (tree.remove(first), FileRemoval::Removed)
            &&& (forall|e: RelPath|
                tree.contains(e) && e.len() >= 1 && e[0] == first[0] ==> #[trigger] prefixes(
                    first,
                ).contains(e) || prefixes(second).contains(e)) ==> purge_file_model(
                tree.remove(first),
                second,
                depth,
            ) == (tree.remove(first).difference(prefixes(second)), FileRemoval::Removed)
            &&& forall|k: int| 0 <= k < depth ==> (#[trigger] ancestors(first, depth)[k]).len() >= 1
            &&& forall|k: int| 0 <= k < depth ==> (#[trigger] ancestors(second, depth)[k]).len() >= 1
        }),
{
    let first = cache_file_path_spec(levels, first_key);
    let second = cache_file_path_spec(levels, second_key);
    let depth = levels.len() as int;
    lemma_cache_file_path_len(levels, first_key);
    lemma_cache_file_path_len(levels, second_key);
    assert(prefixes(first).contains(first)) by {
        assert(first.take(first.len() as int) =~= first);
    }
    assert(prefixes(second).contains(second)) by {
        assert(second.take(second.len() as int) =~= second);
    }
    assert(holds(first.drop_last(), second)) by {
        assert(second.take(first.drop_last().len() as int) =~= second.drop_last());
    }
    lemma_cleanup_keeps_shared_directory(tree, first, second);
    lemma_ancestors_below_root(first, depth);
    lemma_ancestors_below_root(second, depth);
    if forall|e: RelPath|
        tree.contains(e) && e.len() >= 1 && e[0] == first[0] ==> #[trigger] prefixes(
            first,
        ).contains(e) || prefixes(second).contains(e) {
        let left = tree.remove(first);
        assert(prefixes(second).subset_of(left)) by {
            assert forall|e: RelPath| prefixes(second).contains(e) implies left.contains(e) by {
                if e == first {
                    assert(e.len() == second.len());
                    assert(second.take(e.len() as int) =~= second);
                }
            }
        }
        assert(second[0] == first[0]) by {
            assert(second.drop_last()[0] == first.drop_last()[0]);
        }
        assert forall|e: RelPath|
            left.contains(e) && e.len() >= 1 && e[0] == second[0] implies #[trigger] prefixes(
            second,
        ).contains(e) by {
            if prefixes(first).contains(e) {
                assert(e != first);
                assert(e.len() < first.len());
                assert(first.take(e.len() as int) =~= second.take(e.len() as int)) by {
                    assert(first.take(e.len() as int) =~= first.drop_last().take(e.len() as int));
                    assert(second.take(e.len() as int) =~= second.drop_last().take(e.len() as int));
                }
            }
        }
        lemma_cleanup_removes_emptied_directories(left, second);
    }
}

/// The tree once every direct child of the cache root has been removed, each
/// directory with everything in it. The cache root is the empty path.
pub open spec fn wipe_model(tree: Set<RelPath>) -> Set<RelPath> {
    Set::new(|e: RelPath| tree.contains(e) && !(e.len() >= 1 && tree.contains(e.take(1))))
}

/// Every entry of the tree sits under a direct child of the cache root that
/// the tree holds, as in any directory tree.
pub open spec fn rooted(tree: Set<RelPath>) -> bool {
    forall|e: RelPath| #[trigger] tree.contains(e) && e.len() >= 1 ==> tree.contains(e.take(1))
}

/// A full wipe removes every entry under the cache root, whatever its depth,
/// and keeps the root itself. When every removal succeeds, it fails nowhere
/// and reports a purge exactly when there was something to remove.
pub proof fn lemma_full_wipe_empties_the_root(tree: Set<RelPath>, outcomes: Seq<FileRemoval>)
    requires
        rooted(tree),
        forall|i: int| 0 <= i < outcomes.len() ==> outcomes[i] == FileRemoval::Removed,
    ensures
        wipe_model(tree).subset_of(set![Seq::<Seq<u8>>::empty()]),
        wipe_model(tree).contains(Seq::<Seq<u8>>::empty()) == tree.contains(Seq::<Seq<u8>>::empty()),
        first_failure(outcomes) is None,
        any_removed(outcomes) == (outcomes.len() > 0),
        (exists|e: RelPath| tree.contains(e) && e.len() >= 1) ==> exists|child: RelPath|
            #[trigger] tree.contains(child) && child.len() == 1,
{
    assert forall|e: RelPath| wipe_model(tree).contains(e) implies set![
        Seq::<Seq<u8>>::empty(),
    ].contains(e) by {
        if e.len() >= 1 {
            assert(tree.contains(e.take(1)));
        } else {
            assert(e =~= Seq::<Seq<u8>>::empty());
        }
    }
    if outcomes.len() > 0 {
        assert(outcomes[0] == FileRemoval::Removed);
    }
    if exists|e: RelPath| tree.contains(e) && e.len() >= 1 {
        let e = choose|e: RelPath| tree.contains(e) && e.len() >= 1;
        assert(tree.contains(e.take(1)) && e.take(1).len() == 1);
    }
}

/// Which files a wildcard walk deletes, visiting the files at `paths`, with
/// stored keys `keys`, in that order: a file is deleted when no exclude path
/// was left for it and its key is to be removed.
pub open spec fn walk_removals(
    m: Multiset<RelPath>,
    pattern: Seq<Seq<u8>>,
    exclude_patterns: Seq<Seq<Seq<u8>>>,
    paths: Seq<RelPath>,
    keys: Seq<Seq<u8>>,
) -> Seq<bool> {
    let taken = take_all(m, paths);
    Seq::new(
        paths.len(),
        |i: int| !taken[i] && removes_key(pattern, exclude_patterns, keys[i]),
    )
}

/// A wildcard walk deletes exactly the files that are not excluded by path
/// and whose stored key is to be removed, whatever order its tasks reach the
/// files in; and so whether it removed anything, the purge's outcome, is the
/// same for every order.
pub proof fn lemma_walk_removes_exactly_matching(
    m: Multiset<RelPath>,
    pattern: Seq<Seq<u8>>,
    exclude_patterns: Seq<Seq<Seq<u8>>>,
    paths: Seq<RelPath>,
    keys: Seq<Seq<u8>>,
    order: Seq<int>,
)
    requires
        paths.no_duplicates(),
        keys.len() == paths.len(),
        order.len() == paths.len(),
        order.no_duplicates(),
        forall|i: int| 0 <= i < order.len() ==> 0 <= #[trigger] order[i] < paths.len(),
    ensures
        ({
            let removed = walk_removals(m, pattern, exclude_patterns, paths, keys);
            let reordered = walk_removals(
                m,
                pattern,
                exclude_patterns,
                Seq::new(paths.len(), |i: int| paths[order[i]]),
                Seq::new(paths.len(), |i: int| keys[order[i]]),
            );
            &&& forall|i: int|
                0 <= i < paths.len() ==> #[trigger] removed[i] == (!m.contains(paths[i])
                    && removes_key(pattern, exclude_patterns, keys[i]))
            &&& forall|i: int| 0 <= i < paths.len() ==> #[trigger] reordered[i] == removed[order[i]]
            &&& (exists|i: int| 0 <= i < paths.len() && #[trigger] reordered[i]) == (exists|i: int|
                0 <= i < paths.len() && #[trigger] removed[i])
        }),
{
    let removed = walk_removals(m, pattern, exclude_patterns, paths, keys);
    let paths2 = Seq::new(paths.len(), |i: int| paths[order[i]]);
    let keys2 = Seq::new(paths.len(), |i: int| keys[order[i]]);
    let reordered = walk_removals(m, pattern, exclude_patterns, paths2, keys2);
    lemma_take_order_independent(m, paths);
    assert(paths2.no_duplicates()) by {
        assert forall|i: int, j: int| 0 <= i < paths2.len() && 0 <= j < paths2.len() && i != j
            implies paths2[i] != paths2[j] by {
            assert(order[i] != order[j]);
        }
    }
    lemma_take_order_independent(m, paths2);
    assert forall|i: int| 0 <= i < paths.len() implies #[trigger] reordered[i] == removed[order[i]] by {
        assert(0 <= order[i] < paths.len());
    }
    if exists|i: int| 0 <= i < paths.len() && #[trigger] reordered[i] {
        let i = choose|i: int| 0 <= i < paths.len() && #[trigger] reordered[i];
        assert(removed[order[i]]);
    }
    if exists|i: int| 0 <= i < paths.len() && #[trigger] removed[i] {
        let j = choose|j: int| 0 <= j < paths.len() && #[trigger] removed[j];
        // `order` is a permutation of the positions, so it reaches `j`.
        lemma_permutation_reaches(order, paths.len() as int, j);
        let i = choose|i: int| 0 <= i < order.len() && order[i] == j;
        assert(reordered[i]);
    }
}

/// A sequence of `n` distinct positions below `n` reaches every position.
proof fn lemma_permutation_reaches(order: Seq<int>, n: int, j: int)
    requires
        order.len() == n,
        order.no_duplicates(),
        forall|i: int| 0 <= i < order.len() ==> 0 <= #[trigger] order[i] < n,
        0 <= j < n,
    ensures
        exists|i: int| 0 <= i < order.len() && order[i] == j,
{
    let values = order.to_set();
    order.unique_seq_to_set();
    assert(values.subset_of(Set::new(|x: int| 0 <= x < n)));
    vstd::set_lib::lemma_int_range(0, n);
    let range = Set::new(|x: int| 0 <= x < n);
    assert(range =~= vstd::set_lib::set_int_range(0, n));
    vstd::set_lib::lemma_len_subset(values, range);
    if !values.contains(j) {
        vstd::set_lib::lemma_len_subset(values, range.remove(j));
    }
}

} // verus!
