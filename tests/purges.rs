use nginx_cache_purge::cache_path::create_cache_file_path;
use nginx_cache_purge::cleanup::{AncestorCleanup, CleanupStep};
use nginx_cache_purge::exact::{exact_outcome, remove_one_cache, ExactPurge};
use nginx_cache_purge::levels::LevelsError;
use nginx_cache_purge::outcome::{AppResult, DirRemoval, EntryKind, FileRemoval};
use nginx_cache_purge::stored_key::KeyScan;
use nginx_cache_purge::wildcard::{
    leaf_removal, remove_caches_via_wildcard, wildcard_outcome, EntryAction, RootState,
    WildcardError, WildcardPlan,
};
use nginx_cache_purge::wipe::{remove_all_files_in_directory, wipe_action, WipeAction};

fn b(s: &str) -> Vec<u8> {
    s.as_bytes().to_vec()
}

fn strings(keys: &[&str]) -> Vec<String> {
    keys.iter().map(|k| k.to_string()).collect()
}

fn path_of(levels: &[usize], key: &str) -> Vec<Vec<u8>> {
    create_cache_file_path(&levels.to_vec(), key)
}

#[test]
fn exact_purge_plans_the_derived_path() {
    match remove_one_cache("1:2", "http/blog/", &Vec::new()).unwrap() {
        ExactPurge::Remove { path, depth } => {
            assert_eq!(path, vec![b("e"), b("24"), b("4f5f52e61ad0375caef922053e9a824e")]);
            assert_eq!(depth, 2);
        },
        ExactPurge::Ignored => panic!("not excluded"),
    }
}

#[test]
fn exact_purge_round_trip() {
    let path = path_of(&[1, 2], "http/blog/");
    // Never cached: the file is not found.
    assert_eq!(
        exact_outcome(path.clone(), FileRemoval::NotFound),
        Some(AppResult::AlreadyPurged(path.clone()))
    );
    // Placed, then purged.
    assert_eq!(exact_outcome(path.clone(), FileRemoval::Removed), Some(AppResult::Purged));
    // Purged again: gone.
    assert_eq!(
        exact_outcome(path.clone(), FileRemoval::NotFound),
        Some(AppResult::AlreadyPurged(path.clone()))
    );
    assert_eq!(exact_outcome(path, FileRemoval::Failed), None);
}

#[test]
fn exact_purge_literal_exclude_equal_to_key_is_ignored() {
    let plan = remove_one_cache("1:2", "http/blog/", &strings(&["other", "http/blog/"]));
    assert!(matches!(plan, Ok(ExactPurge::Ignored)));
}

#[test]
fn exact_purge_wildcard_exclude_covers_key() {
    let plan = remove_one_cache("1", "http/static/a.css", &strings(&["http/static/*"]));
    assert!(matches!(plan, Ok(ExactPurge::Ignored)));
    let plan = remove_one_cache("1", "http/blog/", &strings(&["http/static/*"]));
    assert!(matches!(plan, Ok(ExactPurge::Remove { .. })));
}

#[test]
fn exact_purge_empty_exclude_and_key() {
    assert!(matches!(remove_one_cache("1", "", &strings(&[""])), Ok(ExactPurge::Ignored)));
    // An empty exclude key covers only the empty key.
    assert!(matches!(remove_one_cache("1", "k", &strings(&[""])), Ok(ExactPurge::Remove { .. })));
    assert!(matches!(remove_one_cache("1", "", &strings(&["k"])), Ok(ExactPurge::Remove { .. })));
}

#[test]
fn exact_purge_bad_levels() {
    assert!(matches!(remove_one_cache("1:3", "k", &Vec::new()), Err(LevelsError::OutOfRange)));
    assert!(matches!(remove_one_cache("1:1:1:1", "k", &strings(&["k"])), Err(LevelsError::TooManyLevels)));
}

#[test]
fn outcome_exit_codes() {
    assert_eq!(AppResult::Purged.exit_code(), 0);
    assert_eq!(AppResult::CacheIgnored.exit_code(), 44);
    assert_eq!(AppResult::AlreadyPurgedWildcard.exit_code(), 44);
    assert_eq!(AppResult::AlreadyPurged(Vec::new()).exit_code(), 44);
}

#[test]
fn cleanup_stops_at_a_directory_still_in_use() {
    let first = vec![b("e"), b("24"), b("aaa")];
    let mut cleanup = AncestorCleanup::new(&first, 2);
    assert_eq!(cleanup.next_dir(), Some(vec![b("e"), b("24")]));
    assert_eq!(cleanup.record(DirRemoval::NotEmpty), CleanupStep::Stop);
    assert_eq!(cleanup.next_dir(), None);
}

#[test]
fn cleanup_removes_up_to_the_root() {
    let second = vec![b("e"), b("24"), b("bbb")];
    let mut cleanup = AncestorCleanup::new(&second, 2);
    assert_eq!(cleanup.next_dir(), Some(vec![b("e"), b("24")]));
    assert_eq!(cleanup.record(DirRemoval::Removed), CleanupStep::Continue);
    assert_eq!(cleanup.next_dir(), Some(vec![b("e")]));
    assert_eq!(cleanup.record(DirRemoval::Removed), CleanupStep::Continue);
    assert_eq!(cleanup.next_dir(), None);
}

#[test]
fn cleanup_gone_directory_stops_and_failure_fails() {
    let path = vec![b("1"), b("2"), b("3"), b("f")];
    let mut cleanup = AncestorCleanup::new(&path, 3);
    assert_eq!(cleanup.record(DirRemoval::NotFound), CleanupStep::Stop);
    assert_eq!(cleanup.next_dir(), None);
    let mut cleanup = AncestorCleanup::new(&path, 3);
    assert_eq!(cleanup.record(DirRemoval::Removed), CleanupStep::Continue);
    assert_eq!(cleanup.record(DirRemoval::Failed), CleanupStep::Fail);
    assert_eq!(cleanup.next_dir(), None);
}

#[test]
fn full_wildcard_without_excludes_wipes() {
    let plan = remove_caches_via_wildcard(RootState::Directory, "1", "*", &Vec::new());
    assert!(matches!(plan, Ok(WildcardPlan::WipeAll)));
}

#[test]
fn full_wildcard_with_excludes_walks() {
    let plan = remove_caches_via_wildcard(RootState::Directory, "2", "*", &strings(&["http/static/*"]));
    assert!(matches!(plan, Ok(WildcardPlan::Walk(_, _))));
}

#[test]
fn wipe_of_empty_root_is_a_noop() {
    let r = remove_all_files_in_directory(&Vec::new());
    assert_eq!(r, Ok(false));
    assert_eq!(wildcard_outcome(false), AppResult::AlreadyPurgedWildcard);
    assert_eq!(wildcard_outcome(true), AppResult::Purged);
}

#[test]
fn wipe_results() {
    assert_eq!(
        remove_all_files_in_directory(&vec![FileRemoval::NotFound, FileRemoval::Removed]),
        Ok(true)
    );
    assert_eq!(remove_all_files_in_directory(&vec![FileRemoval::NotFound]), Ok(false));
    assert_eq!(
        remove_all_files_in_directory(&vec![
            FileRemoval::Removed,
            FileRemoval::Failed,
            FileRemoval::Failed
        ]),
        Err(1)
    );
}

#[test]
fn wipe_actions() {
    assert_eq!(wipe_action(EntryKind::Dir), WipeAction::RemoveDirAll);
    assert_eq!(wipe_action(EntryKind::File), WipeAction::RemoveFile);
    assert_eq!(wipe_action(EntryKind::Other), WipeAction::RemoveFile);
    assert_eq!(wipe_action(EntryKind::Vanished), WipeAction::Skip);
}

#[test]
fn wildcard_root_states() {
    assert!(matches!(
        remove_caches_via_wildcard(RootState::Missing, "9", "*", &Vec::new()),
        Ok(WildcardPlan::Noop)
    ));
    assert!(matches!(
        remove_caches_via_wildcard(RootState::NotADirectory, "1", "*", &Vec::new()),
        Err(WildcardError::NotADirectory)
    ));
    assert!(matches!(
        remove_caches_via_wildcard(RootState::Directory, "9", "*", &Vec::new()),
        Err(WildcardError::Levels(LevelsError::OutOfRange))
    ));
}

#[test]
fn wildcard_exclude_everything_is_a_noop() {
    let plan = remove_caches_via_wildcard(RootState::Directory, "1", "http/*", &strings(&["a", "**"]));
    assert!(matches!(plan, Ok(WildcardPlan::Noop)));
}

#[test]
fn wildcard_walk_decisions() {
    let plan = remove_caches_via_wildcard(
        RootState::Directory,
        "1:2",
        "http/blog*",
        &strings(&["http/blog/keep*", "http/blog/pinned"]),
    );
    let (walk, mut excluded) = match plan {
        Ok(WildcardPlan::Walk(walk, excluded)) => (walk, excluded),
        _ => panic!("expected a walk"),
    };
    assert_eq!(walk.number_of_levels(), 2);
    assert_eq!(walk.entry_action(0, EntryKind::Dir), EntryAction::Descend);
    assert_eq!(walk.entry_action(0, EntryKind::File), EntryAction::Skip);
    assert_eq!(walk.entry_action(2, EntryKind::File), EntryAction::CheckFile);
    assert_eq!(walk.entry_action(2, EntryKind::Dir), EntryAction::Skip);
    assert_eq!(walk.entry_action(1, EntryKind::Vanished), EntryAction::Skip);

    assert!(walk.should_remove(b"http/blog/post1"));
    assert!(!walk.should_remove(b"http/static/a.css"));
    // Matches the wildcard key and a wildcard exclude key: kept.
    assert!(!walk.should_remove(b"http/blog/keep/me"));
    assert!(walk.check_file(&KeyScan::Found(b"http/blog/x".to_vec())));
    assert!(!walk.check_file(&KeyScan::Malformed));

    // The literal exclude key stands for one file, used up once.
    let pinned = path_of(&[1, 2], "http/blog/pinned");
    assert_eq!(excluded.len(), 1);
    assert!(!excluded.take(&path_of(&[1, 2], "http/blog/post1")));
    assert!(excluded.take(&pinned));
    assert!(!excluded.take(&pinned));
    assert_eq!(excluded.len(), 0);
}

#[test]
fn exclude_paths_answer_the_same_in_any_order() {
    let excludes = strings(&["a", "b", "c"]);
    let paths: Vec<Vec<Vec<u8>>> = ["a", "b", "x"].iter().map(|k| path_of(&[1], k)).collect();
    let answers = |order: &[usize]| {
        let mut excluded = match remove_caches_via_wildcard(RootState::Directory, "1", "*", &excludes) {
            Ok(WildcardPlan::Walk(_, excluded)) => excluded,
            _ => panic!("expected a walk"),
        };
        let mut found = vec![false; 3];
        for &i in order {
            found[i] = excluded.take(&paths[i]);
        }
        found
    };
    let expected = vec![true, true, false];
    assert_eq!(answers(&[0, 1, 2]), expected);
    assert_eq!(answers(&[2, 1, 0]), expected);
    assert_eq!(answers(&[1, 2, 0]), expected);
}

#[test]
fn wildcard_purge_counts_every_matching_leaf() {
    let plan = remove_caches_via_wildcard(RootState::Directory, "1", "k*", &strings(&["k3"]));
    let (walk, mut excluded) = match plan {
        Ok(WildcardPlan::Walk(walk, excluded)) => (walk, excluded),
        _ => panic!("expected a walk"),
    };
    let keys = ["k1", "k2", "k3", "other", "k4"];
    let mut removed = 0;
    let mut any = false;
    for key in keys.iter().rev() {
        if excluded.take(&path_of(&[1], key)) {
            continue;
        }
        if walk.should_remove(key.as_bytes()) {
            if let Some(done) = leaf_removal(FileRemoval::Removed) {
                removed += 1;
                any = any || done;
            }
        }
    }
    assert_eq!(removed, 3);
    assert_eq!(wildcard_outcome(any), AppResult::Purged);
    assert_eq!(leaf_removal(FileRemoval::NotFound), Some(true));
    assert_eq!(leaf_removal(FileRemoval::Failed), None);
}
