use nginx_cache_purge::front::{is_wildcard_key, response_status, strip_first, ResponseStatus};
use nginx_cache_purge::outcome::AppResult;

#[test]
fn wildcard_keys_hold_a_star() {
    assert!(is_wildcard_key("http/blog*"));
    assert!(is_wildcard_key("*"));
    assert!(!is_wildcard_key("http/blog/"));
    assert!(!is_wildcard_key(""));
}

#[test]
fn strip_first_removes_one_occurrence() {
    assert_eq!(strip_first(b"GEThttp/a/GET", b"GET"), b"http/a/GET".to_vec());
    assert_eq!(strip_first(b"http/a", b"zz"), b"http/a".to_vec());
    assert_eq!(strip_first(b"abc", b""), b"abc".to_vec());
    assert_eq!(strip_first(b"xaby", b"ab"), b"xy".to_vec());
}

#[test]
fn response_statuses() {
    assert_eq!(response_status(&Some(AppResult::Purged)), ResponseStatus::Purged);
    assert_eq!(response_status(&Some(AppResult::CacheIgnored)), ResponseStatus::NothingToPurge);
    assert_eq!(
        response_status(&Some(AppResult::AlreadyPurgedWildcard)),
        ResponseStatus::NothingToPurge
    );
    assert_eq!(response_status(&None), ResponseStatus::Failed);
}
