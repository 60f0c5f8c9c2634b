use nginx_cache_purge::pattern::{hit_key, parse_key};

fn segs(parts: &[&str]) -> Vec<Vec<u8>> {
    parts.iter().map(|p| p.as_bytes().to_vec()).collect()
}

#[test]
fn compile_prefix_pattern() {
    assert_eq!(parse_key("http/blog*"), segs(&["http/blog", ""]));
}

#[test]
fn compile_substring_pattern() {
    assert_eq!(parse_key("*/help*"), segs(&["", "/help", ""]));
}

#[test]
fn compile_star_alone() {
    assert_eq!(parse_key("*"), segs(&[""]));
    assert_eq!(parse_key("**"), segs(&[""]));
}

#[test]
fn compile_collapses_repeated_stars() {
    assert_eq!(parse_key("a**b"), segs(&["a", "", "b"]));
    assert_eq!(parse_key("**a***b**"), segs(&["", "a", "", "b", ""]));
}

#[test]
fn compile_plain_and_empty_keys() {
    assert_eq!(parse_key("abc"), segs(&["abc"]));
    assert_eq!(parse_key(""), segs(&[""]));
}

#[test]
fn match_prefix() {
    assert!(hit_key(b"http/blog/post1", &segs(&["http/blog", ""])));
    assert!(!hit_key(b"http/blog/post1", &segs(&["http/static", ""])));
}

#[test]
fn match_substring() {
    assert!(hit_key(b"x/help/y", &segs(&["", "/help", ""])));
    assert!(!hit_key(b"x/hel/y", &segs(&["", "/help", ""])));
}

#[test]
fn match_all() {
    assert!(hit_key(b"", &segs(&[""])));
    assert!(hit_key(b"anything", &segs(&[""])));
}

#[test]
fn match_literal_is_a_prefix_match() {
    assert!(hit_key(b"http/blog/post1", &segs(&["http/blog"])));
    assert!(!hit_key(b"http/blo", &segs(&["http/blog"])));
}

#[test]
fn match_suffix_literal_after_wildcard() {
    assert!(hit_key(b"abcxyz", &segs(&["", "xyz"])));
    assert!(hit_key(b"a-b-c", &segs(&["a", "", "b", "", "c"])));
    assert!(!hit_key(b"a-c-b", &segs(&["a", "", "b", "", "c", ""])));
}

#[test]
fn match_does_not_backtrack() {
    // After the wildcard, "ab" is matched at its first occurrence (index 1),
    // which leaves "c" to be matched right after it: "x" is there instead.
    assert!(!hit_key(b"xabxabc", &segs(&["x", "", "ab", "c"])));
    assert!(hit_key(b"xabc", &segs(&["x", "", "ab", "c"])));
}
