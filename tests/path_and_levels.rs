use nginx_cache_purge::cache_path::{
    cache_file_path_for_name, create_cache_file_path, digest_file_name, hex_lower,
};
use nginx_cache_purge::levels::{parse_levels, parse_levels_stage_1, LevelsError};

fn b(s: &str) -> Vec<u8> {
    s.as_bytes().to_vec()
}

#[test]
fn path_for_levels_1_2_takes_digits_from_the_right() {
    let levels = parse_levels("1:2").unwrap();
    let path = create_cache_file_path(&levels, "http/blog/");
    let digest = "4f5f52e61ad0375caef922053e9a824e";
    assert_eq!(path, vec![b("e"), b("24"), b(digest)]);
}

#[test]
fn path_for_levels_2_1_2() {
    let levels = parse_levels("2:1:2").unwrap();
    let path = create_cache_file_path(&levels, "a");
    // md5("a") = 0cc175b9c0f1b6a831c399e269772661
    assert_eq!(
        path,
        vec![b("61"), b("6"), b("72"), b("0cc175b9c0f1b6a831c399e269772661")]
    );
}

#[test]
fn digest_of_empty_key() {
    assert_eq!(digest_file_name(""), b("d41d8cd98f00b204e9800998ecf8427e"));
}

#[test]
fn digest_of_key_is_lowercase_hex_md5() {
    assert_eq!(digest_file_name("http/blog/post1"), b("afaf2787a3c6ab72dcf70864809dcdd0"));
}

#[test]
fn hex_lower_writes_two_digits_per_byte() {
    assert_eq!(hex_lower(&[0x00, 0xff, 0x1a, 0x09]), b("00ff1a09"));
    assert_eq!(hex_lower(&[]), Vec::<u8>::new());
}

#[test]
fn levels_parse() {
    assert_eq!(parse_levels("1:2"), Ok(vec![1, 2]));
    assert_eq!(parse_levels("2"), Ok(vec![2]));
    assert_eq!(parse_levels("1:1:1"), Ok(vec![1, 1, 1]));
    assert_eq!(parse_levels("+1:02"), Ok(vec![1, 2]));
}

#[test]
fn levels_too_many() {
    assert_eq!(parse_levels("1:1:1:1"), Err(LevelsError::TooManyLevels));
    assert_eq!(parse_levels_stage_1("a:b:c:d"), Err(LevelsError::TooManyLevels));
}

#[test]
fn levels_stage_1_splits_at_colons() {
    assert_eq!(parse_levels_stage_1("1:2"), Ok(vec![b("1"), b("2")]));
    assert_eq!(parse_levels_stage_1(""), Ok(vec![b("")]));
    assert_eq!(parse_levels_stage_1("1::"), Ok(vec![b("1"), b(""), b("")]));
}

#[test]
fn levels_not_an_integer() {
    assert_eq!(parse_levels("a"), Err(LevelsError::NotAnInteger));
    assert_eq!(parse_levels(""), Err(LevelsError::NotAnInteger));
    assert_eq!(parse_levels("1:"), Err(LevelsError::NotAnInteger));
    assert_eq!(parse_levels("-1"), Err(LevelsError::NotAnInteger));
    assert_eq!(parse_levels("+"), Err(LevelsError::NotAnInteger));
    assert_eq!(parse_levels("99999999999999999999999999"), Err(LevelsError::NotAnInteger));
}

#[test]
fn levels_out_of_range() {
    assert_eq!(parse_levels("3"), Err(LevelsError::OutOfRange));
    assert_eq!(parse_levels("0"), Err(LevelsError::OutOfRange));
    assert_eq!(parse_levels("1:5"), Err(LevelsError::OutOfRange));
}

#[test]
fn levels_first_bad_part_decides() {
    assert_eq!(parse_levels("3:x"), Err(LevelsError::OutOfRange));
    assert_eq!(parse_levels("x:3"), Err(LevelsError::NotAnInteger));
}

#[test]
fn path_for_a_given_name() {
    let name = b("0123456789abcdef0123456789abcdef");
    assert_eq!(
        cache_file_path_for_name(&vec![1, 2], name.clone()),
        vec![b("f"), b("de"), name.clone()]
    );
    assert_eq!(
        cache_file_path_for_name(&vec![2, 2, 1], name.clone()),
        vec![b("ef"), b("cd"), b("b"), name]
    );
}
