//! Where the proxy keeps the entry for a cache key.
//!
//! The file is named by the 32 lowercase hex digits of the MD5 digest of the
//! key. It sits under one directory per level, named by digits taken from the
//! right end of that name: with levels `1:2`, the last digit, then the two
//! before it. Paths here are relative to the cache root, one entry per
//! component.

use md5::{Digest, Md5};
use vstd::prelude::*;
use vstd::string::StringSliceAdditionalSpecFns;

use crate::bytes::{byte_views, copy_range, lemma_byte_views_push};
use crate::levels::valid_levels;

verus! {

/// The MD5 digest of a byte string.
pub uninterp spec fn md5_of(data: Seq<u8>) -> Seq<u8>;

/// Relies on md-5's `Md5::digest`: the 16-byte MD5 digest of `data`, which
/// depends on `data` alone.
#[verifier::external_body]
fn md5_digest(data: &[u8]) -> (r: Vec<u8>)
    ensures
        r@ == md5_of(data@),
        r@.len() == 16,
{
    Md5::digest(data).to_vec()
}

/// The number of hex digits in a file name.
pub const DIGEST_HEX_LEN: usize = 32;

/// ASCII `0`.
pub const HEX_ZERO: u8 = 0x30;
/// ASCII `a`.
pub const HEX_A: u8 = 0x61;

/// The lowercase hex digit for a value below 16.
pub open spec fn hex_digit(n: u8) -> u8 {
    if n < 10 {
        (HEX_ZERO + n) as u8
    } else {
        (HEX_A + n - 10) as u8
    }
}

/// Two lowercase hex digits per byte, high digit first.
pub open spec fn hex_of(bytes: Seq<u8>) -> Seq<u8>
    decreases bytes.len(),
{
    if bytes.len() == 0 {
        Seq::empty()
    } else {
        hex_of(bytes.drop_last()).push(hex_digit(bytes.last() / 16)).push(
            hex_digit(bytes.last() % 16),
        )
    }
}

/// The name of the cache file for a key: the hex MD5 digest of its bytes.
pub open spec fn digest_name(key: Seq<u8>) -> Seq<u8> {
    hex_of(md5_of(key))
}

/// The sum of the first `n` levels.
pub open spec fn levels_sum(levels: Seq<usize>, n: int) -> int
    decreases n,
{
    if n <= 0 {
        0
    } else {
        levels_sum(levels, n - 1) + levels[n - 1]
    }
}

/// The directories for `levels` under a file named `name`: the `i`th one holds
/// `name[p - levels[i] .. p]`, where `p` is the length of `name` less the
/// levels before it.
pub open spec fn level_dirs(name: Seq<u8>, levels: Seq<usize>) -> Seq<Seq<u8>> {
    Seq::new(
        levels.len(),
        |i: int|
            name.subrange(
                name.len() - levels_sum(levels, i + 1),
                name.len() - levels_sum(levels, i),
            ),
    )
}

/// The path of the cache file for `key`, relative to the cache root.
pub open spec fn cache_file_path_spec(levels: Seq<usize>, key: Seq<u8>) -> Seq<Seq<u8>> {
    level_dirs(digest_name(key), levels).push(digest_name(key))
}

proof fn lemma_hex_len(bytes: Seq<u8>)
    ensures
        hex_of(bytes).len() == 2 * bytes.len(),
    decreases bytes.len(),
{
    if bytes.len() > 0 {
        lemma_hex_len(bytes.drop_last());
    }
}

proof fn lemma_levels_sum_bounds(levels: Seq<usize>, n: int)
    requires
        valid_levels(levels),
        0 <= n <= levels.len(),
    ensures
        n <= levels_sum(levels, n) <= 2 * n,
    decreases n,
{
    if n > 0 {
        lemma_levels_sum_bounds(levels, n - 1);
    }
}

/// Writes bytes as lowercase hex, two digits per byte.
pub fn hex_lower(bytes: &[u8]) -> (r: Vec<u8>)
    ensures
        r@ == hex_of(bytes@),
{
    let mut out: Vec<u8> = Vec::new();
    let mut i: usize = 0;
    while i < bytes.len()
        invariant
            i <= bytes@.len(),
            out@ == hex_of(bytes@.take(i as int)),
        decreases bytes@.len() - i,
    {
        let b = bytes[i];
        let high = b / 16;
        let low = b % 16;
        let high_digit = if high < 10 {
            HEX_ZERO + high
        } else {
            HEX_A + (high - 10)
        };
        let low_digit = if low < 10 {
            HEX_ZERO + low
        } else {
            HEX_A + (low - 10)
        };
        out.push(high_digit);
        out.push(low_digit);
        assert(bytes@.take(i as int + 1).drop_last() =~= bytes@.take(i as int));
        i = i + 1;
    }
    assert(bytes@.take(i as int) =~= bytes@);
    out
}

/// The name of the cache file for `key`: the 32 lowercase hex digits of the
/// MD5 digest of its bytes.
pub fn digest_file_name(key: &str) -> (r: Vec<u8>)
    ensures
        r@ == digest_name(key.spec_bytes()),
        r@.len() == DIGEST_HEX_LEN,
{
    let digest = md5_digest(key.as_bytes());
    proof {
        lemma_hex_len(digest@);
    }
    hex_lower(digest.as_slice())
}

/// The path, relative to the cache root, of the cache file named `name`
/// (32 hex digits) under `levels`: one directory per level, then the name.
pub fn cache_file_path_for_name(levels: &Vec<usize>, name: Vec<u8>) -> (r: Vec<Vec<u8>>)
    requires
        valid_levels(levels@),
        name@.len() == DIGEST_HEX_LEN,
    ensures
        byte_views(r@) == level_dirs(name@, levels@).push(name@),
{
    let ghost dirs = level_dirs(name@, levels@);
    let mut path: Vec<Vec<u8>> = Vec::new();
    let mut p: usize = DIGEST_HEX_LEN;
    let mut i: usize = 0;
    while i < levels.len()
        invariant
            valid_levels(levels@),
            name@.len() == DIGEST_HEX_LEN,
            dirs == level_dirs(name@, levels@),
            i <= levels@.len(),
            p == DIGEST_HEX_LEN - levels_sum(levels@, i as int),
            byte_views(path@) == dirs.take(i as int),
        decreases levels@.len() - i,
    {
        proof {
            lemma_levels_sum_bounds(levels@, i as int + 1);
        }
        let level = levels[i];
        let segment = copy_range(&name, p - level, p);
        assert(levels_sum(levels@, i as int + 1) == levels_sum(levels@, i as int) + level);
        assert(dirs[i as int] == segment@);
        proof {
            lemma_byte_views_push(path@, segment);
        }
        path.push(segment);
        assert(dirs.take(i as int + 1) =~= dirs.take(i as int).push(dirs[i as int]));
        p = p - level;
        i = i + 1;
    }
    assert(dirs.take(i as int) =~= dirs);
    proof {
        lemma_byte_views_push(path@, name);
    }
    path.push(name);
    path
}

/// The path of the cache file for `key` under `levels`, relative to the cache
/// root: one directory per level, then the file name.
pub fn create_cache_file_path(levels: &Vec<usize>, key: &str) -> (r: Vec<Vec<u8>>)
    requires
        valid_levels(levels@),
    ensures
        byte_views(r@) == cache_file_path_spec(levels@, key.spec_bytes()),
{
    let name = digest_file_name(key);
    cache_file_path_for_name(levels, name)
}

} // verus!
