//! Wildcard keys: compiling them into segments, and matching stored keys.
//!
//! A compiled pattern is a sequence of segments. An empty segment stands for a
//! run of `*` (any bytes, possibly none); a non-empty one is a literal. The
//! matcher walks the segments left to right with a cursor into the stored key
//! and never backtracks: after a wildcard, the next literal is matched at its
//! first occurrence from the cursor on. A pattern whose last segment is a
//! literal still matches a key that goes on after it.

use vstd::prelude::*;
use vstd::string::StringSliceAdditionalSpecFns;

use crate::bytes::{byte_views, bytes_equal_at, find_from, find_from_spec};

verus! {

/// ASCII `*`, the wildcard marker in a key.
pub const STAR: u8 = 0x2a;

/// The segments of a non-empty key, read byte by byte: each maximal run of
/// `*` becomes one empty segment, each maximal run of other bytes one literal.
pub open spec fn segments(key: Seq<u8>) -> Seq<Seq<u8>>
    decreases key.len(),
{
    if key.len() == 0 {
        Seq::empty()
    } else {
        let before = segments(key.drop_last());
        let b = key.last();
        if b == STAR {
            if before.len() > 0 && before.last().len() == 0 {
                before
            } else {
                before.push(Seq::<u8>::empty())
            }
        } else if before.len() > 0 && before.last().len() > 0 {
            before.update(before.len() - 1, before.last().push(b))
        } else {
            before.push(seq![b])
        }
    }
}

/// The compiled form of a key. The empty key compiles to one empty segment,
/// which matches everything, as `*` does.
pub open spec fn compile_pattern(key: Seq<u8>) -> Seq<Seq<u8>> {
    if key.len() == 0 {
        seq![Seq::<u8>::empty()]
    } else {
        segments(key)
    }
}

/// A pattern the matcher can walk: at least one segment, and no wildcard
/// directly followed by another.
pub open spec fn wf_pattern(pattern: Seq<Seq<u8>>) -> bool {
    &&& pattern.len() > 0
    &&& forall|i: int|
        0 <= i < pattern.len() - 1 && (#[trigger] pattern[i]).len() == 0 ==> pattern[i + 1].len()
            > 0
}

/// The pattern that matches every key.
pub open spec fn is_match_all(pattern: Seq<Seq<u8>>) -> bool {
    pattern.len() == 1 && pattern[0].len() == 0
}

/// Whether `key` matches `pattern[i..]` with the cursor at `p`.
pub open spec fn match_from(key: Seq<u8>, pattern: Seq<Seq<u8>>, p: int, i: int) -> bool
    decreases pattern.len() - i,
{
    if i >= pattern.len() {
        true
    } else if pattern[i].len() == 0 {
        if i + 1 >= pattern.len() {
            true
        } else {
            match find_from_spec(key, pattern[i + 1], p) {
                Some(found) => match_from(key, pattern, found + pattern[i + 1].len(), i + 2),
                None => false,
            }
        }
    } else if key.len() - p < pattern[i].len() {
        false
    } else if key.subrange(p, p + pattern[i].len()) =~= pattern[i] {
        match_from(key, pattern, p + pattern[i].len(), i + 1)
    } else {
        false
    }
}

/// Whether a stored key matches a compiled pattern.
pub open spec fn key_matches(key: Seq<u8>, pattern: Seq<Seq<u8>>) -> bool {
    match_from(key, pattern, 0, 0)
}

proof fn lemma_segments_shape(key: Seq<u8>)
    ensures
        key.len() > 0 ==> segments(key).len() > 0,
        forall|i: int|
            0 <= i < segments(key).len() - 1 && (#[trigger] segments(key)[i]).len() == 0
                ==> segments(key)[i + 1].len() > 0,
    decreases key.len(),
{
    if key.len() > 0 {
        lemma_segments_shape(key.drop_last());
        let before = segments(key.drop_last());
        let after = segments(key);
        assert forall|i: int|
            0 <= i < after.len() - 1 && (#[trigger] after[i]).len() == 0 implies after[i
            + 1].len() > 0 by {
            assert(before[i] == after[i]);
            if i + 1 < before.len() {
                assert(before[i + 1].len() > 0);
            }
        }
    }
}

/// Compiled patterns are well formed.
pub proof fn lemma_compile_pattern_wf(key: Seq<u8>)
    ensures
        wf_pattern(compile_pattern(key)),
{
    lemma_segments_shape(key);
}

/// Compiles a key with `*` wildcards into segments: `http/blog*` becomes
/// `["http/blog", ""]`, `*/help*` becomes `["", "/help", ""]`, and `*` becomes
/// `[""]`.
pub fn parse_key(key: &str) -> (r: Vec<Vec<u8>>)
    ensures
        byte_views(r@) == compile_pattern(key.spec_bytes()),
        wf_pattern(byte_views(r@)),
{
    let bytes = key.as_bytes();
    if bytes.len() == 0 {
        let mut v: Vec<Vec<u8>> = Vec::new();
        v.push(Vec::new());
        assert(byte_views(v@) =~= compile_pattern(key.spec_bytes()));
        proof {
            lemma_compile_pattern_wf(key.spec_bytes());
        }
        return v;
    }
    let mut done: Vec<Vec<u8>> = Vec::new();
    let mut literal: Vec<u8> = Vec::new();
    let mut i: usize = 0;
    while i < bytes.len()
        invariant
            i <= bytes@.len(),
            bytes@ == key.spec_bytes(),
            done@.len() > 0 ==> done@.last()@.len() == 0,
            segments(bytes@.take(i as int)) == if literal@.len() > 0 {
                byte_views(done@).push(literal@)
            } else {
                byte_views(done@)
            },
        decreases bytes@.len() - i,
    {
        let b = bytes[i];
        assert(bytes@.take(i as int + 1).drop_last() =~= bytes@.take(i as int));
        let ghost before = segments(bytes@.take(i as int));
        if b == STAR {
            if literal.len() > 0 {
                let run = literal;
                done.push(run);
                literal = Vec::new();
                done.push(Vec::new());
                assert(byte_views(done@) =~= before.push(Seq::<u8>::empty()));
            } else if done.len() == 0 {
                done.push(Vec::new());
                assert(byte_views(done@) =~= before.push(Seq::<u8>::empty()));
            }
        } else {
            let ghost old_literal = literal@;
            literal.push(b);
            proof {
                if old_literal.len() > 0 {
                    assert(before.last() == old_literal);
                    assert(before.update(before.len() - 1, old_literal.push(b)) =~= byte_views(
                        done@,
                    ).push(literal@));
                } else {
                    assert(literal@ =~= seq![b]);
                }
            }
            assert(segments(bytes@.take(i as int + 1)) =~= byte_views(done@).push(literal@));
        }
        i = i + 1;
    }
    assert(bytes@.take(i as int) =~= bytes@);
    if literal.len() > 0 {
        done.push(literal);
    }
    assert(byte_views(done@) =~= compile_pattern(key.spec_bytes()));
    proof {
        lemma_compile_pattern_wf(key.spec_bytes());
    }
    done
}

/// Whether a stored key matches a compiled pattern (see the module's note on
/// how the walk goes).
pub fn hit_key(read_key: &[u8], keys: &Vec<Vec<u8>>) -> (r: bool)
    requires
        wf_pattern(byte_views(keys@)),
    ensures
        r == key_matches(read_key@, byte_views(keys@)),
{
    let ghost pattern = byte_views(keys@);
    let key_len = read_key.len();
    let mut p: usize = 0;
    let mut i: usize = 0;
    while i < keys.len()
        invariant
            key_len == read_key@.len(),
            pattern == byte_views(keys@),
            wf_pattern(pattern),
            p <= read_key@.len(),
            i <= keys@.len(),
            match_from(read_key@, pattern, p as int, i as int) == key_matches(read_key@, pattern),
        decreases keys@.len() - i,
    {
        let segment = &keys[i];
        assert(pattern[i as int] == segment@);
        if segment.len() == 0 {
            if i + 1 == keys.len() {
                return true;
            }
            let literal = &keys[i + 1];
            assert(pattern[i as int + 1] == literal@);
            match find_from(read_key, literal.as_slice(), p) {
                Some(found) => {
                    p = found + literal.len();
                    i = i + 2;
                },
                None => {
                    return false;
                },
            }
        } else if read_key.len() - p < segment.len() {
            return false;
        } else if bytes_equal_at(read_key, p, segment.as_slice()) {
            p = p + segment.len();
            i = i + 1;
        } else {
            return false;
        }
    }
    true
}

} // verus!
