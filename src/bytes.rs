//! Byte strings, and the small operations on them that the engine shares.

use vstd::prelude::*;

verus! {

/// The contents of each vector of bytes, in order.
pub open spec fn byte_views(v: Seq<Vec<u8>>) -> Seq<Seq<u8>> {
    v.map_values(|b: Vec<u8>| b@)
}

/// The components of each path, in order.
pub open spec fn path_views(v: Seq<Vec<Vec<u8>>>) -> Seq<Seq<Seq<u8>>> {
    v.map_values(|p: Vec<Vec<u8>>| byte_views(p@))
}

pub proof fn lemma_path_views_push(v: Seq<Vec<Vec<u8>>>, x: Vec<Vec<u8>>)
    ensures
        path_views(v.push(x)) == path_views(v).push(byte_views(x@)),
{
    assert(path_views(v.push(x)) =~= path_views(v).push(byte_views(x@)));
}

pub proof fn lemma_byte_views_push(v: Seq<Vec<u8>>, x: Vec<u8>)
    ensures
        byte_views(v.push(x)) == byte_views(v).push(x@),
{
    assert(byte_views(v.push(x)) =~= byte_views(v).push(x@));
}

/// The first position at or after `start` where `needle` occurs in `hay`.
pub open spec fn find_from_spec(hay: Seq<u8>, needle: Seq<u8>, start: int) -> Option<int>
    decreases hay.len() - start,
{
    if start < 0 || start + needle.len() > hay.len() {
        None
    } else if needle.len() == 0 || hay.subrange(start, start + needle.len()) =~= needle {
        Some(start)
    } else {
        find_from_spec(hay, needle, start + 1)
    }
}

/// Whether `needle` occurs in `hay` at `start`.
pub fn bytes_equal_at(hay: &[u8], start: usize, needle: &[u8]) -> (r: bool)
    requires
        start + needle@.len() <= hay@.len(),
    ensures
        r == (hay@.subrange(start as int, start + needle@.len()) =~= needle@),
{
    let hay_len = hay.len();
    let mut k: usize = 0;
    while k < needle.len()
        invariant
            hay_len == hay@.len(),
            start + needle@.len() <= hay@.len(),
            k <= needle@.len(),
            forall|j: int| 0 <= j < k ==> hay@[start + j] == needle@[j],
        decreases needle@.len() - k,
    {
        if hay[start + k] != needle[k] {
            assert(hay@.subrange(start as int, start + needle@.len())[k as int] != needle@[k as int]);
            return false;
        }
        k = k + 1;
    }
    assert(hay@.subrange(start as int, start + needle@.len()) =~= needle@);
    true
}

/// The first position at or after `start` where `needle` occurs in `hay`.
pub fn find_from(hay: &[u8], needle: &[u8], start: usize) -> (r: Option<usize>)
    requires
        start <= hay@.len(),
    ensures
        match r {
            Some(found) => find_from_spec(hay@, needle@, start as int) == Some(found as int)
                && found + needle@.len() <= hay@.len(),
            None => find_from_spec(hay@, needle@, start as int) is None,
        },
{
    if needle.len() == 0 {
        assert(hay@.subrange(start as int, start as int) =~= needle@);
        return Some(start);
    }
    let mut s: usize = start;
    while s <= hay.len() && needle.len() <= hay.len() - s
        invariant
            start <= s,
            needle@.len() > 0,
            find_from_spec(hay@, needle@, s as int) == find_from_spec(hay@, needle@, start as int),
        decreases hay@.len() - s,
    {
        if bytes_equal_at(hay, s, needle) {
            return Some(s);
        }
        s = s + 1;
    }
    None
}

/// A copy of `v[from..to]`.
pub fn copy_range(v: &Vec<u8>, from: usize, to: usize) -> (r: Vec<u8>)
    requires
        from <= to <= v@.len(),
    ensures
        r@ == v@.subrange(from as int, to as int),
{
    copy_range_slice(v.as_slice(), from, to)
}

/// A copy of `v[from..to]`.
pub fn copy_range_slice(v: &[u8], from: usize, to: usize) -> (r: Vec<u8>)
    requires
        from <= to <= v@.len(),
    ensures
        r@ == v@.subrange(from as int, to as int),
{
    let mut out: Vec<u8> = Vec::new();
    let mut k: usize = from;
    while k < to
        invariant
            from <= k <= to <= v@.len(),
            out@ == v@.subrange(from as int, k as int),
        decreases to - k,
    {
        out.push(v[k]);
        k = k + 1;
        assert(out@ =~= v@.subrange(from as int, k as int));
    }
    out
}

/// A copy of the first `n` components of a path.
pub fn copy_prefix(path: &Vec<Vec<u8>>, n: usize) -> (r: Vec<Vec<u8>>)
    requires
        n <= path@.len(),
    ensures
        byte_views(r@) == byte_views(path@).take(n as int),
{
    let mut out: Vec<Vec<u8>> = Vec::new();
    let mut k: usize = 0;
    while k < n
        invariant
            k <= n <= path@.len(),
            byte_views(out@) == byte_views(path@).take(k as int),
        decreases n - k,
    {
        let component = copy_range(&path[k], 0, path[k].len());
        assert(component@ =~= path@[k as int]@);
        proof {
            lemma_byte_views_push(out@, component);
        }
        out.push(component);
        k = k + 1;
        assert(byte_views(out@) =~= byte_views(path@).take(k as int));
    }
    out
}

/// Whether two byte strings are equal.
pub fn bytes_equal(a: &Vec<u8>, b: &Vec<u8>) -> (r: bool)
    ensures
        r == (a@ == b@),
{
    if a.len() != b.len() {
        return false;
    }
    let r = bytes_equal_at(a.as_slice(), 0, b.as_slice());
    assert(a@.subrange(0, b@.len() as int) =~= a@);
    r
}

/// Whether two paths are equal, component by component.
pub fn paths_equal(a: &Vec<Vec<u8>>, b: &Vec<Vec<u8>>) -> (r: bool)
    ensures
        r == (byte_views(a@) == byte_views(b@)),
{
    if a.len() != b.len() {
        assert(byte_views(a@).len() != byte_views(b@).len());
        return false;
    }
    let mut k: usize = 0;
    while k < a.len()
        invariant
            a@.len() == b@.len(),
            k <= a@.len(),
            forall|i: int| 0 <= i < k ==> a@[i]@ == b@[i]@,
        decreases a@.len() - k,
    {
        if !bytes_equal(&a[k], &b[k]) {
            assert(byte_views(a@)[k as int] != byte_views(b@)[k as int]);
            return false;
        }
        k = k + 1;
    }
    assert(byte_views(a@) =~= byte_views(b@));
    true
}

} // verus!
