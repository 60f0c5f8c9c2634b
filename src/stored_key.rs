//! Reading the stored key out of a cache file.
//!
//! A cache file starts with a header line, ignored here, then a line made of
//! the five bytes `KEY: ` and the key the proxy cached the response under. A
//! line ends at `\n` or `\r`; the other one of the two, right after it, belongs
//! to the same line end. The five label bytes are skipped whatever they hold.
//! The key runs to the next line end or to the end of the file.

use vstd::prelude::*;

use crate::bytes::copy_range_slice;

verus! {

/// ASCII line feed.
pub const LF: u8 = 0x0a;
/// ASCII carriage return.
pub const CR: u8 = 0x0d;
/// The length of the `KEY: ` label.
pub const KEY_LABEL_LEN: usize = 5;

pub open spec fn is_line_end(b: u8) -> bool {
    b == LF || b == CR
}

/// The first line end at or after `from`, or the length of `c` if none.
pub open spec fn line_end_index(c: Seq<u8>, from: int) -> int
    decreases c.len() - from,
{
    if from >= c.len() {
        c.len() as int
    } else if is_line_end(c[from]) {
        from
    } else {
        line_end_index(c, from + 1)
    }
}

/// Where the line that starts at `from` is over, its line end included.
pub open spec fn next_line_start(c: Seq<u8>, from: int) -> int {
    let end = line_end_index(c, from);
    if end >= c.len() {
        c.len() as int
    } else if end + 1 < c.len() && is_line_end(c[end + 1]) && c[end + 1] != c[end] {
        end + 2
    } else {
        end + 1
    }
}

/// Where the stored key starts: after the header line and the label.
pub open spec fn key_start(c: Seq<u8>) -> int {
    let after_label = next_line_start(c, 0) + KEY_LABEL_LEN;
    if after_label > c.len() {
        c.len() as int
    } else {
        after_label
    }
}

/// The key stored in a cache file's contents, if the file reaches it.
pub open spec fn stored_key_spec(c: Seq<u8>) -> Option<Seq<u8>> {
    if key_start(c) >= c.len() {
        None
    } else {
        Some(c.subrange(key_start(c), line_end_index(c, key_start(c))))
    }
}

/// Whether `c` reaches the line end after the stored key, and holds the
/// byte after the header's line end, so that no bytes after `c` can change
/// what the key is.
pub open spec fn key_line_complete(c: Seq<u8>) -> bool {
    &&& line_end_index(c, 0) + 1 < c.len()
    &&& next_line_start(c, 0) + KEY_LABEL_LEN < c.len()
    &&& line_end_index(c, next_line_start(c, 0) + KEY_LABEL_LEN) < c.len()
}

/// What the first bytes of a cache file say about its stored key.
#[derive(Debug, PartialEq, Eq)]
pub enum KeyScan {
    /// The stored key.
    Found(Vec<u8>),
    /// The file ends before its key.
    Malformed,
    /// More of the file is needed to tell.
    NeedMore,
}

proof fn lemma_line_end_bounds(c: Seq<u8>, from: int)
    requires
        0 <= from,
    ensures
        from <= line_end_index(c, from) || line_end_index(c, from) == c.len(),
        line_end_index(c, from) <= c.len(),
        line_end_index(c, from) < c.len() ==> is_line_end(c[line_end_index(c, from)]),
    decreases c.len() - from,
{
    if from < c.len() && !is_line_end(c[from]) {
        lemma_line_end_bounds(c, from + 1);
    }
}

proof fn lemma_line_end_extends(c: Seq<u8>, more: Seq<u8>, from: int)
    requires
        0 <= from,
        line_end_index(c, from) < c.len(),
    ensures
        line_end_index(c + more, from) == line_end_index(c, from),
    decreases c.len() - from,
{
    assert((c + more)[from] == c[from]);
    if !is_line_end(c[from]) {
        lemma_line_end_extends(c, more, from + 1);
    }
}

/// Once the key's line end is in `c`, more bytes after `c` leave the stored
/// key as it is.
proof fn lemma_stored_key_extends(c: Seq<u8>, more: Seq<u8>)
    requires
        key_line_complete(c),
    ensures
        stored_key_spec(c + more) == stored_key_spec(c),
{
    let e = line_end_index(c, 0);
    lemma_line_end_bounds(c, 0);
    lemma_line_end_extends(c, more, 0);
    assert((c + more)[e] == c[e]);
    assert((c + more)[e + 1] == c[e + 1]);
    let s = next_line_start(c, 0) + KEY_LABEL_LEN;
    assert(next_line_start(c + more, 0) == next_line_start(c, 0));
    assert(key_start(c) == s);
    assert(key_start(c + more) == s);
    lemma_line_end_extends(c, more, s);
    lemma_line_end_bounds(c, s);
    assert((c + more).subrange(s, line_end_index(c, s)) =~= c.subrange(s, line_end_index(c, s)));
}

/// The first line end in `c[from..]`, or the length of `c` if none.
fn find_line_end(c: &[u8], from: usize) -> (r: usize)
    requires
        from <= c@.len(),
    ensures
        r == line_end_index(c@, from as int),
{
    let mut k: usize = from;
    while k < c.len()
        invariant
            from <= k <= c@.len(),
            line_end_index(c@, k as int) == line_end_index(c@, from as int),
        decreases c@.len() - k,
    {
        if c[k] == LF || c[k] == CR {
            return k;
        }
        k = k + 1;
    }
    k
}

/// Reads what the first bytes `head` of a cache file say about its stored
/// key. With `at_end`, `head` is the whole file and the answer is final;
/// otherwise the key is `Found` exactly when `head` reaches the end of its
/// line, and then no further bytes could change it.
pub fn scan_stored_key(head: &[u8], at_end: bool) -> (r: KeyScan)
    ensures
        at_end ==> match r {
            KeyScan::Found(k) => stored_key_spec(head@) == Some(k@),
            KeyScan::Malformed => stored_key_spec(head@) is None,
            KeyScan::NeedMore => false,
        },
        !at_end ==> match r {
            KeyScan::Found(k) => key_line_complete(head@) && forall|more: Seq<u8>| #[trigger]
                stored_key_spec(head@ + more) == Some(k@),
            KeyScan::Malformed => false,
            KeyScan::NeedMore => !key_line_complete(head@),
        },
{
    let len = head.len();
    let first_end = find_line_end(head, 0);
    proof {
        lemma_line_end_bounds(head@, 0);
    }
    if !at_end && (first_end >= len || len - first_end == 1) {
        return KeyScan::NeedMore;
    }
    let next = if first_end >= len {
        len
    } else if len - first_end > 1 && (head[first_end + 1] == LF || head[first_end + 1] == CR)
        && head[first_end + 1] != head[first_end] {
        first_end + 2
    } else {
        first_end + 1
    };
    assert(next == next_line_start(head@, 0));
    if next >= len || len - next <= KEY_LABEL_LEN {
        if at_end {
            return KeyScan::Malformed;
        }
        return KeyScan::NeedMore;
    }
    let start = next + KEY_LABEL_LEN;
    assert(start == key_start(head@));
    let end = find_line_end(head, start);
    proof {
        lemma_line_end_bounds(head@, start as int);
    }
    if !at_end && end >= len {
        return KeyScan::NeedMore;
    }
    let key = copy_range_slice(head, start, end);
    proof {
        if !at_end {
            assert forall|more: Seq<u8>| #[trigger]
                stored_key_spec(head@ + more) == Some(key@) by {
                lemma_stored_key_extends(head@, more);
            }
        }
    }
    KeyScan::Found(key)
}

/// The key stored in the complete contents of a cache file, or `None` if the
/// file ends before it.
pub fn parse_stored_key(content: &[u8]) -> (r: Option<Vec<u8>>)
    ensures
        match r {
            Some(k) => stored_key_spec(content@) == Some(k@),
            None => stored_key_spec(content@) is None,
        },
{
    match scan_stored_key(content, true) {
        KeyScan::Found(k) => Some(k),
        _ => None,
    }
}

} // verus!
