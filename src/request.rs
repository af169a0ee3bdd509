//! Parsing of a request head (request line and header block) held in a buffer
//! of received bytes.

use vstd::prelude::*;
use crate::bytes::{copy_range, is_ascii_ws, is_ws, trim, trim_bytes, trim_end, trim_end_bytes};
use crate::headers::Headers;

verus! {

pub const LF: u8 = 0x0a;

pub const COLON: u8 = 0x3a;

/// Index of the first `c` in `s` at or after `i`, or `s.len()` when there is none.
pub open spec fn find_from(s: Seq<u8>, c: u8, i: int) -> int
    decreases s.len() - i,
{
    if i < 0 || i >= s.len() {
        s.len() as int
    } else if s[i] == c {
        i
    } else {
        find_from(s, c, i + 1)
    }
}

/// Every byte of `s` is whitespace.
pub open spec fn is_blank(s: Seq<u8>) -> bool {
    forall|k: int| 0 <= k < s.len() ==> is_ws(#[trigger] s[k])
}

/// A header line split at its first colon, both sides trimmed; none without a colon.
pub open spec fn header_of(line: Seq<u8>) -> Option<(Seq<u8>, Seq<u8>)> {
    let k = find_from(line, COLON, 0);
    if k < line.len() {
        Some((trim(line.subrange(0, k)), trim(line.subrange(k + 1, line.len() as int))))
    } else {
        None
    }
}

/// The fields that a header line contributes: one, or none when it is malformed.
pub open spec fn fields_of(line: Seq<u8>) -> Seq<(Seq<u8>, Seq<u8>)> {
    match header_of(line) {
        Some(h) => seq![h],
        None => Seq::empty(),
    }
}

/// Scanning the header block at byte `i`, inside a line that began at `ls`:
/// where the block ends (just past its blank line), if `buf` holds all of it.
pub open spec fn block_end(buf: Seq<u8>, i: int, ls: int) -> Option<int>
    decreases buf.len() - i,
{
    if i < 0 || i >= buf.len() {
        None
    } else if buf[i] == LF {
        if is_blank(buf.subrange(ls, i)) {
            Some(i + 1)
        } else {
            block_end(buf, i + 1, i + 1)
        }
    } else {
        block_end(buf, i + 1, ls)
    }
}

/// The header fields of the block scanned as in `block_end`, in order.
pub open spec fn block_fields(buf: Seq<u8>, i: int, ls: int) -> Seq<(Seq<u8>, Seq<u8>)>
    decreases buf.len() - i,
{
    if i < 0 || i >= buf.len() {
        Seq::empty()
    } else if buf[i] == LF {
        if is_blank(buf.subrange(ls, i)) {
            Seq::empty()
        } else {
            fields_of(buf.subrange(ls, i)) + block_fields(buf, i + 1, i + 1)
        }
    } else {
        block_fields(buf, i + 1, ls)
    }
}

/// The first line of `buf`, without its LF.
pub open spec fn first_line(buf: Seq<u8>) -> Seq<u8> {
    buf.subrange(0, find_from(buf, LF, 0))
}

/// The request line of the head at the start of `buf`: its first line
/// without the line terminator (CR LF) or other trailing whitespace.
pub open spec fn request_line(buf: Seq<u8>) -> Seq<u8> {
    trim_end(first_line(buf))
}

/// Where the request head at the start of `buf` ends, if `buf` holds all of it.
pub open spec fn head_end(buf: Seq<u8>) -> Option<int> {
    let e = find_from(buf, LF, 0);
    if e < buf.len() {
        block_end(buf, e + 1, e + 1)
    } else {
        None
    }
}

/// The header fields of the request head at the start of `buf`.
pub open spec fn head_fields(buf: Seq<u8>) -> Seq<(Seq<u8>, Seq<u8>)> {
    let e = find_from(buf, LF, 0);
    block_fields(buf, e + 1, e + 1)
}

/// First index at or after `i` that is not whitespace (or the end).
pub open spec fn skip_ws(s: Seq<u8>, i: int) -> int
    decreases s.len() - i,
{
    if 0 <= i < s.len() && is_ws(s[i]) {
        skip_ws(s, i + 1)
    } else {
        i
    }
}

/// First index at or after `i` that is whitespace (or the end).
pub open spec fn skip_token(s: Seq<u8>, i: int) -> int
    decreases s.len() - i,
{
    if 0 <= i < s.len() && !is_ws(s[i]) {
        skip_token(s, i + 1)
    } else {
        i
    }
}

/// The first two whitespace-separated tokens of a request line (method and
/// target), or none when it has fewer than two.
pub open spec fn request_target(line: Seq<u8>) -> Option<(Seq<u8>, Seq<u8>)> {
    let a = skip_ws(line, 0);
    let b = skip_token(line, a);
    let c = skip_ws(line, b);
    let d = skip_token(line, c);
    if c < line.len() {
        Some((line.subrange(a, b), line.subrange(c, d)))
    } else {
        None
    }
}

pub proof fn lemma_find_from(s: Seq<u8>, c: u8, i: int)
    requires
        0 <= i <= s.len(),
    ensures
        i <= find_from(s, c, i) <= s.len(),
        find_from(s, c, i) < s.len() ==> s[find_from(s, c, i)] == c,
        forall|k: int| i <= k < find_from(s, c, i) ==> s[k] != c,
    decreases s.len() - i,
{
    if i < s.len() && s[i] != c {
        lemma_find_from(s, c, i + 1);
    }
}

pub proof fn lemma_skip(s: Seq<u8>, i: int)
    requires
        0 <= i <= s.len(),
    ensures
        i <= skip_ws(s, i) <= s.len(),
        i <= skip_token(s, i) <= s.len(),
        forall|k: int| i <= k < skip_token(s, i) ==> !is_ws(#[trigger] s[k]),
    decreases s.len() - i,
{
    if i < s.len() {
        lemma_skip(s, i + 1);
    }
}

pub proof fn lemma_block_end_bound(buf: Seq<u8>, i: int, ls: int)
    ensures
        block_end(buf, i, ls) matches Some(e) ==> 0 <= e <= buf.len(),
    decreases buf.len() - i,
{
    if 0 <= i < buf.len() {
        lemma_block_end_bound(buf, i + 1, i + 1);
        lemma_block_end_bound(buf, i + 1, ls);
    }
}

/// Index of the first `c` in `s` at or after `i`, or `s.len()`.
pub fn find_byte(s: &[u8], c: u8, i: usize) -> (r: usize)
    requires
        i <= s@.len(),
    ensures
        r == find_from(s@, c, i as int),
{
    let mut j: usize = i;
    while j < s.len() && s[j] != c
        invariant
            i <= j <= s@.len(),
            find_from(s@, c, i as int) == find_from(s@, c, j as int),
        decreases s@.len() - j,
    {
        j = j + 1;
    }
    j
}

/// Whether every byte of `s` in `[lo, hi)` is whitespace.
fn range_is_blank(s: &[u8], lo: usize, hi: usize) -> (r: bool)
    requires
        lo <= hi <= s@.len(),
    ensures
        r == is_blank(s@.subrange(lo as int, hi as int)),
{
    let mut k: usize = lo;
    while k < hi
        invariant
            lo <= k <= hi <= s@.len(),
            forall|j: int| lo <= j < k ==> is_ws(#[trigger] s@[j]),
        decreases hi - k,
    {
        if !is_ascii_ws(s[k]) {
            assert(s@.subrange(lo as int, hi as int)[k - lo] == s@[k as int]);
            return false;
        }
        k = k + 1;
    }
    assert forall|j: int| 0 <= j < hi - lo implies is_ws(#[trigger] s@.subrange(lo as int, hi as int)[j]) by {
        assert(s@.subrange(lo as int, hi as int)[j] == s@[lo + j]);
    }
    true
}

/// Splits a header line at its first colon and trims both sides.
pub fn parse_header_line(line: &[u8]) -> (r: Option<(Vec<u8>, Vec<u8>)>)
    ensures
        match r {
            Some((n, v)) => header_of(line@) == Some((n@, v@)),
            None => header_of(line@) is None,
        },
{
    let k = find_byte(line, COLON, 0);
    if k < line.len() {
        let name_raw = copy_range(line, 0, k);
        let value_raw = copy_range(line, k + 1, line.len());
        let name = trim_bytes(name_raw.as_slice());
        let value = trim_bytes(value_raw.as_slice());
        Some((name, value))
    } else {
        None
    }
}

/// Splits a request line into method and target: the first two
/// whitespace-separated tokens, or none when there are fewer than two.
pub fn parse_request_line(line: &[u8]) -> (r: Option<(Vec<u8>, Vec<u8>)>)
    ensures
        match r {
            Some((m, p)) => request_target(line@) == Some((m@, p@)),
            None => request_target(line@) is None,
        },
{
    let a = skip_ws_exec(line, 0);
    let b = skip_token_exec(line, a);
    let c = skip_ws_exec(line, b);
    let d = skip_token_exec(line, c);
    if c < line.len() {
        Some((copy_range(line, a, b), copy_range(line, c, d)))
    } else {
        None
    }
}

fn skip_ws_exec(s: &[u8], i: usize) -> (r: usize)
    requires
        i <= s@.len(),
    ensures
        r == skip_ws(s@, i as int),
        i <= r <= s@.len(),
{
    proof {
        lemma_skip(s@, i as int);
    }
    let mut j: usize = i;
    while j < s.len() && is_ascii_ws(s[j])
        invariant
            i <= j <= s@.len(),
            skip_ws(s@, i as int) == skip_ws(s@, j as int),
        decreases s@.len() - j,
    {
        j = j + 1;
    }
    j
}

fn skip_token_exec(s: &[u8], i: usize) -> (r: usize)
    requires
        i <= s@.len(),
    ensures
        r == skip_token(s@, i as int),
        i <= r <= s@.len(),
{
    proof {
        lemma_skip(s@, i as int);
    }
    let mut j: usize = i;
    while j < s.len() && !is_ascii_ws(s[j])
        invariant
            i <= j <= s@.len(),
            skip_token(s@, i as int) == skip_token(s@, j as int),
        decreases s@.len() - j,
    {
        j = j + 1;
    }
    j
}

/// Reads the request head at the start of `buf`: its request line (without
/// the CR LF that ends it), its header fields, and the index just past its blank line. None while
/// `buf` does not yet hold the whole head.
pub fn parse_head(buf: &[u8]) -> (r: Option<(Vec<u8>, Headers, usize)>)
    ensures
        match r {
            Some((line, hs, end)) => {
                &&& head_end(buf@) == Some(end as int)
                &&& end <= buf@.len()
                &&& line@ == request_line(buf@)
                &&& hs.model() == head_fields(buf@)
            },
            None => head_end(buf@) is None,
        },
{
    let e = find_byte(buf, LF, 0);
    proof {
        lemma_find_from(buf@, LF, 0);
    }
    if e >= buf.len() {
        return None;
    }
    let first = copy_range(buf, 0, e);
    let line = trim_end_bytes(first.as_slice());
    let mut hs = Headers::new();
    let mut i: usize = e + 1;
    let mut ls: usize = e + 1;
    while i < buf.len()
        invariant
            e < buf@.len(),
            e == find_from(buf@, LF, 0),
            line@ == request_line(buf@),
            e + 1 <= ls <= i <= buf@.len(),
            block_end(buf@, e + 1, e + 1) == block_end(buf@, i as int, ls as int),
            block_fields(buf@, e + 1, e + 1) == hs.model() + block_fields(buf@, i as int, ls as int),
        decreases buf@.len() - i,
    {
        if buf[i] == LF {
            if range_is_blank(buf, ls, i) {
                assert(block_fields(buf@, i as int, ls as int) =~= Seq::empty());
                assert(hs.model() + Seq::<(Seq<u8>, Seq<u8>)>::empty() =~= hs.model());
                return Some((line, hs, i + 1));
            }
            let l = copy_range(buf, ls, i);
            let ghost before = hs.model();
            match parse_header_line(l.as_slice()) {
                Some((n, v)) => {
                    hs.insert(n, v);
                },
                None => {},
            }
            assert(hs.model() + block_fields(buf@, i + 1, i + 1) =~= before + (fields_of(l@)
                + block_fields(buf@, i + 1, i + 1)));
            i = i + 1;
            ls = i;
        } else {
            i = i + 1;
        }
    }
    None
}

} // verus!
