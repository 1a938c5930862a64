use vstd::prelude::*;
use vstd::slice::slice_subrange;
use vstd::slice::slice_to_vec;
use crate::http::text::string_from_utf8_lossy;
use crate::http::text::utf8_lossy;

verus! {

/// The first position at or after `from` that holds `delimiter`, or the
/// length of `s` where there is none.
pub open spec fn find_from(s: Seq<u8>, from: int, delimiter: u8) -> int
    decreases s.len() - from,
{
    if from >= s.len() {
        s.len() as int
    } else if s[from] == delimiter {
        from
    } else {
        find_from(s, from + 1, delimiter)
    }
}

/// `find_from` stays between its start and the end.
pub proof fn lemma_find_from_bounds(s: Seq<u8>, from: int, delimiter: u8)
    requires
        0 <= from <= s.len(),
    ensures
        from <= find_from(s, from, delimiter) <= s.len(),
        find_from(s, from, delimiter) < s.len() ==> s[find_from(s, from, delimiter)] == delimiter,
        forall|j: int| from <= j < find_from(s, from, delimiter) ==> s[j] != delimiter,
    decreases s.len() - from,
{
    if from < s.len() && s[from] != delimiter {
        lemma_find_from_bounds(s, from + 1, delimiter);
    }
}

/// A line without a carriage return at its end.
pub open spec fn strip_cr(line: Seq<u8>) -> Seq<u8> {
    if line.len() > 0 && line.last() == 13u8 {
        line.drop_last()
    } else {
        line
    }
}

/// Where reading starts when asked to start at `start`: no further than the end.
pub open spec fn clamp(s: Seq<u8>, start: int) -> int {
    if start > s.len() {
        s.len() as int
    } else {
        start
    }
}

/// The piece of `s` that starts at `start` and ends before the next
/// `delimiter` (or at the end), without a trailing carriage return.
pub open spec fn piece_at(s: Seq<u8>, start: int, delimiter: u8) -> Seq<u8> {
    strip_cr(s.subrange(clamp(s, start), find_from(s, clamp(s, start), delimiter)))
}

/// Where the piece after the one at `start` begins: behind the
/// delimiter, or at the end where there was none.
pub open spec fn next_at(s: Seq<u8>, start: int, delimiter: u8) -> int {
    let e = find_from(s, clamp(s, start), delimiter);
    if e < s.len() {
        e + 1
    } else {
        s.len() as int
    }
}

/// Reads from `buf`, starting at `start`, up to the next `delimiter`.
/// Returns what was read, without the delimiter and without a carriage
/// return before it, and the position at which the next read starts.
pub fn read_till_next(buf: &[u8], start: usize, delimiter: u8) -> (r: (Vec<u8>, usize))
    ensures
        r.0@ == piece_at(buf@, start as int, delimiter),
        r.1 == next_at(buf@, start as int, delimiter),
        r.1 <= buf@.len(),
        start < buf@.len() ==> r.1 > start,
{
    let n = buf.len();
    let from: usize = if start > n { n } else { start };
    let mut e: usize = from;
    while e < n && buf[e] != delimiter
        invariant
            n == buf@.len(),
            from <= e <= n,
            find_from(buf@, from as int, delimiter) == find_from(buf@, e as int, delimiter),
        decreases n - e,
    {
        e += 1;
    }
    let mut end: usize = e;
    if end > from && buf[end - 1] == 13u8 {
        end = end - 1;
    }
    let line = slice_to_vec(slice_subrange(buf, from, end));
    proof {
        let raw = buf@.subrange(from as int, e as int);
        if e > from {
            assert(raw.last() == buf@[e - 1]);
            assert(raw.drop_last() =~= buf@.subrange(from as int, e - 1));
        }
    }
    let next: usize = if e < n { e + 1 } else { n };
    (line, next)
}

/// Reads one line: up to the next line feed.
pub fn read_next_line(buf: &[u8], start: usize) -> (r: (Vec<u8>, usize))
    ensures
        r.0@ == piece_at(buf@, start as int, 10u8),
        r.1 == next_at(buf@, start as int, 10u8),
        r.1 <= buf@.len(),
        start < buf@.len() ==> r.1 > start,
{
    read_till_next(buf, start, 10u8)
}

/// Reads as `read_till_next` does and gives the piece as text; bytes
/// that are not UTF-8 become replacement characters.
pub fn read_till_next_string(buf: &[u8], start: usize, delimiter: u8) -> (r: (String, usize))
    ensures
        r.0@ == utf8_lossy(piece_at(buf@, start as int, delimiter)),
        vstd::utf8::valid_utf8(piece_at(buf@, start as int, delimiter)) ==> r.0@
            == vstd::utf8::decode_utf8(piece_at(buf@, start as int, delimiter)),
        r.1 == next_at(buf@, start as int, delimiter),
        r.1 <= buf@.len(),
        start < buf@.len() ==> r.1 > start,
{
    let (line, next) = read_till_next(buf, start, delimiter);
    (string_from_utf8_lossy(line.as_slice()), next)
}

} // verus!
