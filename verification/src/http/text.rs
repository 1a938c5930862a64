use vstd::prelude::*;
use vstd::slice::slice_subrange;
use vstd::slice::slice_to_vec;
use vstd::string::StrSliceExecFns;

verus! {

/// The pieces of `s` between the elements that satisfy `sep`. There is
/// always one piece more than there are separators, so consecutive
/// separators give empty pieces.
pub open spec fn split<T>(s: Seq<T>, sep: spec_fn(T) -> bool) -> Seq<Seq<T>>
    decreases s.len(),
{
    if s.len() == 0 {
        seq![Seq::<T>::empty()]
    } else {
        let before = split(s.drop_last(), sep);
        if sep(s.last()) {
            before.push(Seq::<T>::empty())
        } else {
            before.drop_last().push(before.last().push(s.last()))
        }
    }
}

/// A split always yields at least one piece.
pub proof fn lemma_split_nonempty<T>(s: Seq<T>, sep: spec_fn(T) -> bool)
    ensures
        split(s, sep).len() >= 1,
    decreases s.len(),
{
    if s.len() > 0 {
        lemma_split_nonempty(s.drop_last(), sep);
    }
}

/// One more element, a separator or not, extends a split whose last piece is known.
pub proof fn lemma_split_step<T>(s: Seq<T>, i: int, start: int, done: Seq<Seq<T>>, sep: spec_fn(T) -> bool)
    requires
        0 <= start <= i < s.len(),
        split(s.take(i), sep) == done.push(s.subrange(start, i)),
    ensures
        sep(s[i]) ==> split(s.take(i + 1), sep) == done.push(s.subrange(start, i)).push(
            s.subrange(i + 1, i + 1),
        ),
        !sep(s[i]) ==> split(s.take(i + 1), sep) == done.push(s.subrange(start, i + 1)),
{
    let t = s.take(i + 1);
    assert(t.drop_last() =~= s.take(i));
    assert(t.last() == s[i]);
    let before = done.push(s.subrange(start, i));
    assert(before.drop_last() =~= done);
    assert(before.last() == s.subrange(start, i));
    assert(s.subrange(start, i).push(s[i]) =~= s.subrange(start, i + 1));
    assert(s.subrange(i + 1, i + 1) =~= Seq::<T>::empty());
}

/// The decimal digits of `n`, as ASCII bytes, without leading zeros.
pub open spec fn decimal(n: nat) -> Seq<u8>
    decreases n,
{
    if n < 10 {
        seq![(48 + n) as u8]
    } else {
        decimal(n / 10).push((48 + n % 10) as u8)
    }
}

/// Appends the decimal digits of `n` to `out`.
pub fn push_decimal(out: &mut Vec<u8>, n: usize)
    ensures
        final(out)@ == old(out)@ + decimal(n as nat),
    decreases n,
{
    if n < 10 {
        let d: u8 = (48 + n) as u8;
        out.push(d);
        assert(old(out)@.push(d) =~= old(out)@ + seq![d]);
    } else {
        push_decimal(out, n / 10);
        let d: u8 = (48 + n % 10) as u8;
        let ghost mid = out@;
        out.push(d);
        assert(mid.push(d) =~= old(out)@ + decimal((n / 10) as nat).push(d));
    }
}

/// Appends the UTF-8 bytes of `s` to `out`.
pub fn push_str(out: &mut Vec<u8>, s: &str)
    ensures
        final(out)@ == old(out)@ + vstd::utf8::encode_utf8(s@),
{
    out.extend_from_slice(s.as_bytes());
}

/// What `String::from_utf8_lossy` makes of a byte sequence: the text it
/// encodes, with each invalid sequence replaced by U+FFFD.
pub uninterp spec fn utf8_lossy(bytes: Seq<u8>) -> Seq<char>;

/// `String::from_utf8_lossy`, made into an owned string. The result is
/// named by `utf8_lossy`; of valid UTF-8 it is the decoded text.
#[verifier::external_body]
pub(crate) fn string_from_utf8_lossy(bytes: &[u8]) -> (s: String)
    ensures
        s@ == utf8_lossy(bytes@),
        vstd::utf8::valid_utf8(bytes@) ==> s@ == vstd::utf8::decode_utf8(bytes@),
{
    String::from_utf8_lossy(bytes).into_owned()
}

/// The separator of the tokens of a request line: a space or a line feed.
pub open spec fn token_sep() -> spec_fn(u8) -> bool {
    |b: u8| b == 32u8 || b == 10u8
}

/// The separator of the segments of a path.
pub open spec fn slash() -> spec_fn(char) -> bool {
    |c: char| c == '/'
}

/// Splits a line into its tokens at spaces and line feeds.
pub fn split_tokens(line: &[u8]) -> (out: Vec<Vec<u8>>)
    ensures
        out@.len() == split(line@, token_sep()).len(),
        forall|j: int| 0 <= j < out@.len() ==> (#[trigger] out@[j])@ == split(line@, token_sep())[j],
{
    let n = line.len();
    let mut out: Vec<Vec<u8>> = Vec::new();
    let ghost mut done: Seq<Seq<u8>> = Seq::empty();
    let mut start: usize = 0;
    let mut i: usize = 0;
    assert(line@.take(0) =~= Seq::<u8>::empty());
    assert(line@.subrange(0, 0) =~= Seq::<u8>::empty());
    assert(done.push(Seq::<u8>::empty()) =~= seq![Seq::<u8>::empty()]);
    while i < n
        invariant
            n == line@.len(),
            start <= i <= n,
            out@.len() == done.len(),
            forall|j: int| 0 <= j < out@.len() ==> (#[trigger] out@[j])@ == done[j],
            split(line@.take(i as int), token_sep()) == done.push(
                line@.subrange(start as int, i as int),
            ),
        decreases n - i,
    {
        proof {
            lemma_split_step(line@, i as int, start as int, done, token_sep());
        }
        let b = line[i];
        if b == 32u8 || b == 10u8 {
            out.push(slice_to_vec(slice_subrange(line, start, i)));
            proof {
                done = done.push(line@.subrange(start as int, i as int));
            }
            start = i + 1;
        }
        i += 1;
    }
    out.push(slice_to_vec(slice_subrange(line, start, n)));
    assert(line@.take(n as int) =~= line@);
    out
}

/// Splits a path into the pieces between its slashes.
pub fn split_slashes(path: &str) -> (out: Vec<String>)
    ensures
        out@.len() == split(path@, slash()).len(),
        forall|j: int| 0 <= j < out@.len() ==> (#[trigger] out@[j])@ == split(path@, slash())[j],
{
    let n = path.unicode_len();
    let mut out: Vec<String> = Vec::new();
    let ghost mut done: Seq<Seq<char>> = Seq::empty();
    let mut start: usize = 0;
    let mut i: usize = 0;
    assert(path@.take(0) =~= Seq::<char>::empty());
    assert(path@.subrange(0, 0) =~= Seq::<char>::empty());
    assert(done.push(Seq::<char>::empty()) =~= seq![Seq::<char>::empty()]);
    while i < n
        invariant
            n == path@.len(),
            start <= i <= n,
            out@.len() == done.len(),
            forall|j: int| 0 <= j < out@.len() ==> (#[trigger] out@[j])@ == done[j],
            split(path@.take(i as int), slash()) == done.push(
                path@.subrange(start as int, i as int),
            ),
        decreases n - i,
    {
        proof {
            lemma_split_step(path@, i as int, start as int, done, slash());
        }
        let c = path.get_char(i);
        if c == '/' {
            out.push(path.substring_char(start, i).to_owned());
            proof {
                done = done.push(path@.subrange(start as int, i as int));
            }
            start = i + 1;
        }
        i += 1;
    }
    out.push(path.substring_char(start, n).to_owned());
    assert(path@.take(n as int) =~= path@);
    out
}

} // verus!
