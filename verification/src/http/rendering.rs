use vstd::prelude::*;
use crate::http::request::colon_at;
use crate::http::request::header_name;
use crate::http::request::header_value;
use crate::http::request::headers_from;
use crate::http::request::parsed;
use crate::http::request::version_token;
use crate::http::request::RequestView;
use crate::http::stream::find_from;
use crate::http::stream::next_at;
use crate::http::stream::piece_at;
use crate::http::text::split;
use crate::http::text::token_sep;
use crate::http::text::utf8_lossy;
use crate::http::method_of;
use crate::http::HttpMethod;
use crate::http::ParseError;

verus! {

/// The name of a method, as it stands in a request line.
pub open spec fn method_token(m: HttpMethod) -> Seq<u8> {
    match m {
        HttpMethod::GET => seq![71u8, 69, 84],
        HttpMethod::POST => seq![80u8, 79, 83, 84],
        HttpMethod::OPTIONS => seq![79u8, 80, 84, 73, 79, 78, 83],
    }
}

/// A line terminator: a line feed, after a carriage return or alone.
pub open spec fn line_end(crlf: bool) -> Seq<u8> {
    if crlf {
        seq![13u8, 10u8]
    } else {
        seq![10u8]
    }
}

/// A request line without its terminator.
pub open spec fn request_line(m: HttpMethod, path: Seq<u8>) -> Seq<u8> {
    method_token(m) + seq![32u8] + path + seq![32u8] + version_token()
}

/// A header line without its terminator.
pub open spec fn header_text(name: Seq<u8>, value: Seq<u8>) -> Seq<u8> {
    name + seq![58u8, 32u8] + value
}

/// The header lines of `headers`, each with its terminator.
pub open spec fn header_block(headers: Seq<(Seq<u8>, Seq<u8>)>, crlf: bool) -> Seq<u8>
    decreases headers.len(),
{
    if headers.len() == 0 {
        Seq::empty()
    } else {
        header_text(headers[0].0, headers[0].1) + line_end(crlf) + header_block(
            headers.drop_first(),
            crlf,
        )
    }
}

/// A request on the wire: the request line, the header lines, an empty line, the body.
pub open spec fn request_text(
    m: HttpMethod,
    path: Seq<u8>,
    headers: Seq<(Seq<u8>, Seq<u8>)>,
    crlf: bool,
    body: Seq<u8>,
) -> Seq<u8> {
    request_line(m, path) + line_end(crlf) + header_block(headers, crlf) + line_end(crlf) + body
}

/// The mapping that holds `acc` and then each of `headers`, in their order.
pub open spec fn header_map(acc: Map<Seq<char>, Seq<char>>, headers: Seq<(Seq<u8>, Seq<u8>)>) -> Map<
    Seq<char>,
    Seq<char>,
>
    decreases headers.len(),
{
    if headers.len() == 0 {
        acc
    } else {
        header_map(
            acc.insert(utf8_lossy(headers[0].0), utf8_lossy(headers[0].1)),
            headers.drop_first(),
        )
    }
}

/// Whether `b` does not occur in `s`.
pub open spec fn free_of(s: Seq<u8>, b: u8) -> bool {
    forall|i: int| 0 <= i < s.len() ==> s[i] != b
}

/// Whether a path can stand in a request line: it is not empty and
/// holds no space, line feed or carriage return.
pub open spec fn plain_path(path: Seq<u8>) -> bool {
    path.len() >= 1 && free_of(path, 32u8) && free_of(path, 10u8) && free_of(path, 13u8)
}

/// Whether each header can stand in a header line: no colon or line
/// feed in a name, no line feed or carriage return in a value.
pub open spec fn plain_headers(headers: Seq<(Seq<u8>, Seq<u8>)>) -> bool {
    forall|j: int|
        0 <= j < headers.len() ==> {
            &&& free_of((#[trigger] headers[j]).0, 58u8)
            &&& free_of(headers[j].0, 10u8)
            &&& free_of(headers[j].1, 10u8)
            &&& free_of(headers[j].1, 13u8)
        }
}

/// The first `delimiter` at or after `from` is at `e` if none stands before it.
pub proof fn lemma_find_first(s: Seq<u8>, from: int, e: int, delimiter: u8)
    requires
        0 <= from <= e <= s.len(),
        forall|j: int| from <= j < e ==> s[j] != delimiter,
        e < s.len() ==> s[e] == delimiter,
    ensures
        find_from(s, from, delimiter) == e,
    decreases e - from,
{
    if from < e {
        lemma_find_first(s, from + 1, e, delimiter);
    }
}

/// A sequence without separators is one piece.
pub proof fn lemma_split_free<T>(s: Seq<T>, sep: spec_fn(T) -> bool)
    requires
        forall|i: int| 0 <= i < s.len() ==> !sep(s[i]),
    ensures
        split(s, sep) == seq![s],
    decreases s.len(),
{
    if s.len() == 0 {
        assert(s =~= Seq::<T>::empty());
    } else {
        lemma_split_free(s.drop_last(), sep);
        let before = seq![s.drop_last()];
        assert(before.drop_last().push(before.last().push(s.last())) =~= seq![s]) by {
            assert(s.drop_last().push(s.last()) =~= s);
        }
    }
}

/// Behind a separator, a piece without separators is the last piece.
pub proof fn lemma_split_join<T>(a: Seq<T>, c: T, b: Seq<T>, sep: spec_fn(T) -> bool)
    requires
        sep(c),
        forall|i: int| 0 <= i < b.len() ==> !sep(b[i]),
    ensures
        split(a + seq![c] + b, sep) == split(a, sep).push(b),
    decreases b.len(),
{
    let s = a + seq![c] + b;
    if b.len() == 0 {
        assert(s.drop_last() =~= a);
        assert(b =~= Seq::<T>::empty());
    } else {
        lemma_split_join(a, c, b.drop_last(), sep);
        assert(s.drop_last() =~= a + seq![c] + b.drop_last());
        assert(s.last() == b.last());
        let before = split(a, sep).push(b.drop_last());
        assert(before.drop_last() =~= split(a, sep));
        assert(b.drop_last().push(b.last()) =~= b);
    }
}

/// A line that stands at `pos`, followed by a terminator, is read as it is.
pub proof fn lemma_line(input: Seq<u8>, pos: int, content: Seq<u8>, crlf: bool)
    requires
        0 <= pos,
        pos + content.len() + line_end(crlf).len() <= input.len(),
        forall|j: int| 0 <= j < content.len() ==> input[pos + j] == content[j],
        forall|j: int|
            0 <= j < line_end(crlf).len() ==> input[pos + content.len() + j] == line_end(crlf)[j],
        free_of(content, 10u8),
        content.len() == 0 || content.last() != 13u8,
    ensures
        piece_at(input, pos, 10u8) == content,
        next_at(input, pos, 10u8) == pos + content.len() + line_end(crlf).len(),
{
    let n = content.len() as int;
    let e = if crlf {
        pos + n + 1
    } else {
        pos + n
    };
    assert(input[e] == 10u8) by {
        if crlf {
            assert(input[pos + n + 1] == line_end(crlf)[1]);
        } else {
            assert(input[pos + n + 0] == line_end(crlf)[0]);
        }
    }
    assert forall|j: int| pos <= j < e implies input[j] != 10u8 by {
        if j < pos + n {
            assert(input[pos + (j - pos)] == content[j - pos]);
        } else {
            assert(input[pos + n + 0] == line_end(crlf)[0]);
        }
    }
    lemma_find_first(input, pos, e, 10u8);
    let raw = input.subrange(pos, e);
    if crlf {
        assert(input[pos + n + 0] == line_end(crlf)[0]);
        assert(raw.last() == 13u8);
        assert(raw.drop_last() =~= content) by {
            assert forall|j: int| 0 <= j < n implies raw.drop_last()[j] == content[j] by {
                assert(input[pos + j] == content[j]);
            }
        }
    } else {
        assert(raw =~= content) by {
            assert forall|j: int| 0 <= j < n implies raw[j] == content[j] by {
                assert(input[pos + j] == content[j]);
            }
        }
    }
}

/// A line that stands between `before` and `after`, followed by a
/// terminator, is read as it is.
pub proof fn lemma_line_between(before: Seq<u8>, content: Seq<u8>, crlf: bool, after: Seq<u8>)
    requires
        free_of(content, 10u8),
        content.len() == 0 || content.last() != 13u8,
    ensures
        piece_at(before + content + line_end(crlf) + after, before.len() as int, 10u8) == content,
        next_at(before + content + line_end(crlf) + after, before.len() as int, 10u8)
            == before.len() + content.len() + line_end(crlf).len(),
{
    let input = before + content + line_end(crlf) + after;
    lemma_line(input, before.len() as int, content, crlf);
}

/// The parts of a header line that was written out.
pub proof fn lemma_header_parts(name: Seq<u8>, value: Seq<u8>)
    requires
        free_of(name, 58u8),
        free_of(name, 10u8),
        free_of(value, 10u8),
        free_of(value, 13u8),
    ensures
        header_text(name, value).len() >= 2,
        free_of(header_text(name, value), 10u8),
        header_text(name, value).last() != 13u8,
        colon_at(header_text(name, value)) == name.len(),
        header_name(header_text(name, value)) == utf8_lossy(name),
        header_value(header_text(name, value)) == utf8_lossy(value),
{
    let content = header_text(name, value);
    lemma_find_first(content, 0, name.len() as int, 58u8);
    assert(content.subrange(0, name.len() as int) =~= name);
    assert(content.subrange(name.len() as int + 2, content.len() as int) =~= value);
}

/// Header lines that were written out are read back as they were
/// written, up to the empty line behind them.
pub proof fn lemma_headers_read_back(
    before: Seq<u8>,
    headers: Seq<(Seq<u8>, Seq<u8>)>,
    crlf: bool,
    body: Seq<u8>,
    acc: Map<Seq<char>, Seq<char>>,
)
    requires
        plain_headers(headers),
    ensures
        headers_from(
            before + header_block(headers, crlf) + line_end(crlf) + body,
            before.len() as int,
            acc,
        ) == Ok::<(Map<Seq<char>, Seq<char>>, int), ParseError>(
            (
                header_map(acc, headers),
                (before.len() + header_block(headers, crlf).len() + line_end(crlf).len()) as int,
            ),
        ),
    decreases headers.len(),
{
    let input = before + header_block(headers, crlf) + line_end(crlf) + body;
    if headers.len() == 0 {
        lemma_line_between(before, Seq::empty(), crlf, body);
        assert(input =~= before + Seq::<u8>::empty() + line_end(crlf) + body);
    } else {
        let name = headers[0].0;
        let value = headers[0].1;
        let content = header_text(name, value);
        let rest = headers.drop_first();
        let after = header_block(rest, crlf) + line_end(crlf) + body;
        lemma_header_parts(name, value);
        lemma_line_between(before, content, crlf, after);
        assert(input =~= before + content + line_end(crlf) + after);
        let next = before + content + line_end(crlf);
        assert(input =~= next + header_block(rest, crlf) + line_end(crlf) + body);
        assert(plain_headers(rest)) by {
            assert forall|j: int| 0 <= j < rest.len() implies {
                &&& free_of((#[trigger] rest[j]).0, 58u8)
                &&& free_of(rest[j].0, 10u8)
                &&& free_of(rest[j].1, 10u8)
                &&& free_of(rest[j].1, 13u8)
            } by {
                assert(rest[j] == headers[j + 1]);
            }
        }
        lemma_headers_read_back(
            next,
            rest,
            crlf,
            body,
            acc.insert(utf8_lossy(name), utf8_lossy(value)),
        );
    }
}

/// The tokens of a request line that was written out.
pub proof fn lemma_request_line(m: HttpMethod, path: Seq<u8>)
    requires
        plain_path(path),
    ensures
        request_line(m, path).len() >= 14,
        free_of(request_line(m, path), 10u8),
        request_line(m, path).last() != 13u8,
        split(request_line(m, path), token_sep()) == seq![method_token(m), path, version_token()],
        method_of(method_token(m)) == Some(m),
{
    let name = method_token(m);
    let version = version_token();
    let sep = token_sep();
    assert forall|i: int| 0 <= i < name.len() implies !sep(#[trigger] name[i]) by {}
    assert forall|i: int| 0 <= i < version.len() implies !sep(#[trigger] version[i]) by {}
    assert forall|i: int| 0 <= i < path.len() implies !sep(#[trigger] path[i]) by {}
    lemma_split_free(name, sep);
    lemma_split_join(name, 32u8, path, sep);
    lemma_split_join(name + seq![32u8] + path, 32u8, version, sep);
    assert(seq![name].push(path).push(version) =~= seq![name, path, version]);
}

/// Parsing reads back what was written: a request line with a known
/// method, a plain path and the served version, any number of plain
/// header lines, an empty line and a body, with either line
/// terminator, parse to that method, that path, those headers (a later
/// one of the same name replacing an earlier one) and that body.
pub proof fn lemma_parse_reads_back(
    m: HttpMethod,
    path: Seq<u8>,
    headers: Seq<(Seq<u8>, Seq<u8>)>,
    crlf: bool,
    body: Seq<u8>,
)
    requires
        plain_path(path),
        plain_headers(headers),
    ensures
        parsed(request_text(m, path, headers, crlf, body)) == Ok::<RequestView, ParseError>(
            RequestView {
                method: m,
                path: utf8_lossy(path),
                headers: header_map(Map::empty(), headers),
                query: Map::empty(),
                params: Map::empty(),
                body,
            },
        ),
{
    let input = request_text(m, path, headers, crlf, body);
    let first = request_line(m, path);
    let after = header_block(headers, crlf) + line_end(crlf) + body;
    lemma_request_line(m, path);
    lemma_line_between(Seq::empty(), first, crlf, after);
    assert(input =~= Seq::<u8>::empty() + first + line_end(crlf) + after);
    let before = first + line_end(crlf);
    assert(input =~= before + header_block(headers, crlf) + line_end(crlf) + body);
    lemma_headers_read_back(before, headers, crlf, body, Map::empty());
    assert(input.subrange(input.len() - body.len(), input.len() as int) =~= body);
}

} // verus!
