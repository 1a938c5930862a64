use vstd::prelude::*;
use vstd::slice::slice_subrange;
use crate::http::fields::bytes_eq;
use crate::http::fields::Fields;
use crate::http::stream::find_from;
use crate::http::stream::lemma_find_from_bounds;
use crate::http::stream::next_at;
use crate::http::stream::piece_at;
use crate::http::stream::read_next_line;
use crate::http::text::string_from_utf8_lossy;
use crate::http::text::split;
use crate::http::text::split_tokens;
use crate::http::text::token_sep;
use crate::http::text::utf8_lossy;
use crate::http::method_of;
use crate::http::HttpMethod;
use crate::http::ParseError;

verus! {

/// The length of the shortest legal request line, `GET / HTTP/1.1`.
pub const MIN_REQUEST_LINE: usize = 14;

/// The bytes of the only version that is served, `HTTP/1.1`.
pub open spec fn version_token() -> Seq<u8> {
    seq![72u8, 84, 84, 80, 47, 49, 46, 49]
}

/// The position of the first colon of a header line, or its length where it has none.
pub open spec fn colon_at(line: Seq<u8>) -> int {
    find_from(line, 0, 58u8)
}

/// The name of a header line: the text before its first colon.
pub open spec fn header_name(line: Seq<u8>) -> Seq<char> {
    utf8_lossy(line.subrange(0, colon_at(line)))
}

/// Where the value of a header line starts: behind the colon and the
/// byte after it, or at the end of a line that is too short for that.
pub open spec fn value_start(line: Seq<u8>) -> int {
    if colon_at(line) + 2 <= line.len() {
        colon_at(line) + 2
    } else {
        line.len() as int
    }
}

/// The value of a header line: the text behind the colon and the space after it.
pub open spec fn header_value(line: Seq<u8>) -> Seq<char> {
    utf8_lossy(line.subrange(value_start(line), line.len() as int))
}

/// The headers read from `input` from position `from` on, added to
/// `acc` in their order, and the position behind the empty line that
/// ends them. A line without a colon fails the whole.
pub open spec fn headers_from(input: Seq<u8>, from: int, acc: Map<Seq<char>, Seq<char>>) -> Result<
    (Map<Seq<char>, Seq<char>>, int),
    ParseError,
>
    decreases input.len() - from,
    via headers_from_decreases
{
    let line = piece_at(input, from, 10u8);
    let next = next_at(input, from, 10u8);
    if from < 0 || line.len() == 0 {
        Ok((acc, next))
    } else if colon_at(line) >= line.len() {
        Err(ParseError::MalformedHeaderLine)
    } else {
        headers_from(input, next, acc.insert(header_name(line), header_value(line)))
    }
}

#[via_fn]
proof fn headers_from_decreases(input: Seq<u8>, from: int, acc: Map<Seq<char>, Seq<char>>) {
    if from >= 0 && piece_at(input, from, 10u8).len() > 0 {
        if from <= input.len() {
            lemma_find_from_bounds(input, from, 10u8);
        }
    }
}

/// What a request holds, as plain values.
pub struct RequestView {
    pub method: HttpMethod,
    pub path: Seq<char>,
    pub headers: Map<Seq<char>, Seq<char>>,
    pub query: Map<Seq<char>, Seq<char>>,
    pub params: Map<Seq<char>, Seq<char>>,
    pub body: Seq<u8>,
}

/// The bytes of the path in the request line of `input`: its second token.
pub open spec fn path_token(input: Seq<u8>) -> Seq<u8> {
    split(piece_at(input, 0, 10u8), token_sep())[1]
}

/// The request that `input` holds, or the reason why it holds none.
///
/// The first line must have at least the length of the shortest legal
/// request line. Its tokens are the method, the path and the version.
/// Header lines follow up to an empty line; what is behind that line is
/// the body. Query and path parameters are not read here.
pub open spec fn parsed(input: Seq<u8>) -> Result<RequestView, ParseError> {
    let first = piece_at(input, 0, 10u8);
    let tokens = split(first, token_sep());
    if first.len() < MIN_REQUEST_LINE {
        Err(ParseError::TruncatedRequest)
    } else {
        match method_of(tokens[0]) {
            None => Err(ParseError::UnrecognizedMethod),
            Some(method) => {
                if tokens.len() < 3 || tokens[2] != version_token() {
                    Err(ParseError::UnsupportedVersion)
                } else {
                    match headers_from(input, next_at(input, 0, 10u8), Map::empty()) {
                        Err(e) => Err(e),
                        Ok((headers, body_start)) => Ok(
                            RequestView {
                                method,
                                path: utf8_lossy(path_token(input)),
                                headers,
                                query: Map::empty(),
                                params: Map::empty(),
                                body: input.subrange(body_start, input.len() as int),
                            },
                        ),
                    }
                }
            },
        }
    }
}

/// One request, as it was read from a connection.
#[derive(Debug)]
pub struct Request {
    pub method: HttpMethod,
    pub path: String,
    pub headers: Fields,
    pub query: Fields,
    pub params: Fields,
    pub body: Vec<u8>,
}

impl View for Request {
    type V = RequestView;

    open spec fn view(&self) -> RequestView {
        RequestView {
            method: self.method,
            path: self.path@,
            headers: self.headers@,
            query: self.query@,
            params: self.params@,
            body: self.body@,
        }
    }
}

/// Reads the header lines of `input` from `start` on into a mapping.
pub fn read_headers(input: &[u8], start: usize) -> (r: Result<(Fields, usize), ParseError>)
    ensures
        match headers_from(input@, start as int, Map::empty()) {
            Ok((headers, next)) => r is Ok && r->Ok_0.0@ == headers && r->Ok_0.0.wf() && r->Ok_0.1
                == next && next <= input@.len(),
            Err(e) => r is Err && r->Err_0 == e,
        },
{
    let mut headers = Fields::new();
    let mut pos: usize = start;
    loop
        invariant
            headers.wf(),
            headers_from(input@, start as int, Map::empty()) == headers_from(
                input@,
                pos as int,
                headers@,
            ),
        decreases input@.len() - pos,
    {
        let (line, next) = read_next_line(input, pos);
        if line.len() == 0 {
            return Ok((headers, next));
        }
        proof {
            lemma_find_from_bounds(line@, 0, 58u8);
            if pos >= input@.len() {
                lemma_find_from_bounds(input@, input@.len() as int, 10u8);
            }
        }
        let mut colon: usize = 0;
        while colon < line.len() && line[colon] != 58u8
            invariant
                colon <= line@.len(),
                find_from(line@, 0, 58u8) == find_from(line@, colon as int, 58u8),
            decreases line@.len() - colon,
        {
            colon += 1;
        }
        if colon >= line.len() {
            return Err(ParseError::MalformedHeaderLine);
        }
        let from: usize = if line.len() - colon >= 2 {
            colon + 2
        } else {
            line.len()
        };
        let name = string_from_utf8_lossy(slice_subrange(line.as_slice(), 0, colon));
        let value = string_from_utf8_lossy(slice_subrange(line.as_slice(), from, line.len()));
        headers.insert(name, value);
        pos = next;
    }
}

impl Request {
    /// The invariant of a request: each of its mappings has one entry per name.
    pub open spec fn wf(&self) -> bool {
        self.headers.wf() && self.query.wf() && self.params.wf()
    }

    /// Parses one request from the bytes that a connection's stream has delivered.
    ///
    /// The body is whatever follows the empty line that ends the
    /// headers within `input`: bytes that had not arrived when `input`
    /// was taken are not part of it. The path and the headers are
    /// text; bytes in them that are not UTF-8 become replacement
    /// characters.
    pub fn from_stream(input: &[u8]) -> (r: Result<Request, ParseError>)
        ensures
            match parsed(input@) {
                Ok(v) => r is Ok && r->Ok_0@ == v && r->Ok_0.wf(),
                Err(e) => r is Err && r->Err_0 == e,
            },
            r is Ok && vstd::utf8::valid_utf8(path_token(input@)) ==> r->Ok_0.path@
                == vstd::utf8::decode_utf8(path_token(input@)),
    {
        let (first, next) = read_next_line(input, 0);
        if first.len() < MIN_REQUEST_LINE {
            return Err(ParseError::TruncatedRequest);
        }
        let tokens = split_tokens(first.as_slice());
        proof {
            crate::http::text::lemma_split_nonempty(first@, token_sep());
        }
        let method = match HttpMethod::from_bytes(tokens[0].as_slice()) {
            Ok(m) => m,
            Err(e) => {
                return Err(e);
            },
        };
        let version: [u8; 8] = [72, 84, 84, 80, 47, 49, 46, 49];
        assert(version@ =~= version_token());
        if tokens.len() < 3 || !bytes_eq(tokens[2].as_slice(), version.as_slice()) {
            return Err(ParseError::UnsupportedVersion);
        }
        let (headers, body_start) = match read_headers(input, next) {
            Ok(found) => found,
            Err(e) => {
                return Err(e);
            },
        };
        let path = string_from_utf8_lossy(tokens[1].as_slice());
        let body = vstd::slice::slice_to_vec(slice_subrange(input, body_start, input.len()));
        let query = Fields::new();
        let params = Fields::new();
        Ok(Request { method, path, headers, query, params, body })
    }
}

} // verus!
