pub mod fields;
pub mod json;
pub mod rendering;
pub mod request;
pub mod response;
pub mod routes;
pub mod server;
pub mod stream;
pub mod text;

use vstd::prelude::*;

verus! {

/// The request methods this server understands.
#[derive(Clone, Copy, Debug, PartialEq, Eq, Structural)]
pub enum HttpMethod {
    GET,
    POST,
    OPTIONS,
}

/// Why a request could not be parsed.
#[derive(Clone, Copy, Debug, PartialEq, Eq, Structural)]
pub enum ParseError {
    /// Fewer bytes than the shortest legal request line.
    TruncatedRequest,
    /// The method token is not one of the known methods.
    UnrecognizedMethod,
    /// The version token is not `HTTP/1.1`.
    UnsupportedVersion,
    /// A header line without a colon.
    MalformedHeaderLine,
}

/// The method that a token names, if any. A single trailing space is
/// tolerated after the name.
pub open spec fn method_of(token: Seq<u8>) -> Option<HttpMethod> {
    if token == seq![71u8, 69, 84] || token == seq![71u8, 69, 84, 32] {
        Some(HttpMethod::GET)
    } else if token == seq![80u8, 79, 83, 84] || token == seq![80u8, 79, 83, 84, 32] {
        Some(HttpMethod::POST)
    } else if token == seq![79u8, 80, 84, 73, 79, 78, 83] || token == seq![
        79u8,
        80,
        84,
        73,
        79,
        78,
        83,
        32,
    ] {
        Some(HttpMethod::OPTIONS)
    } else {
        None
    }
}

/// Whether `token` is exactly the bytes of `name`, or those bytes and one space.
fn names(token: &[u8], name: &[u8]) -> (r: bool)
    requires
        name@.len() < 100,
    ensures
        r == (token@ == name@ || token@ == name@.push(32u8)),
{
    let n = name.len();
    if token.len() != n && token.len() != n + 1 {
        return false;
    }
    let mut i: usize = 0;
    while i < n
        invariant
            i <= n,
            n == name@.len(),
            n <= token@.len() <= n + 1,
            token@.take(i as int) == name@.take(i as int),
        decreases n - i,
    {
        if token[i] != name[i] {
            assert(token@[i as int] != name@[i as int]);
            return false;
        }
        assert(token@.take(i + 1) == token@.take(i as int).push(token@[i as int]));
        assert(name@.take(i + 1) == name@.take(i as int).push(name@[i as int]));
        i += 1;
    }
    assert(name@.take(n as int) == name@);
    if token.len() == n {
        assert(token@.take(n as int) == token@);
        true
    } else {
        assert(token@ == token@.take(n as int).push(token@[n as int]));
        token[n] == 32u8
    }
}

impl HttpMethod {
    /// The method's name in upper case.
    pub open spec fn spec_name(self) -> Seq<char> {
        match self {
            HttpMethod::GET => "GET"@,
            HttpMethod::POST => "POST"@,
            HttpMethod::OPTIONS => "OPTIONS"@,
        }
    }

    /// The method's name in upper case.
    pub fn name(&self) -> (s: &'static str)
        ensures
            s@ == self.spec_name(),
    {
        match self {
            HttpMethod::GET => "GET",
            HttpMethod::POST => "POST",
            HttpMethod::OPTIONS => "OPTIONS",
        }
    }

    /// Reads a method from its name as text.
    pub fn from_str(s: &str) -> (r: Result<HttpMethod, ParseError>)
        ensures
            r == match method_of(vstd::utf8::encode_utf8(s@)) {
                Some(m) => Ok::<HttpMethod, ParseError>(m),
                None => Err(ParseError::UnrecognizedMethod),
            },
    {
        HttpMethod::from_bytes(s.as_bytes())
    }

    /// Reads a method from the bytes of its name.
    pub fn from_bytes(s: &[u8]) -> (r: Result<HttpMethod, ParseError>)
        ensures
            r == match method_of(s@) {
                Some(m) => Ok::<HttpMethod, ParseError>(m),
                None => Err(ParseError::UnrecognizedMethod),
            },
    {
        let get: [u8; 3] = [71, 69, 84];
        let post: [u8; 4] = [80, 79, 83, 84];
        let options: [u8; 7] = [79, 80, 84, 73, 79, 78, 83];
        assert(get@ =~= seq![71u8, 69, 84]);
        assert(post@ =~= seq![80u8, 79, 83, 84]);
        assert(options@ =~= seq![79u8, 80, 84, 73, 79, 78, 83]);
        assert(seq![71u8, 69, 84].push(32u8) =~= seq![71u8, 69, 84, 32]);
        assert(seq![80u8, 79, 83, 84].push(32u8) =~= seq![80u8, 79, 83, 84, 32]);
        assert(seq![79u8, 80, 84, 73, 79, 78, 83].push(32u8) =~= seq![
            79u8,
            80,
            84,
            73,
            79,
            78,
            83,
            32,
        ]);
        if names(s, get.as_slice()) {
            Ok(HttpMethod::GET)
        } else if names(s, post.as_slice()) {
            Ok(HttpMethod::POST)
        } else if names(s, options.as_slice()) {
            Ok(HttpMethod::OPTIONS)
        } else {
            Err(ParseError::UnrecognizedMethod)
        }
    }
}

} // verus!
