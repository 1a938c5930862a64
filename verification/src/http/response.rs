use vstd::prelude::*;
use vstd::utf8::encode_utf8;
use crate::http::fields::Fields;
use crate::http::text::decimal;
use crate::http::text::push_decimal;
use crate::http::text::push_str;

verus! {

/// The status that a response has when none was set.
pub const DEFAULT_STATUS: u16 = 500;

/// What a response holds, as plain values. The headers are in the
/// order in which they are written.
pub struct ResponseView {
    pub status: Option<u16>,
    pub status_message: Option<Seq<char>>,
    pub headers: Seq<(Seq<char>, Seq<char>)>,
    pub body: Option<Seq<u8>>,
}

/// The status line: `HTTP/1.1`, the code, the message, each after a
/// space, and a line feed. Without a status the code is 500; without a
/// message nothing follows the second space.
pub open spec fn status_line(status: Option<u16>, message: Option<Seq<char>>) -> Seq<u8> {
    let code: nat = match status {
        Some(c) => c as nat,
        None => DEFAULT_STATUS as nat,
    };
    let text: Seq<u8> = match message {
        Some(m) => encode_utf8(m),
        None => Seq::empty(),
    };
    encode_utf8("HTTP/1.1 "@) + decimal(code) + seq![32u8] + text + seq![10u8]
}

/// One header line: the name, a colon and a space, the value, a line feed.
pub open spec fn header_line(name: Seq<char>, value: Seq<char>) -> Seq<u8> {
    encode_utf8(name) + encode_utf8(": "@) + encode_utf8(value) + seq![10u8]
}

/// The header lines of `headers`, in their order.
pub open spec fn header_lines(headers: Seq<(Seq<char>, Seq<char>)>) -> Seq<u8>
    decreases headers.len(),
{
    if headers.len() == 0 {
        Seq::empty()
    } else {
        header_lines(headers.drop_last()) + header_line(headers.last().0, headers.last().1)
    }
}

/// What ends the head of a response and what follows it: with a body,
/// the line that gives its length, an empty line and the body; without
/// one, an empty line only.
pub open spec fn tail(body: Option<Seq<u8>>) -> Seq<u8> {
    match body {
        Some(b) => encode_utf8("Content-Length: "@) + decimal(b.len()) + seq![10u8] + seq![10u8] + b,
        None => seq![10u8],
    }
}

/// The bytes of a response on the wire.
pub open spec fn serialized(r: ResponseView) -> Seq<u8> {
    status_line(r.status, r.status_message) + header_lines(r.headers) + tail(r.body)
}

/// A response in the making: each part can be set any number of times,
/// in any order, and the last value counts.
#[derive(Debug)]
pub struct Response {
    pub status: Option<u16>,
    pub status_message: Option<String>,
    pub headers: Fields,
    pub body: Option<Vec<u8>>,
}

impl View for Response {
    type V = ResponseView;

    open spec fn view(&self) -> ResponseView {
        ResponseView {
            status: self.status,
            status_message: match self.status_message {
                Some(m) => Some(m@),
                None => None,
            },
            headers: self.headers.pairs(),
            body: match self.body {
                Some(b) => Some(b@),
                None => None,
            },
        }
    }
}

impl Response {
    /// A response with nothing set.
    pub fn new() -> (r: Response)
        ensures
            r.headers.wf(),
            r@ == (ResponseView {
                status: None,
                status_message: None,
                headers: Seq::empty(),
                body: None,
            }),
    {
        Response { status: None, status_message: None, headers: Fields::new(), body: None }
    }

    /// Sets the body.
    pub fn body(self, body: Vec<u8>) -> (r: Response)
        ensures
            r@ == (ResponseView { body: Some(body@), ..self@ }),
    {
        let Response { status, status_message, headers, body: _ } = self;
        Response { status, status_message, headers, body: Some(body) }
    }

    /// Sets the header `key` to `value`. A header that is already there
    /// keeps its place; a new one goes behind the others.
    pub fn header(self, key: &str, value: &str) -> (r: Response)
        ensures
            r@.status == self@.status,
            r@.status_message == self@.status_message,
            r@.body == self@.body,
            r.headers@ == self.headers@.insert(key@, value@),
            self.headers.wf() ==> r.headers.wf(),
            r@.headers == match self.headers.spec_position(key@) {
                Some(i) => self@.headers.update(i, (key@, value@)),
                None => self@.headers.push((key@, value@)),
            },
    {
        let Response { status, status_message, mut headers, body } = self;
        headers.insert(key.to_owned(), value.to_owned());
        Response { status, status_message, headers, body }
    }

    /// Sets the status code and leaves the message as it is.
    pub fn status(self, code: u16) -> (r: Response)
        ensures
            r@ == (ResponseView { status: Some(code), ..self@ }),
    {
        let Response { status: _, status_message, headers, body } = self;
        Response { status: Some(code), status_message, headers, body }
    }

    /// Sets the status code and the message; without a text the message is removed.
    pub fn status_with_msg(self, code: u16, text: Option<&str>) -> (r: Response)
        ensures
            r@ == (ResponseView {
                status: Some(code),
                status_message: match text {
                    Some(t) => Some(t@),
                    None => None,
                },
                ..self@
            }),
    {
        let Response { status: _, status_message: _, headers, body } = self;
        let status_message = match text {
            Some(t) => Some(t.to_owned()),
            None => None,
        };
        Response { status: Some(code), status_message, headers, body }
    }

    /// The bytes to write to the connection: the status line, the
    /// headers, and the body with its length where there is one.
    pub fn send(&self) -> (out: Vec<u8>)
        ensures
            out@ == serialized(self@),
    {
        let mut out: Vec<u8> = Vec::new();
        push_str(&mut out, "HTTP/1.1 ");
        let code: u16 = match self.status {
            Some(c) => c,
            None => DEFAULT_STATUS,
        };
        push_decimal(&mut out, code as usize);
        out.push(32u8);
        match &self.status_message {
            Some(m) => {
                push_str(&mut out, m.as_str());
            },
            None => {},
        }
        out.push(10u8);
        assert(out@ =~= status_line(self@.status, self@.status_message));
        let ghost head = out@;
        let n = self.headers.entries.len();
        let mut i: usize = 0;
        assert(self@.headers.take(0) =~= Seq::empty());
        while i < n
            invariant
                i <= n,
                n == self.headers.entries@.len(),
                out@ == head + header_lines(self@.headers.take(i as int)),
            decreases n - i,
        {
            let ghost before = out@;
            push_str(&mut out, self.headers.entries[i].0.as_str());
            push_str(&mut out, ": ");
            push_str(&mut out, self.headers.entries[i].1.as_str());
            out.push(10u8);
            proof {
                let pairs = self@.headers;
                assert(pairs.take(i + 1).drop_last() =~= pairs.take(i as int));
                assert(pairs.take(i + 1).last() == pairs[i as int]);
                assert(out@ =~= before + header_line(pairs[i as int].0, pairs[i as int].1));
                assert(out@ =~= head + header_lines(pairs.take(i + 1)));
            }
            i += 1;
        }
        assert(self@.headers.take(n as int) =~= self@.headers);
        let ghost upto = out@;
        match &self.body {
            Some(b) => {
                push_str(&mut out, "Content-Length: ");
                push_decimal(&mut out, b.len());
                out.push(10u8);
                out.push(10u8);
                out.extend_from_slice(b.as_slice());
                assert(out@ =~= upto + tail(self@.body));
            },
            None => {
                out.push(10u8);
                assert(out@ =~= upto + tail(self@.body));
            },
        }
        out
    }

    /// Sends `content` as an HTML page: sets the content type and the
    /// body, and gives the bytes to write.
    pub fn send_html(self, content: &str) -> (out: Vec<u8>)
        ensures
            out@ == serialized(
                ResponseView {
                    headers: self.with_header("Content-Type"@, "text/html"@),
                    body: Some(encode_utf8(content@)),
                    ..self@
                },
            ),
    {
        let r = self.header("Content-Type", "text/html").body(vstd::slice::slice_to_vec(content.as_bytes()));
        r.send()
    }

    /// Sends a value that was serialised as JSON: sets the content type
    /// and the body, and gives the bytes to write.
    pub fn send_json(self, json: &str) -> (out: Vec<u8>)
        ensures
            out@ == serialized(
                ResponseView {
                    headers: self.with_header("Content-Type"@, "application/json"@),
                    body: Some(encode_utf8(json@)),
                    ..self@
                },
            ),
    {
        let r = self.header("Content-Type", "application/json").body(vstd::slice::slice_to_vec(json.as_bytes()));
        r.send()
    }

    /// The headers after `key` was set to `value`.
    pub open spec fn with_header(&self, key: Seq<char>, value: Seq<char>) -> Seq<(Seq<char>, Seq<char>)> {
        match self.headers.spec_position(key) {
            Some(i) => self@.headers.update(i, (key, value)),
            None => self@.headers.push((key, value)),
        }
    }
}

} // verus!
