use bare_http::http::request::Request;
use bare_http::http::stream::{read_next_line, read_till_next, read_till_next_string};
use bare_http::http::text::{split_slashes, split_tokens};
use bare_http::http::json::{encoded, EncodeError};
use bare_http::http::{HttpMethod, ParseError};

fn request_text(method: &str, path: &str, headers: &[(&str, &str)], eol: &str) -> Vec<u8> {
    let mut text = format!("{} {} HTTP/1.1{}", method, path, eol);
    for (name, value) in headers {
        text.push_str(&format!("{}: {}{}", name, value, eol));
    }
    text.push_str(eol);
    text.into_bytes()
}

fn check_round_trip(method: &str, expected: HttpMethod, path: &str, headers: &[(&str, &str)], eol: &str) {
    let request = match Request::from_stream(&request_text(method, path, headers, eol)) {
        Ok(r) => r,
        Err(e) => panic!("parse failed: {:?}", e),
    };
    assert_eq!(request.method, expected);
    assert_eq!(request.path, path);
    assert_eq!(request.headers.len(), headers.len());
    for (name, value) in headers {
        assert_eq!(request.headers.get(name).map(|v| v.as_str()), Some(*value));
    }
    assert_eq!(request.query.len(), 0);
    assert_eq!(request.params.len(), 0);
    assert!(request.body.is_empty());
}

#[test]
fn parse_without_headers() {
    check_round_trip("GET", HttpMethod::GET, "/index/page", &[], "\r\n");
    check_round_trip("POST", HttpMethod::POST, "/index/page", &[], "\n");
    check_round_trip("OPTIONS", HttpMethod::OPTIONS, "/", &[], "\r\n");
}

#[test]
fn parse_with_one_header() {
    check_round_trip("GET", HttpMethod::GET, "/one/header", &[("Host", "example.org")], "\r\n");
    check_round_trip("POST", HttpMethod::POST, "/one/header", &[("Host", "example.org")], "\n");
}

#[test]
fn parse_with_five_headers() {
    let headers = [
        ("Host", "example.org"),
        ("Accept", "*/*"),
        ("User-Agent", "probe/1.0"),
        ("X-Trace", "a:b:c"),
        ("Content-Type", "text/plain; charset=utf-8"),
    ];
    check_round_trip("GET", HttpMethod::GET, "/five/headers", &headers, "\r\n");
    check_round_trip("OPTIONS", HttpMethod::OPTIONS, "/five/headers", &headers, "\n");
}

#[test]
fn parse_rejects_unknown_method() {
    assert_eq!(Request::from_stream(b"PATCH / HTTP/1.1\r\n\r\n").err(), Some(ParseError::UnrecognizedMethod));
    assert_eq!(Request::from_stream(b"get /abc HTTP/1.1\r\n\r\n").err(), Some(ParseError::UnrecognizedMethod));
}

#[test]
fn parse_rejects_other_versions() {
    assert_eq!(Request::from_stream(b"GET / HTTP/1.0\r\n\r\n").err(), Some(ParseError::UnsupportedVersion));
    assert_eq!(Request::from_stream(b"GET /abcdefghijk\r\n\r\n").err(), Some(ParseError::UnsupportedVersion));
    assert_eq!(Request::from_stream(b"GET  / HTTP/1.1\r\n\r\n").err(), Some(ParseError::UnsupportedVersion));
}

#[test]
fn parse_method_is_checked_before_version() {
    assert_eq!(Request::from_stream(b"PATCH / HTTP/1.0\r\n\r\n").err(), Some(ParseError::UnrecognizedMethod));
}

#[test]
fn parse_rejects_short_input() {
    assert_eq!(Request::from_stream(b"").err(), Some(ParseError::TruncatedRequest));
    assert_eq!(Request::from_stream(b"\r\n").err(), Some(ParseError::TruncatedRequest));
    assert_eq!(Request::from_stream(b"GET / HTTP/1.\r\n").err(), Some(ParseError::TruncatedRequest));
    assert_eq!(Request::from_stream(b"PATCH\r\nGET / HTTP/1.1\r\n\r\n").err(), Some(ParseError::TruncatedRequest));
}

#[test]
fn parse_rejects_header_without_colon() {
    assert_eq!(
        Request::from_stream(b"GET / HTTP/1.1\r\nHost example.org\r\n\r\n").err(),
        Some(ParseError::MalformedHeaderLine)
    );
    assert_eq!(Request::from_stream(b"GET / HTTP/1.1\nx\n\n").err(), Some(ParseError::MalformedHeaderLine));
}

#[test]
fn parse_takes_what_follows_the_headers_as_body() {
    let request = Request::from_stream(b"POST /submit HTTP/1.1\r\nContent-Length: 9\r\n\r\nline1\nabc").unwrap();
    assert_eq!(request.method, HttpMethod::POST);
    assert_eq!(request.path, "/submit");
    assert_eq!(request.headers.get("Content-Length").map(|v| v.as_str()), Some("9"));
    assert_eq!(request.body, b"line1\nabc".to_vec());
}

#[test]
fn parse_last_header_of_a_name_wins() {
    let request = Request::from_stream(b"GET / HTTP/1.1\r\nX: 1\r\nY: 2\r\nX: 3\r\n\r\n").unwrap();
    assert_eq!(request.headers.len(), 2);
    assert_eq!(request.headers.get("X").map(|v| v.as_str()), Some("3"));
    assert_eq!(request.headers.get("Y").map(|v| v.as_str()), Some("2"));
    assert!(request.headers.get("Z").is_none());
    assert!(request.headers.contains_key("Y"));
    assert!(!request.headers.contains_key("y"));
}

#[test]
fn parse_header_value_starts_two_behind_the_colon() {
    let request = Request::from_stream(b"GET / HTTP/1.1\r\nA:\r\nB:x\r\nC: \r\nD:  y\r\n\r\n").unwrap();
    assert_eq!(request.headers.get("A").map(|v| v.as_str()), Some(""));
    assert_eq!(request.headers.get("B").map(|v| v.as_str()), Some(""));
    assert_eq!(request.headers.get("C").map(|v| v.as_str()), Some(""));
    assert_eq!(request.headers.get("D").map(|v| v.as_str()), Some(" y"));
}

#[test]
fn parse_ends_headers_at_the_end_of_input() {
    let request = Request::from_stream(b"GET /open HTTP/1.1\r\nHost: here").unwrap();
    assert_eq!(request.path, "/open");
    assert_eq!(request.headers.get("Host").map(|v| v.as_str()), Some("here"));
    assert!(request.body.is_empty());
}

#[test]
fn parse_replaces_bytes_that_are_not_text() {
    let request = Request::from_stream(b"GET /\xff\xfe HTTP/1.1\r\nK\xff: v\xc3\xa9\r\n\r\n").unwrap();
    assert_eq!(request.path, "/\u{fffd}\u{fffd}");
    assert_eq!(request.headers.get("K\u{fffd}").map(|v| v.as_str()), Some("v\u{e9}"));
}

#[test]
fn text_is_decoded_and_bad_bytes_are_replaced() {
    assert_eq!(read_till_next_string(b"plain", 0, b'\n'), ("plain".to_string(), 5));
    assert_eq!(
        read_till_next_string("d\u{e9}j\u{e0}\n".as_bytes(), 0, b'\n'),
        ("d\u{e9}j\u{e0}".to_string(), 7)
    );
    assert_eq!(read_till_next_string(b"a\xffb\n", 0, b'\n'), ("a\u{fffd}b".to_string(), 4));
}

#[test]
fn method_from_bytes_and_text() {
    assert_eq!(HttpMethod::from_bytes(b"GET"), Ok(HttpMethod::GET));
    assert_eq!(HttpMethod::from_bytes(b"GET "), Ok(HttpMethod::GET));
    assert_eq!(HttpMethod::from_bytes(b"POST"), Ok(HttpMethod::POST));
    assert_eq!(HttpMethod::from_bytes(b"POST "), Ok(HttpMethod::POST));
    assert_eq!(HttpMethod::from_bytes(b"OPTIONS"), Ok(HttpMethod::OPTIONS));
    assert_eq!(HttpMethod::from_bytes(b"OPTIONS "), Ok(HttpMethod::OPTIONS));
    assert_eq!(HttpMethod::from_bytes(b"GET  "), Err(ParseError::UnrecognizedMethod));
    assert_eq!(HttpMethod::from_bytes(b"GE"), Err(ParseError::UnrecognizedMethod));
    assert_eq!(HttpMethod::from_bytes(b""), Err(ParseError::UnrecognizedMethod));
    assert_eq!(HttpMethod::from_bytes(b"PUT"), Err(ParseError::UnrecognizedMethod));
    assert_eq!(HttpMethod::from_str("OPTIONS"), Ok(HttpMethod::OPTIONS));
    assert_eq!(HttpMethod::from_str("POST "), Ok(HttpMethod::POST));
    assert_eq!(HttpMethod::from_str("post"), Err(ParseError::UnrecognizedMethod));
    assert_eq!(HttpMethod::GET.name(), "GET");
    assert_eq!(HttpMethod::POST.name(), "POST");
    assert_eq!(HttpMethod::OPTIONS.name(), "OPTIONS");
}

#[test]
fn read_till_next_strips_terminators() {
    let buf = b"first\r\nsecond\n\nlast";
    assert_eq!(read_till_next(buf, 0, b'\n'), (b"first".to_vec(), 7));
    assert_eq!(read_next_line(buf, 7), (b"second".to_vec(), 14));
    assert_eq!(read_next_line(buf, 14), (Vec::new(), 15));
    assert_eq!(read_next_line(buf, 15), (b"last".to_vec(), 19));
    assert_eq!(read_next_line(buf, 19), (Vec::new(), 19));
    assert_eq!(read_next_line(buf, 100), (Vec::new(), 19));
    assert_eq!(read_next_line(b"\r\n", 0), (Vec::new(), 2));
    assert_eq!(read_next_line(b"\r", 0), (Vec::new(), 1));
    assert_eq!(read_till_next(b"a:b", 0, b':'), (b"a".to_vec(), 2));
    assert_eq!(read_till_next_string(b"caf\xc3\xa9\r\nx", 0, b'\n'), ("caf\u{e9}".to_string(), 7));
    assert_eq!(read_till_next_string(b"\xf0\n", 0, b'\n'), ("\u{fffd}".to_string(), 2));
}

#[test]
fn split_keeps_empty_pieces() {
    assert_eq!(split_tokens(b"GET / HTTP/1.1"), vec![b"GET".to_vec(), b"/".to_vec(), b"HTTP/1.1".to_vec()]);
    assert_eq!(split_tokens(b""), vec![Vec::<u8>::new()]);
    assert_eq!(split_tokens(b" a  b\n"), vec![vec![], b"a".to_vec(), vec![], b"b".to_vec(), vec![]]);
    assert_eq!(split_slashes("/a/b"), vec!["".to_string(), "a".to_string(), "b".to_string()]);
    assert_eq!(split_slashes("/"), vec!["".to_string(), "".to_string()]);
    assert_eq!(split_slashes("\u{e9}/\u{30c4}"), vec!["\u{e9}".to_string(), "\u{30c4}".to_string()]);
}

#[test]
fn method_is_shown_as_a_json_string() {
    assert_eq!(HttpMethod::GET.to_string(), Ok("\"GET\"".to_string()));
    assert_eq!(HttpMethod::POST.to_string(), Ok("\"POST\"".to_string()));
    assert_eq!(HttpMethod::OPTIONS.to_string(), Ok("\"OPTIONS\"".to_string()));
    assert_eq!(encoded(Ok("x".to_string())), Ok("x".to_string()));
    let failure = serde_json::from_str::<u8>("?").unwrap_err();
    assert_eq!(encoded(Err(failure)), Err(EncodeError::Refused));
}
