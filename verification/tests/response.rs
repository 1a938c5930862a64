use bare_http::http::response::Response;
use bare_http::http::text::{push_decimal, push_str};

#[test]
fn response_with_header_and_body() {
    let out = Response::new().status(200).header("X", "Y").body(b"ok".to_vec()).send();
    assert_eq!(out, b"HTTP/1.1 200 \nX: Y\nContent-Length: 2\n\nok".to_vec());
    let text = String::from_utf8(out).unwrap();
    let lines: Vec<&str> = text.split('\n').collect();
    assert_eq!(lines[0], "HTTP/1.1 200 ");
    assert!(lines.contains(&"X: Y"));
    assert!(lines.contains(&"Content-Length: 2"));
    assert!(text.ends_with("\n\nok"));
}

#[test]
fn response_without_body_has_no_length() {
    let out = Response::new().status(204).send();
    assert_eq!(out, b"HTTP/1.1 204 \n\n".to_vec());
    let with_header = Response::new().status(204).header("A", "b").send();
    assert_eq!(with_header, b"HTTP/1.1 204 \nA: b\n\n".to_vec());
    assert!(!String::from_utf8(with_header).unwrap().contains("Content-Length"));
}

#[test]
fn response_defaults_to_500() {
    assert_eq!(Response::new().send(), b"HTTP/1.1 500 \n\n".to_vec());
    assert_eq!(
        Response::new().body(Vec::new()).send(),
        b"HTTP/1.1 500 \nContent-Length: 0\n\n".to_vec()
    );
}

#[test]
fn response_status_message() {
    let r = Response::new().status_with_msg(404, Some("Not Found"));
    assert_eq!(r.send(), b"HTTP/1.1 404 Not Found\n\n".to_vec());
    let r = r.status(200);
    assert_eq!(r.status, Some(200));
    assert_eq!(r.send(), b"HTTP/1.1 200 Not Found\n\n".to_vec());
    let r = r.status_with_msg(201, None);
    assert_eq!(r.status_message, None);
    assert_eq!(r.send(), b"HTTP/1.1 201 \n\n".to_vec());
}

#[test]
fn response_setters_overwrite() {
    let r = Response::new()
        .body(b"first".to_vec())
        .header("K", "1")
        .header("L", "2")
        .status(1)
        .header("K", "3")
        .body(b"second!".to_vec())
        .status(65535);
    assert_eq!(r.headers.len(), 2);
    assert_eq!(r.send(), b"HTTP/1.1 65535 \nK: 3\nL: 2\nContent-Length: 7\n\nsecond!".to_vec());
}

#[test]
fn response_html_and_json() {
    let html = Response::new().status(200).send_html("<p>h\u{e9}</p>");
    assert_eq!(
        html,
        "HTTP/1.1 200 \nContent-Type: text/html\nContent-Length: 10\n\n<p>h\u{e9}</p>".as_bytes().to_vec()
    );
    let json = Response::new().status(200).header("Content-Type", "text/plain").send_json("{\"a\":1}");
    assert_eq!(
        json,
        b"HTTP/1.1 200 \nContent-Type: application/json\nContent-Length: 7\n\n{\"a\":1}".to_vec()
    );
}

#[test]
fn decimal_digits() {
    let mut out = b"n=".to_vec();
    push_decimal(&mut out, 0);
    push_str(&mut out, ",");
    push_decimal(&mut out, 7);
    push_str(&mut out, ",");
    push_decimal(&mut out, 10);
    push_str(&mut out, ",");
    push_decimal(&mut out, 4096);
    push_str(&mut out, ",");
    push_decimal(&mut out, 1234567890);
    assert_eq!(out, b"n=0,7,10,4096,1234567890".to_vec());
}
