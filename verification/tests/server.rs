use bare_http::http::request::Request;
use bare_http::http::response::Response;
use bare_http::http::server::{error_handling, severity, step, Action, Dispatch, Event, HttpServer, Phase, Report};
use bare_http::http::{HttpMethod, ParseError};

fn hello(_request: &Request) -> Vec<u8> {
    Response::new().status(200).body(b"Hello World!".to_vec()).send()
}

fn object(request: &Request) -> Vec<u8> {
    let id = request.params.get("id").unwrap();
    Response::new().status(200).body(format!("ABC {}", id).into_bytes()).send()
}

fn serve(server: &HttpServer<fn(&Request) -> Vec<u8>>, input: &[u8]) -> Option<Vec<u8>> {
    match server.dispatch(input) {
        Dispatch::Handler(handler, request) => Some(handler(&request)),
        Dispatch::Fallback(_) => Some(error_handling().send()),
        Dispatch::Rejected(_, _) => None,
    }
}

fn example() -> HttpServer<fn(&Request) -> Vec<u8>> {
    HttpServer::new()
        .register("/", hello as fn(&Request) -> Vec<u8>)
        .register("/object/{id}/edit", object as fn(&Request) -> Vec<u8>)
}

#[test]
fn root_route_answers_hello() {
    let out = serve(&example(), b"GET / HTTP/1.1\r\n\r\n").unwrap();
    assert_eq!(out, b"HTTP/1.1 200 \nContent-Length: 12\n\nHello World!".to_vec());
}

#[test]
fn each_route_gives_its_own_answer() {
    let server = example();
    for id in ["1", "22", "abc"] {
        let input = format!("GET /object/{}/edit HTTP/1.1\r\nHost: x\r\n\r\n", id);
        let expected = format!("HTTP/1.1 200 \nContent-Length: {}\n\nABC {}", 4 + id.len(), id);
        assert_eq!(serve(&server, input.as_bytes()), Some(expected.into_bytes()));
    }
    assert_eq!(
        serve(&server, b"POST / HTTP/1.1\n\n"),
        Some(b"HTTP/1.1 200 \nContent-Length: 12\n\nHello World!".to_vec())
    );
}

#[test]
fn unknown_path_gets_the_fallback() {
    let server = example();
    let body = "404 Error \u{af}\\_(\u{30c4})_/\u{af}";
    let expected = format!("HTTP/1.1 404 \nContent-Length: {}\n\n{}", body.len(), body);
    assert_eq!(serve(&server, b"GET /missing HTTP/1.1\r\n\r\n"), Some(expected.into_bytes()));
    let fallback = error_handling();
    assert_eq!(fallback.status, Some(404));
    assert_eq!(fallback.status_message, None);
    assert_eq!(fallback.headers.len(), 0);
    assert_eq!(fallback.body, Some(body.as_bytes().to_vec()));
}

#[test]
fn dispatch_keeps_the_request_and_adds_params() {
    let server = example();
    match server.dispatch(b"POST /object/9/edit HTTP/1.1\r\nA: b\r\n\r\npayload") {
        Dispatch::Handler(_, request) => {
            assert_eq!(request.method, HttpMethod::POST);
            assert_eq!(request.path, "/object/9/edit");
            assert_eq!(request.headers.get("A").map(|v| v.as_str()), Some("b"));
            assert_eq!(request.params.get("id").map(|v| v.as_str()), Some("9"));
            assert_eq!(request.query.len(), 0);
            assert_eq!(request.body, b"payload".to_vec());
        }
        _ => panic!("expected a handler"),
    }
    match server.dispatch(b"GET /nowhere HTTP/1.1\r\nA: b\r\n\r\n") {
        Dispatch::Fallback(request) => {
            assert_eq!(request.path, "/nowhere");
            assert_eq!(request.params.len(), 0);
        }
        _ => panic!("expected the fallback"),
    }
}

#[test]
fn dispatch_rejects_what_is_no_request() {
    let server = example();
    assert!(matches!(server.dispatch(b""), Dispatch::Rejected(ParseError::TruncatedRequest, Report::Silent)));
    assert!(matches!(
        server.dispatch(b"PATCH / HTTP/1.1\r\n\r\n"),
        Dispatch::Rejected(ParseError::UnrecognizedMethod, Report::Unexpected)
    ));
    assert!(matches!(
        server.dispatch(b"GET / HTTP/1.0\r\n\r\n"),
        Dispatch::Rejected(ParseError::UnsupportedVersion, Report::Unexpected)
    ));
    assert!(matches!(
        server.dispatch(b"GET / HTTP/1.1\r\nbroken\r\n\r\n"),
        Dispatch::Rejected(ParseError::MalformedHeaderLine, Report::Malformed)
    ));
    assert_eq!(serve(&server, b"GET / HTTP/1.0\r\n\r\n"), None);
}

#[test]
fn severity_of_each_error() {
    assert_eq!(severity(ParseError::TruncatedRequest), Report::Silent);
    assert_eq!(severity(ParseError::UnrecognizedMethod), Report::Unexpected);
    assert_eq!(severity(ParseError::UnsupportedVersion), Report::Unexpected);
    assert_eq!(severity(ParseError::MalformedHeaderLine), Report::Malformed);
}

#[test]
fn connection_steps_to_closed() {
    assert_eq!(step(Phase::Accepted, Event::Started), (Phase::Parsing, Action::Parse));
    assert_eq!(step(Phase::Parsing, Event::Parsed), (Phase::Routing, Action::Route));
    assert_eq!(step(Phase::Routing, Event::RouteFound), (Phase::Handling, Action::CallHandler));
    assert_eq!(step(Phase::Routing, Event::RouteMissing), (Phase::Handling, Action::CallFallback));
    assert_eq!(step(Phase::Handling, Event::HandlerDone), (Phase::Closed, Action::Close(Report::Silent)));
    assert_eq!(step(Phase::Handling, Event::HandlerFailed), (Phase::Closed, Action::Close(Report::Transport)));
    assert_eq!(
        step(Phase::Parsing, Event::ParseFailed(ParseError::TruncatedRequest)),
        (Phase::Closed, Action::Close(Report::Silent))
    );
    assert_eq!(
        step(Phase::Parsing, Event::ParseFailed(ParseError::MalformedHeaderLine)),
        (Phase::Closed, Action::Close(Report::Malformed))
    );
    assert_eq!(
        step(Phase::Parsing, Event::ParseFailed(ParseError::UnsupportedVersion)),
        (Phase::Closed, Action::Close(Report::Unexpected))
    );
    assert_eq!(step(Phase::Parsing, Event::ReadFailed), (Phase::Closed, Action::Close(Report::Transport)));
    assert_eq!(step(Phase::Accepted, Event::HandlerDone), (Phase::Closed, Action::Close(Report::Silent)));
    assert_eq!(step(Phase::Routing, Event::Parsed), (Phase::Closed, Action::Close(Report::Silent)));
    assert_eq!(step(Phase::Closed, Event::Started), (Phase::Closed, Action::Nothing));
    assert_eq!(step(Phase::Closed, Event::HandlerFailed), (Phase::Closed, Action::Nothing));
}
