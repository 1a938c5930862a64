use vstd::prelude::*;
use crate::http::request::parsed;
use crate::http::request::Request;
use crate::http::request::RequestView;
use crate::http::response::Response;
use crate::http::response::ResponseView;
use crate::http::routes::inserted;
use crate::http::routes::leaf;
use crate::http::routes::well_formed;
use crate::http::routes::Router;
use crate::http::ParseError;

verus! {

/// The status of the answer to a path that no route serves.
pub const NOT_FOUND_STATUS: u16 = 404;

/// The body of the answer to a path that no route serves.
pub open spec fn not_found_text() -> Seq<char> {
    "404 Error \u{af}\\_(\u{30c4})_/\u{af}"@
}

/// The answer to a path that no route serves: a fixed status and a fixed body.
pub fn error_handling() -> (r: Response)
    ensures
        r@ == (ResponseView {
            status: Some(NOT_FOUND_STATUS),
            status_message: None,
            headers: Seq::empty(),
            body: Some(vstd::utf8::encode_utf8(not_found_text())),
        }),
{
    let text = "404 Error \u{af}\\_(\u{30c4})_/\u{af}";
    Response::new().status(NOT_FOUND_STATUS).body(vstd::slice::slice_to_vec(text.as_bytes()))
}

/// How loudly the end of a connection is reported.
#[derive(Clone, Copy, Debug, PartialEq, Eq, Structural)]
pub enum Report {
    /// Nothing is said.
    Silent,
    /// The peer sent something that this server does not serve.
    Unexpected,
    /// The peer sent data that is no request at all.
    Malformed,
    /// Reading or writing failed.
    Transport,
}

/// How a failure to parse is reported: too little data is no news, a
/// header line without a colon is malformed data, the rest is unexpected.
pub open spec fn report_of(e: ParseError) -> Report {
    match e {
        ParseError::TruncatedRequest => Report::Silent,
        ParseError::MalformedHeaderLine => Report::Malformed,
        ParseError::UnrecognizedMethod => Report::Unexpected,
        ParseError::UnsupportedVersion => Report::Unexpected,
    }
}

/// How a failure to parse is reported.
pub fn severity(e: ParseError) -> (r: Report)
    ensures
        r == report_of(e),
{
    match e {
        ParseError::TruncatedRequest => Report::Silent,
        ParseError::MalformedHeaderLine => Report::Malformed,
        ParseError::UnrecognizedMethod => Report::Unexpected,
        ParseError::UnsupportedVersion => Report::Unexpected,
    }
}

/// The steps of a connection's life.
#[derive(Clone, Copy, Debug, PartialEq, Eq, Structural)]
pub enum Phase {
    Accepted,
    Parsing,
    Routing,
    Handling,
    Closed,
}

/// What happened outside since the last step.
#[derive(Clone, Copy, Debug, PartialEq, Eq, Structural)]
pub enum Event {
    /// The connection's task has started.
    Started,
    /// The request was parsed.
    Parsed,
    /// The request could not be parsed.
    ParseFailed(ParseError),
    /// The connection failed before a request was read.
    ReadFailed,
    /// A route serves the path.
    RouteFound,
    /// No route serves the path.
    RouteMissing,
    /// The handler has sent its response.
    HandlerDone,
    /// The handler came back with a transport failure.
    HandlerFailed,
}

/// What is to be done outside next.
#[derive(Clone, Copy, Debug, PartialEq, Eq, Structural)]
pub enum Action {
    /// Read a request from the connection and parse it.
    Parse,
    /// Look the path up in the table of routes.
    Route,
    /// Call the handler that was found.
    CallHandler,
    /// Call the handler for paths that no route serves.
    CallFallback,
    /// Shut the connection down in both directions, and report.
    Close(Report),
    /// Nothing: the connection is closed.
    Nothing,
}

/// How far a phase is on the way to `Closed`.
pub open spec fn rank(p: Phase) -> nat {
    match p {
        Phase::Accepted => 0,
        Phase::Parsing => 1,
        Phase::Routing => 2,
        Phase::Handling => 3,
        Phase::Closed => 4,
    }
}

/// The phase after `event` came in `phase`, and what is to be done.
/// An event that does not belong to the phase closes the connection.
pub open spec fn next(phase: Phase, event: Event) -> (Phase, Action) {
    match (phase, event) {
        (Phase::Accepted, Event::Started) => (Phase::Parsing, Action::Parse),
        (Phase::Parsing, Event::Parsed) => (Phase::Routing, Action::Route),
        (Phase::Parsing, Event::ParseFailed(e)) => (Phase::Closed, Action::Close(report_of(e))),
        (Phase::Parsing, Event::ReadFailed) => (Phase::Closed, Action::Close(Report::Transport)),
        (Phase::Routing, Event::RouteFound) => (Phase::Handling, Action::CallHandler),
        (Phase::Routing, Event::RouteMissing) => (Phase::Handling, Action::CallFallback),
        (Phase::Handling, Event::HandlerDone) => (Phase::Closed, Action::Close(Report::Silent)),
        (Phase::Handling, Event::HandlerFailed) => (Phase::Closed, Action::Close(Report::Transport)),
        (Phase::Closed, _) => (Phase::Closed, Action::Nothing),
        (_, _) => (Phase::Closed, Action::Close(Report::Silent)),
    }
}

/// One step of a connection: the next phase and what is to be done.
/// Every step before `Closed` moves on towards it, and the connection
/// is closed exactly once.
pub fn step(phase: Phase, event: Event) -> (r: (Phase, Action))
    ensures
        r == next(phase, event),
        phase != Phase::Closed ==> rank(r.0) > rank(phase),
        phase == Phase::Closed ==> r.0 == Phase::Closed && r.1 == Action::Nothing,
        (r.1 is Close) == (phase != Phase::Closed && r.0 == Phase::Closed),
{
    match (phase, event) {
        (Phase::Accepted, Event::Started) => (Phase::Parsing, Action::Parse),
        (Phase::Parsing, Event::Parsed) => (Phase::Routing, Action::Route),
        (Phase::Parsing, Event::ParseFailed(e)) => (Phase::Closed, Action::Close(severity(e))),
        (Phase::Parsing, Event::ReadFailed) => (Phase::Closed, Action::Close(Report::Transport)),
        (Phase::Routing, Event::RouteFound) => (Phase::Handling, Action::CallHandler),
        (Phase::Routing, Event::RouteMissing) => (Phase::Handling, Action::CallFallback),
        (Phase::Handling, Event::HandlerDone) => (Phase::Closed, Action::Close(Report::Silent)),
        (Phase::Handling, Event::HandlerFailed) => (Phase::Closed, Action::Close(Report::Transport)),
        (Phase::Closed, _) => (Phase::Closed, Action::Nothing),
        (_, _) => (Phase::Closed, Action::Close(Report::Silent)),
    }
}

/// Every connection is closed: whatever happens outside, the fourth
/// step at the latest ends in `Closed`, and `Closed` is never left.
pub proof fn lemma_always_closed(phase: Phase, e1: Event, e2: Event, e3: Event, e4: Event)
    ensures
        next(next(next(next(phase, e1).0, e2).0, e3).0, e4).0 == Phase::Closed,
        next(Phase::Closed, e1).0 == Phase::Closed,
{
}

/// What a connection's bytes ask for.
pub enum Dispatch<'a, H> {
    /// A route serves the request: call its handler with the request,
    /// which holds the captured parameters.
    Handler(&'a H, Request),
    /// No route serves the request: answer that nothing was found.
    Fallback(Request),
    /// The bytes hold no request: close, and report as said.
    Rejected(ParseError, Report),
}

/// The server: a table of routes, filled before the first connection
/// is accepted and only read after that.
#[derive(Debug)]
pub struct HttpServer<H> {
    pub router: Router<H>,
}

impl<H> HttpServer<H> {
    /// A server without routes.
    pub fn new() -> (server: HttpServer<H>)
        ensures
            server.router.root@ == leaf::<H>(Seq::empty()),
            well_formed(server.router.root@),
    {
        HttpServer { router: Router::new() }
    }

    /// Registers `function` as the handler of the pattern `path`.
    pub fn register(self, path: &str, function: H) -> (server: HttpServer<H>)
        ensures
            server.router.root@ == inserted(
                self.router.root@,
                crate::http::routes::segments(path@),
                0,
                function,
            ),
            well_formed(self.router.root@) ==> well_formed(server.router.root@),
    {
        let HttpServer { router } = self;
        HttpServer { router: router.register(path, function) }
    }

    /// Chooses the handler of a parsed request and gives the request
    /// the parameters that its path binds.
    pub fn route(&self, request: Request) -> (d: Dispatch<'_, H>)
        ensures
            match self.router.route(request@.path) {
                Some((h, params)) => d matches Dispatch::Handler(f, q) && *f == h && q@ == (
                RequestView { params, ..request@ }) && (request.wf() ==> q.wf()),
                None => d matches Dispatch::Fallback(q) && q == request,
            },
    {
        match self.router.find(request.path.as_str()) {
            Some((function, params)) => {
                let Request { method, path, headers, query, params: _, body } = request;
                Dispatch::Handler(function, Request { method, path, headers, query, params, body })
            },
            None => Dispatch::Fallback(request),
        }
    }

    /// Decides what the bytes received on a connection ask for: parses
    /// them, and looks the path up.
    pub fn dispatch(&self, input: &[u8]) -> (d: Dispatch<'_, H>)
        ensures
            match parsed(input@) {
                Err(e) => d matches Dispatch::Rejected(f, r) && f == e && r == report_of(e),
                Ok(v) => match self.router.route(v.path) {
                    Some((h, params)) => d matches Dispatch::Handler(f, q) && *f == h && q@ == (
                    RequestView { params, ..v }) && q.wf(),
                    None => d matches Dispatch::Fallback(q) && q@ == v && q.wf(),
                },
            },
    {
        match Request::from_stream(input) {
            Err(e) => Dispatch::Rejected(e, severity(e)),
            Ok(request) => self.route(request),
        }
    }
}

} // verus!
