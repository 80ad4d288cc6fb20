use std::cell::RefCell;
use std::collections::HashMap;

use rsttp::connection::{after_write, next_step, ConnState, ReadOutcome, Step};
use rsttp::endpoints::{read_file_response, setup_routes, write_file_response, Action, Endpoint};
use rsttp::request::Request;
use rsttp::response::Response;
use rsttp::router::{Handler, Router};
use rsttp::text_map::TextMap;

struct MemoryFiles {
    dir: String,
    files: RefCell<HashMap<String, String>>,
}

impl Handler<MemoryFiles> for Endpoint {
    fn handle(&self, req: &Request, params: Option<TextMap>, ctx: &MemoryFiles) -> Response {
        match self.plan(req, params, &ctx.dir) {
            Action::Reply(r) => r,
            Action::ReadFile(loc) => read_file_response(req, ctx.files.borrow().get(&loc).cloned()),
            Action::WriteFile(loc) => {
                ctx.files.borrow_mut().insert(loc, req.body.clone());
                write_file_response(req, true)
            }
        }
    }
}

fn app() -> (Router<Endpoint>, MemoryFiles) {
    let mut router = Router::new();
    assert!(setup_routes(&mut router).is_ok());
    let ctx = MemoryFiles { dir: String::from("files"), files: RefCell::new(HashMap::new()) };
    (router, ctx)
}

fn exchange(router: &Router<Endpoint>, ctx: &MemoryFiles, raw: &str) -> (String, bool) {
    match next_step(router, ctx, ReadOutcome::Received(raw.as_bytes().to_vec())) {
        Step::Respond { bytes, keep_alive } => (String::from_utf8(bytes).unwrap(), keep_alive),
        Step::Close => panic!("connection closed without a response"),
    }
}

#[test]
fn root_answers_empty_ok() {
    let (router, ctx) = app();
    let (out, keep) = exchange(&router, &ctx, "GET / HTTP/1.1\r\n\r\n");
    assert_eq!(out, "HTTP/1.1 200 OK\r\nContent-Type: text/plain\r\nContent-Length: 0\r\n\r\n");
    assert!(keep);
}

#[test]
fn echo_returns_segment() {
    let (router, ctx) = app();
    let (out, _) = exchange(&router, &ctx, "GET /echo/abc HTTP/1.1\r\n\r\n");
    assert_eq!(out, "HTTP/1.1 200 OK\r\nContent-Type: text/plain\r\nContent-Length: 3\r\n\r\nabc");
}

#[test]
fn echo_without_text_is_bad_request() {
    let (router, ctx) = app();
    let (out, _) = exchange(&router, &ctx, "GET /echo/ HTTP/1.1\r\n\r\n");
    assert_eq!(out, "HTTP/1.1 400 Bad Request\r\nContent-Type: text/plain\r\nContent-Length: 0\r\n\r\n");
    let (out, _) = exchange(&router, &ctx, "GET /echo HTTP/1.1\r\n\r\n");
    assert!(out.starts_with("HTTP/1.1 400 Bad Request\r\n"));
}

#[test]
fn user_agent_is_echoed() {
    let (router, ctx) = app();
    let (out, _) = exchange(&router, &ctx, "GET /user-agent HTTP/1.1\r\nUser-Agent: test-client\r\n\r\n");
    assert_eq!(
        out,
        "HTTP/1.1 200 OK\r\nContent-Type: text/plain\r\nContent-Length: 11\r\n\r\ntest-client"
    );
}

#[test]
fn user_agent_missing_is_bad_request() {
    let (router, ctx) = app();
    let (out, _) = exchange(&router, &ctx, "GET /user-agent HTTP/1.1\r\n\r\n");
    assert!(out.starts_with("HTTP/1.1 400 Bad Request\r\n"));
}

#[test]
fn posted_file_is_read_back() {
    let (router, ctx) = app();
    let (out, _) =
        exchange(&router, &ctx, "POST /files/a.txt HTTP/1.1\r\nContent-Length: 5\r\n\r\nhello");
    assert_eq!(
        out,
        "HTTP/1.1 201 Created\r\nContent-Type: application/octet-stream\r\nContent-Length: 0\r\n\r\n"
    );
    assert_eq!(ctx.files.borrow().get("files/a.txt").map(|s| s.as_str()), Some("hello"));
    let (out, _) = exchange(&router, &ctx, "GET /files/a.txt HTTP/1.1\r\n\r\n");
    assert_eq!(
        out,
        "HTTP/1.1 200 OK\r\nContent-Type: application/octet-stream\r\nContent-Length: 5\r\n\r\nhello"
    );
}

#[test]
fn missing_file_is_not_found() {
    let (router, ctx) = app();
    let (out, _) = exchange(&router, &ctx, "GET /files/nothing HTTP/1.1\r\n\r\n");
    assert!(out.starts_with("HTTP/1.1 404 Not Found\r\n"));
}

#[test]
fn connection_close_ends_after_one_exchange() {
    let (router, ctx) = app();
    let (out, keep) = exchange(
        &router,
        &ctx,
        "GET / HTTP/1.1\r\nConnection: close\r\n\r\nGET /echo/abc HTTP/1.1\r\n\r\n",
    );
    assert!(out.starts_with("HTTP/1.1 200 OK\r\n"));
    assert!(!keep);
}

#[test]
fn other_connection_values_keep_alive() {
    let (router, ctx) = app();
    let (_, keep) = exchange(&router, &ctx, "GET / HTTP/1.1\r\nConnection: Close\r\n\r\n");
    assert!(keep);
    let (_, keep) = exchange(&router, &ctx, "GET / HTTP/1.1\r\nconnection: keep-alive\r\n\r\n");
    assert!(keep);
}

#[test]
fn malformed_request_gets_bad_request_and_close() {
    let (router, ctx) = app();
    let (out, keep) = exchange(&router, &ctx, "BREW / HTTP/1.1\r\n\r\n");
    assert_eq!(out, "HTTP/1.1 400 Bad Request\r\nContent-Type: text/plain\r\nContent-Length: 0\r\n\r\n");
    assert!(!keep);
}

#[test]
fn invalid_utf8_gets_bad_request() {
    let (router, ctx) = app();
    match next_step(&router, &ctx, ReadOutcome::Received(vec![0x47, 0xff, 0xfe, 0x0d, 0x0a])) {
        Step::Respond { bytes, keep_alive } => {
            assert!(bytes.starts_with(b"HTTP/1.1 400 Bad Request\r\n"));
            assert!(!keep_alive);
        }
        Step::Close => panic!("expected a response"),
    }
}

#[test]
fn silent_close_on_timeout_failure_or_eof() {
    let (router, ctx) = app();
    assert!(matches!(next_step(&router, &ctx, ReadOutcome::TimedOut), Step::Close));
    assert!(matches!(next_step(&router, &ctx, ReadOutcome::Failed), Step::Close));
    assert!(matches!(next_step(&router, &ctx, ReadOutcome::Received(Vec::new())), Step::Close));
}

#[test]
fn unknown_route_is_not_found() {
    let (router, ctx) = app();
    let (out, keep) = exchange(&router, &ctx, "GET /nowhere HTTP/1.1\r\n\r\n");
    assert!(out.starts_with("HTTP/1.1 404 Not Found\r\n"));
    assert!(keep);
}

#[test]
fn connection_state_after_write() {
    assert_eq!(after_write(true, true), ConnState::Reading);
    assert_eq!(after_write(true, false), ConnState::Closed);
    assert_eq!(after_write(false, true), ConnState::Closed);
    assert_eq!(after_write(false, false), ConnState::Closed);
}
