use std::io::Read;

use rsttp::config::{Config, HttpProtocol};
use rsttp::connection::read_request;
use rsttp::header::HttpHeader;
use rsttp::path::{Path, PathPart, PathPartType};
use rsttp::request::{extract_path_from_req_target, AcceptedEncoding, ReqType, Request};
use rsttp::response::{ContentType, HttpResponseCode, Response};
use rsttp::router::{Handler, Router};
use rsttp::text_map::TextMap;

fn path(s: &str) -> Path {
    Path::parse(s).ok().expect("path parses")
}

fn parts(p: &Path) -> Vec<(String, PathPartType)> {
    (0..p.len()).map(|i| (p.part(i).text().clone(), p.part(i).kind())).collect()
}

#[test]
fn path_segments_and_kinds() {
    let p = path("//files//:name/");
    assert_eq!(
        parts(&p),
        vec![
            (String::from("files"), PathPartType::Static),
            (String::from("name"), PathPartType::Dynamic)
        ]
    );
    assert_eq!(path("/").len(), 0);
}

#[test]
fn path_rejections() {
    assert!(Path::parse("files").is_err());
    assert!(Path::parse("").is_err());
    assert!(Path::parse("/1abc").is_err());
    assert!(Path::parse("/ok/-bad").is_err());
    assert!(Path::parse("/é").is_ok());
    assert!("9x".parse::<PathPart>().is_err());
    assert!(":x".parse::<PathPart>().is_ok());
}

#[test]
fn matching_counts_segments_and_static_text() {
    let route = path("/echo/:text");
    assert!(route.matches(&path("/echo/abc")));
    assert!(route.matches(&path("/echo/xyz")));
    assert!(!route.matches(&path("/echo")));
    assert!(!route.matches(&path("/echo/a/b")));
    assert!(!route.matches(&path("/other/abc")));
    // Matching is asymmetric: a request's static text does not match a
    // route's different static text, whatever the dynamic names are.
    assert!(path("/a/:x").matches(&path("/a/:y")));
    assert!(!path("/a/b").matches(&path("/a/:c")));
}

#[test]
fn params_bind_dynamic_names() {
    let route = path("/files/:dir/:name");
    let m = route.get_req_param(&path("/files/docs/readme")).expect("matches");
    assert_eq!(m.len(), 2);
    assert_eq!(m.get(&String::from("dir")).map(|s| s.as_str()), Some("docs"));
    assert_eq!(m.get(&String::from("name")).map(|s| s.as_str()), Some("readme"));
    assert!(route.get_req_param(&path("/files/docs")).is_none());
    // A dynamic request segment binds nothing.
    let m = path("/a/:x").get_req_param(&path("/a/:y")).expect("matches");
    assert_eq!(m.len(), 0);
    let pairs = route.get_if_matches(&path("/files/a/b")).expect("matches");
    assert_eq!(pairs.len(), 3);
}

#[test]
fn repeated_name_keeps_last_value() {
    let m = path("/:x/:x").get_req_param(&path("/one/two")).expect("matches");
    assert_eq!(m.len(), 1);
    assert_eq!(m.get(&String::from("x")).map(|s| s.as_str()), Some("two"));
}

#[test]
fn text_map_insert_replaces_in_place() {
    let mut m = TextMap::new();
    m.insert(String::from("a"), String::from("1"));
    m.insert(String::from("b"), String::from("2"));
    m.insert(String::from("a"), String::from("3"));
    assert_eq!(m.len(), 2);
    let (k, v) = m.pair_at(0);
    assert_eq!((k.as_str(), v.as_str()), ("a", "3"));
    assert!(m.get(&String::from("c")).is_none());
}

#[test]
fn request_fields_are_parsed() {
    let req = Request::new(
        "POST /x/y HTTP/1.1\r\nHost: localhost:2000\r\nX-Name: One\r\nx-name: Two\r\nbroken line\r\n\r\nbody\r\n\r\nmore",
    )
    .ok()
    .expect("parses");
    assert_eq!(req.req_type, ReqType::Post);
    assert_eq!(req.protocol, HttpProtocol::Http11);
    assert_eq!(parts(&req.path).len(), 2);
    assert_eq!(req.header_val("HOST").map(|s| s.as_str()), Some("localhost:2000"));
    assert_eq!(req.header_val("X-NAME").map(|s| s.as_str()), Some("Two"));
    assert_eq!(req.headers.len(), 2);
    assert_eq!(req.body, "body\r\n\r\nmore");
    assert!(req.accept_encodings.is_empty());
    assert!(!req.has_connection_close_header());
}

#[test]
fn request_without_blank_line() {
    let req = Request::new("GET / HTTP/1.1").ok().expect("parses");
    assert_eq!(req.headers.len(), 0);
    assert_eq!(req.body, "");
}

#[test]
fn accept_encoding_is_negotiated() {
    let req = Request::new("GET / HTTP/1.1\r\naccept-ENCODING: br,  gzip ,,deflate\r\n\r\n")
        .ok()
        .expect("parses");
    assert_eq!(req.accept_encodings, vec![AcceptedEncoding::Gzip]);
    let req = Request::new("GET / HTTP/1.1\r\nAccept-Encoding: br\r\n\r\n").ok().expect("parses");
    assert!(req.accept_encodings.is_empty());
}

#[test]
fn request_errors() {
    let err = |s: &str| Request::new(s).err().expect("fails");
    assert_eq!(err("GET /"), "Malformed Request Metadata");
    assert_eq!(err(""), "Malformed Request Metadata");
    assert_eq!(err("GET  / HTTP/1.1\r\n\r\n"), "Malformed Request Metadata");
    assert_eq!(err("BREW / HTTP/1.1\r\n\r\n"), "Unsupported Request Type");
    assert_eq!(err("GET / HTTP/1.0\r\n\r\n"), "Unsupported HTTP Protocol");
    assert_eq!(err("GET abc HTTP/1.1\r\n\r\n"), "Malformed request target form");
    assert_eq!(err("GET http://x HTTP/1.1\r\n\r\n"), "Invalid Request Form Target");
    assert_eq!(err("GET * HTTP/1.1\r\n\r\n"), "Failed to Parse str to a Path\n");
    assert_eq!(err("GET /9 HTTP/1.1\r\n\r\n"), "Failed to Parse str to a Path\n");
}

#[test]
fn request_targets() {
    let ok = |s: &str| extract_path_from_req_target(s).ok().expect("ok");
    assert_eq!(ok("/a/b"), "/a/b");
    assert_eq!(ok("*"), "*");
    assert_eq!(ok("http a b"), "/");
    assert_eq!(ok("http a b c d"), "/c/d");
    assert_eq!(ok("host:80 x y"), "/y");
    assert_eq!(ok("host:80 x"), "/");
    assert_eq!(ok("http a b  c"), "/");
    assert_eq!(extract_path_from_req_target("host:80").err().unwrap(), "Invalid Request Form Target");
    assert_eq!(extract_path_from_req_target("a/b:1").err().unwrap(), "Malformed request target form");
}

#[test]
fn read_request_rejects_bad_utf8() {
    assert_eq!(read_request(&[0xc3, 0x28]).err().unwrap(), "Failure to convert bytes to string");
    assert!(read_request("GET / HTTP/1.1\r\n\r\n".as_bytes()).is_ok());
}

#[test]
fn token_parsers() {
    assert_eq!("GET".parse::<ReqType>().ok(), Some(ReqType::Get));
    assert_eq!("OPTIONS".parse::<ReqType>().ok(), Some(ReqType::Options));
    assert_eq!("CONNECT".parse::<ReqType>().ok(), Some(ReqType::Connect));
    assert!("get".parse::<ReqType>().is_err());
    assert!("HTTP/1.1".parse::<HttpProtocol>().is_ok());
    assert!("HTTP/2".parse::<HttpProtocol>().is_err());
    assert!("gzip".parse::<AcceptedEncoding>().is_ok());
    assert!("GZIP".parse::<AcceptedEncoding>().is_err());
}

#[test]
fn header_forms() {
    assert_eq!(AcceptedEncoding::Gzip.in_raw_http_form(), "Accept-Encoding: gzip\r\n");
    assert_eq!(ContentType::TextPlain.in_raw_http_form(), "Content-Type: text/plain\r\n");
    assert_eq!(ContentType::ApplicationOctectStream.val(), "application/octet-stream");
}

#[test]
fn status_lines() {
    for (code, digits, reason) in [
        (HttpResponseCode::R200, "200", "OK"),
        (HttpResponseCode::R201, "201", "Created"),
        (HttpResponseCode::R400, "400", "Bad Request"),
        (HttpResponseCode::R404, "404", "Not Found"),
    ] {
        assert_eq!(code.to_string(), digits);
        assert_eq!(code.default_message(), reason);
        let bytes = Response::default_message(code).to_bytes();
        let expected = format!(
            "HTTP/1.1 {} {}\r\nContent-Type: text/plain\r\nContent-Length: 0\r\n\r\n",
            digits, reason
        );
        assert_eq!(String::from_utf8(bytes).unwrap(), expected);
    }
}

#[test]
fn gzip_body_when_negotiated() {
    let req = Request::new("GET / HTTP/1.1\r\nAccept-Encoding: gzip\r\n\r\n").ok().unwrap();
    let body = "hello hello hello hello";
    let resp = Response::new(
        &req,
        HttpResponseCode::R200,
        Some(String::from(body)),
        ContentType::TextPlain,
        HttpProtocol::Http11,
    );
    assert_eq!(resp.content_encoding(), Some(AcceptedEncoding::Gzip));
    let bytes = resp.to_bytes();
    let split = bytes.windows(4).position(|w| w == b"\r\n\r\n").unwrap() + 4;
    let head = String::from_utf8(bytes[..split].to_vec()).unwrap();
    let sent = &bytes[split..];
    assert!(head.contains("Content-Encoding: gzip\r\n"));
    assert!(head.ends_with(&format!("Content-Length: {}\r\n\r\n", sent.len())));
    assert_eq!(&sent[..2], &[0x1f, 0x8b]);
    assert_ne!(sent, body.as_bytes());
    let mut decoded = String::new();
    flate2::read::GzDecoder::new(sent).read_to_string(&mut decoded).unwrap();
    assert_eq!(decoded, body);
    // Encoding the same response again gives the same bytes.
    assert_eq!(resp.to_bytes(), bytes);
}

#[test]
fn no_gzip_without_body_or_negotiation() {
    let gz = Request::new("GET / HTTP/1.1\r\nAccept-Encoding: gzip\r\n\r\n").ok().unwrap();
    let plain = Request::new("GET / HTTP/1.1\r\n\r\n").ok().unwrap();
    let resp = Response::new(&plain, HttpResponseCode::R200, Some(String::from("hé")), ContentType::TextPlain, HttpProtocol::Http11);
    assert_eq!(
        String::from_utf8(resp.to_bytes()).unwrap(),
        "HTTP/1.1 200 OK\r\nContent-Type: text/plain\r\nContent-Length: 3\r\n\r\nhé"
    );
    let resp = Response::new(&gz, HttpResponseCode::R201, None, ContentType::ApplicationOctectStream, HttpProtocol::Http11);
    assert_eq!(
        String::from_utf8(resp.to_bytes()).unwrap(),
        "HTTP/1.1 201 Created\r\nContent-Type: application/octet-stream\r\nContent-Encoding: gzip\r\nContent-Length: 0\r\n\r\n"
    );
    let resp = Response::success();
    assert_eq!(resp.to_bytes(), resp.to_bytes());
    assert!(resp.body().is_none());
}

#[test]
fn config_address() {
    let c = Config { port: 2000, ctx: (), persist_connection_for: std::time::Duration::from_secs(5) };
    assert_eq!(c.addr(), "127.0.0.1:2000");
    let c = Config { port: -7, ctx: (), persist_connection_for: std::time::Duration::from_secs(5) };
    assert_eq!(c.addr(), "127.0.0.1:-7");
    let c = Config { port: 0, ctx: (), persist_connection_for: std::time::Duration::from_secs(5) };
    assert_eq!(c.addr(), "127.0.0.1:0");
}

struct Tag(u8);

impl Handler<()> for Tag {
    fn handle(&self, req: &Request, params: Option<TextMap>, _ctx: &()) -> Response {
        let text = params
            .and_then(|m| m.get(&String::from("id")).cloned())
            .unwrap_or_default();
        Response::new(
            req,
            HttpResponseCode::R200,
            Some(format!("{}:{}", self.0, text)),
            ContentType::TextPlain,
            HttpProtocol::Http11,
        )
    }
}

fn body_of(r: &Response) -> String {
    r.body().cloned().unwrap_or_default()
}

#[test]
fn first_registered_route_wins() {
    let mut router: Router<Tag> = Router::new();
    assert!(router.get("/items/:id", Tag(1)).is_ok());
    assert!(router.get("/items/special", Tag(2)).is_ok());
    assert!(router.post("/items/:id", Tag(3)).is_ok());
    assert!(router.get("bad", Tag(4)).is_err());
    let get = Request::new("GET /items/special HTTP/1.1\r\n\r\n").ok().unwrap();
    assert_eq!(router.find_route(&get), Some(0));
    assert_eq!(body_of(&router.handle_request(get, &())), "1:special");
    let post = Request::new("POST /items/seven HTTP/1.1\r\n\r\n").ok().unwrap();
    assert_eq!(body_of(&router.handle_request(post, &())), "3:seven");
    let other = Request::new("OPTIONS /items/seven HTTP/1.1\r\n\r\n").ok().unwrap();
    assert!(router.find_route(&other).is_none());
    assert_eq!(router.handle_request(other, &()).code(), HttpResponseCode::R404);
}

#[test]
fn distinct_requests_reach_their_own_routes() {
    let mut router: Router<Tag> = Router::new();
    assert!(router.get("/a/:id", Tag(1)).is_ok());
    assert!(router.get("/b/:id", Tag(2)).is_ok());
    let a = Request::new("GET /a/x HTTP/1.1\r\n\r\n").ok().unwrap();
    let b = Request::new("GET /b/y HTTP/1.1\r\n\r\n").ok().unwrap();
    assert_eq!(body_of(&router.handle_request(a, &())), "1:x");
    assert_eq!(body_of(&router.handle_request(b, &())), "2:y");
}

#[test]
fn round_trip_of_written_request() {
    let text = "OPTIONS /a/b HTTP/1.1\r\nHost: h:1\r\nX-Trace: AbC\r\n\r\n";
    let req = Request::new(text).ok().unwrap();
    assert_eq!(req.req_type, ReqType::Options);
    assert_eq!(
        parts(&req.path),
        vec![(String::from("a"), PathPartType::Static), (String::from("b"), PathPartType::Static)]
    );
    assert_eq!(req.headers.len(), 2);
    assert_eq!(req.headers.get(&String::from("host")).map(|s| s.as_str()), Some("h:1"));
    assert_eq!(req.headers.get(&String::from("x-trace")).map(|s| s.as_str()), Some("AbC"));
}

#[test]
fn encoding_tokens_trim_ascii_space() {
    let req = Request::new("GET / HTTP/1.1\r\nAccept-Encoding: br,\t\u{b}gzip\u{c} \r\n\r\n")
        .ok()
        .expect("parses");
    assert_eq!(req.accept_encodings, vec![AcceptedEncoding::Gzip]);
    let req = Request::new("GET / HTTP/1.1\r\nAccept-Encoding: g zip\r\n\r\n").ok().expect("parses");
    assert!(req.accept_encodings.is_empty());
}

#[test]
fn field_names_may_hold_colons() {
    let req = Request::new("GET / HTTP/1.1\r\nX:Odd: Value\r\n\r\n").ok().expect("parses");
    assert_eq!(req.header_val("x:odd").map(|s| s.as_str()), Some("Value"));
    assert_eq!(req.body, "");
}
