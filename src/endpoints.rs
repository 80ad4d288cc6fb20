//! The application's routes: `/`, `/user-agent`, `/echo/:text` (and `/echo`,
//! which answers that the text is missing) and reading
//! and writing files under `/files/:path`. The decisions are here; reading
//! and writing the files is left to the caller.
use vstd::prelude::*;
use crate::path::{all_static, param_pairs, params_of, parse_path, path_matches, PartView, PathParseError, PathPartType};
use crate::request::{ReqType, Request};
use crate::response::{default_view, ContentType, HttpResponseCode, Response, ResponseView};
use crate::router::Router;
use crate::text::lower_of;
use crate::text_map::{map_of, TextMap};
use vstd::string::StringExecFns;

verus! {

/// The routes of the application.
#[derive(Debug, Clone, Copy, PartialEq, Eq, Structural)]
pub enum Endpoint {
    Root,
    UserAgent,
    Echo,
    ReadFile,
    WriteFile,
}

/// What answering a request takes: a ready response, or a file to read or
/// to write with the request body, at the given location.
pub enum Action {
    Reply(Response),
    ReadFile(String),
    WriteFile(String),
}

/// The routes registered by `setup_routes`, in order.
pub open spec fn app_routes() -> Seq<(ReqType, Option<Seq<PartView>>)> {
    seq![
        (ReqType::Get, parse_path("/"@)),
        (ReqType::Get, parse_path("/user-agent"@)),
        (ReqType::Get, parse_path("/echo/:text"@)),
        (ReqType::Get, parse_path("/echo"@)),
        (ReqType::Get, parse_path("/files/:path"@)),
        (ReqType::Post, parse_path("/files/:path"@)),
    ]
}

/// Registers the application's routes.
pub fn setup_routes(router: &mut Router<Endpoint>) -> (r: Result<(), PathParseError>)
    ensures
        (forall|i: int| 0 <= i < 6 ==> (#[trigger] app_routes()[i]).1 is Some) ==> r is Ok
            && final(router).table() == old(router).table() + app_routes().map_values(
            |e: (ReqType, Option<Seq<PartView>>)| (e.0, e.1->Some_0),
        ) && final(router).handlers() == old(router).handlers() + seq![
            Endpoint::Root,
            Endpoint::UserAgent,
            Endpoint::Echo,
            Endpoint::Echo,
            Endpoint::ReadFile,
            Endpoint::WriteFile,
        ],
        (exists|i: int| 0 <= i < 6 && (#[trigger] app_routes()[i]).1 is None) ==> r is Err,
{
    let ghost t0 = router.table();
    let ghost h0 = router.handlers();
    let ghost rs = app_routes();
    assert(rs[0] == (ReqType::Get, parse_path("/"@)));
    assert(rs[1] == (ReqType::Get, parse_path("/user-agent"@)));
    assert(rs[2] == (ReqType::Get, parse_path("/echo/:text"@)));
    assert(rs[3] == (ReqType::Get, parse_path("/echo"@)));
    assert(rs[4] == (ReqType::Get, parse_path("/files/:path"@)));
    assert(rs[5] == (ReqType::Post, parse_path("/files/:path"@)));
    router.get("/", Endpoint::Root)?;
    router.get("/user-agent", Endpoint::UserAgent)?;
    router.get("/echo/:text", Endpoint::Echo)?;
    router.get("/echo", Endpoint::Echo)?;
    router.get("/files/:path", Endpoint::ReadFile)?;
    router.post("/files/:path", Endpoint::WriteFile)?;
    assert(router.table() =~= t0 + rs.map_values(
        |e: (ReqType, Option<Seq<PartView>>)| (e.0, e.1->Some_0),
    ));
    assert(router.handlers() =~= h0 + seq![
        Endpoint::Root,
        Endpoint::UserAgent,
        Endpoint::Echo,
        Endpoint::Echo,
        Endpoint::ReadFile,
        Endpoint::WriteFile,
    ]);
    Ok(())
}

/// A `200 OK` plain-text response to `req` carrying `text`.
pub open spec fn text_reply(req: Request, text: Seq<char>) -> ResponseView {
    ResponseView {
        protocol: req.protocol,
        code: HttpResponseCode::R200,
        headers: Seq::empty(),
        body: Some(text),
        content_encoding: if req@.encodings.len() == 0 {
            None
        } else {
            Some(req@.encodings[0])
        },
        content_type: ContentType::TextPlain,
    }
}

/// The response to a request for a file, given what reading it gave:
/// its content with `200 OK`, or `404 Not Found`.
pub fn read_file_response(req: &Request, content: Option<String>) -> (r: Response)
    ensures
        match content {
            Some(c) => r@ == (ResponseView {
                protocol: req.protocol,
                code: HttpResponseCode::R200,
                headers: Seq::empty(),
                body: Some(c@),
                content_encoding: if req@.encodings.len() == 0 {
                    None
                } else {
                    Some(req@.encodings[0])
                },
                content_type: ContentType::ApplicationOctectStream,
            }),
            None => r@ == default_view(HttpResponseCode::R404),
        },
{
    match content {
        Some(c) => Response::new(
            req,
            HttpResponseCode::R200,
            Some(c),
            ContentType::ApplicationOctectStream,
            req.protocol,
        ),
        None => Response::not_found(),
    }
}

/// The response to a request to store a file, given whether writing it
/// succeeded: `201 Created` without a body, or `404 Not Found`.
pub fn write_file_response(req: &Request, written: bool) -> (r: Response)
    ensures
        written ==> r@ == (ResponseView {
            protocol: req.protocol,
            code: HttpResponseCode::R201,
            headers: Seq::empty(),
            body: None,
            content_encoding: if req@.encodings.len() == 0 {
                None
            } else {
                Some(req@.encodings[0])
            },
            content_type: ContentType::ApplicationOctectStream,
        }),
        !written ==> r@ == default_view(HttpResponseCode::R404),
{
    if written {
        Response::new(
            req,
            HttpResponseCode::R201,
            None,
            ContentType::ApplicationOctectStream,
            req.protocol,
        )
    } else {
        Response::not_found()
    }
}

/// The value bound to `name`, if there are parameters and it is among them.
pub open spec fn param_value(params: Option<TextMap>, name: Seq<char>) -> Option<Seq<char>> {
    match params {
        Some(m) => if m@.contains_key(name) {
            Some(m@[name])
        } else {
            None
        },
        None => None,
    }
}

fn get_param(params: &Option<TextMap>, name: &str) -> (r: Option<String>)
    ensures
        match r {
            Some(v) => param_value(*params, name@) == Some(v@),
            None => param_value(*params, name@) is None,
        },
{
    match params {
        Some(m) => match m.get(&String::from_str(name)) {
            Some(v) => Some(v.clone()),
            None => None,
        },
        None => None,
    }
}


/// A file stored through `POST /files/:path` is the one `GET /files/:path`
/// reads back: two request paths that the route matches with the same name
/// bind the same `path` parameter, that name, so both requests use the same
/// location under the files directory.
pub proof fn lemma_files_share_location(
    dir: Seq<char>,
    route: Seq<PartView>,
    post_path: Seq<PartView>,
    get_path: Seq<PartView>,
)
    requires
        route.len() == 2,
        route[0].1 == PathPartType::Static,
        route[1] == ("path"@, PathPartType::Dynamic),
        path_matches(route, post_path),
        path_matches(route, get_path),
        all_static(post_path),
        all_static(get_path),
        post_path[1].0 == get_path[1].0,
    ensures
        params_of(route, post_path) == params_of(route, get_path),
        param_value_of(params_of(route, post_path), "path"@) == Some(post_path[1].0),
        file_location(dir, post_path[1].0) == file_location(dir, get_path[1].0),
{
    assert(param_pairs(route, post_path, 0) == Seq::<(Seq<char>, Seq<char>)>::empty());
    assert(param_pairs(route, get_path, 0) == Seq::<(Seq<char>, Seq<char>)>::empty());
    assert(param_pairs(route, post_path, 1) == Seq::<(Seq<char>, Seq<char>)>::empty());
    assert(param_pairs(route, get_path, 1) == Seq::<(Seq<char>, Seq<char>)>::empty());
    assert(param_pairs(route, post_path, 2) == seq![("path"@, post_path[1].0)]);
    assert(param_pairs(route, get_path, 2) == seq![("path"@, get_path[1].0)]);
    assert(seq![("path"@, post_path[1].0)].drop_last() =~= Seq::<(Seq<char>, Seq<char>)>::empty());
    assert(seq![("path"@, get_path[1].0)].drop_last() =~= Seq::<(Seq<char>, Seq<char>)>::empty());
    assert(map_of(Seq::<(Seq<char>, Seq<char>)>::empty()) == Map::<Seq<char>, Seq<char>>::empty());
}

/// The value bound to `name` in a parameter map.
pub open spec fn param_value_of(m: Map<Seq<char>, Seq<char>>, name: Seq<char>) -> Option<Seq<char>> {
    if m.contains_key(name) {
        Some(m[name])
    } else {
        None
    }
}

/// Where a file named `name` lives under `dir`.
pub open spec fn file_location(dir: Seq<char>, name: Seq<char>) -> Seq<char> {
    dir + "/"@ + name
}

impl Endpoint {
    /// What answering `req` takes, given the parameters its route bound and
    /// the directory that holds the files.
    pub fn plan(&self, req: &Request, params: Option<TextMap>, files_dir: &str) -> (r: Action)
        ensures
            match *self {
                Endpoint::Root => r matches Action::Reply(x) && x@ == default_view(
                    HttpResponseCode::R200,
                ),
                Endpoint::UserAgent => if req@.headers.contains_key(lower_of("User-Agent"@)) {
                    r matches Action::Reply(x) && x@ == text_reply(
                        *req,
                        req@.headers[lower_of("User-Agent"@)],
                    )
                } else {
                    r matches Action::Reply(x) && x@ == default_view(HttpResponseCode::R400)
                },
                Endpoint::Echo => match param_value(params, "text"@) {
                    Some(t) => r matches Action::Reply(x) && x@ == text_reply(*req, t),
                    None => r matches Action::Reply(x) && x@ == default_view(
                        HttpResponseCode::R400,
                    ),
                },
                Endpoint::ReadFile => match param_value(params, "path"@) {
                    Some(p) => r matches Action::ReadFile(loc) && loc@ == file_location(
                        files_dir@,
                        p,
                    ),
                    None => r matches Action::Reply(x) && x@ == default_view(
                        HttpResponseCode::R400,
                    ),
                },
                Endpoint::WriteFile => match param_value(params, "path"@) {
                    Some(p) => r matches Action::WriteFile(loc) && loc@ == file_location(
                        files_dir@,
                        p,
                    ),
                    None => r matches Action::Reply(x) && x@ == default_view(
                        HttpResponseCode::R400,
                    ),
                },
            },
    {
        match self {
            Endpoint::Root => Action::Reply(Response::success()),
            Endpoint::UserAgent => match req.header_val("User-Agent") {
                Some(v) => Action::Reply(
                    Response::new(
                        req,
                        HttpResponseCode::R200,
                        Some(v.clone()),
                        ContentType::TextPlain,
                        req.protocol,
                    ),
                ),
                None => Action::Reply(Response::bad_request()),
            },
            Endpoint::Echo => match get_param(&params, "text") {
                Some(t) => Action::Reply(
                    Response::new(
                        req,
                        HttpResponseCode::R200,
                        Some(t),
                        ContentType::TextPlain,
                        req.protocol,
                    ),
                ),
                None => Action::Reply(Response::bad_request()),
            },
            Endpoint::ReadFile => match get_param(&params, "path") {
                Some(p) => Action::ReadFile(file_path(files_dir, &p)),
                None => Action::Reply(Response::bad_request()),
            },
            Endpoint::WriteFile => match get_param(&params, "path") {
                Some(p) => Action::WriteFile(file_path(files_dir, &p)),
                None => Action::Reply(Response::bad_request()),
            },
        }
    }
}

fn file_path(dir: &str, name: &String) -> (r: String)
    ensures
        r@ == file_location(dir@, name@),
{
    let mut r = String::from_str(dir);
    r.append("/");
    r.append(name.as_str());
    r
}

} // verus!
