//! The route table: method and path pattern to handler, first match wins.
use vstd::prelude::*;
use crate::path::{params_of, parse_path, path_matches, PartView, Path, PathParseError};
use crate::request::{ReqType, Request};
use crate::response::{default_view, HttpResponseCode, Response};
use crate::text_map::TextMap;

verus! {

/// What answers the requests of a route. The application implements it; the
/// handler receives the request, the parameters the route bound and the
/// application's context.
pub trait Handler<Ctx> {
    fn handle(&self, req: &Request, params: Option<TextMap>, ctx: &Ctx) -> Response;
}

/// One registered route.
#[derive(Debug)]
pub struct Route<H> {
    pub req_type: ReqType,
    pub path: Path,
    pub handler: H,
}

/// A route answers a request with method `m` and path `p`.
pub open spec fn route_hits(entry: (ReqType, Seq<PartView>), m: ReqType, p: Seq<PartView>) -> bool {
    entry.0 == m && path_matches(entry.1, p)
}

/// Index of the first route of `table` that answers method `m` and path `p`.
pub open spec fn first_match(table: Seq<(ReqType, Seq<PartView>)>, m: ReqType, p: Seq<PartView>) -> Option<int>
    decreases table.len(),
{
    if table.len() == 0 {
        None
    } else {
        match first_match(table.drop_last(), m, p) {
            Some(i) => Some(i),
            None => if route_hits(table.last(), m, p) {
                Some(table.len() - 1)
            } else {
                None
            },
        }
    }
}

/// `first_match` is the least index of a route that answers.
pub proof fn lemma_first_match(table: Seq<(ReqType, Seq<PartView>)>, m: ReqType, p: Seq<PartView>)
    ensures
        match first_match(table, m, p) {
            Some(i) => 0 <= i < table.len() && route_hits(table[i], m, p) && forall|j: int|
                0 <= j < i ==> !route_hits(#[trigger] table[j], m, p),
            None => forall|j: int| 0 <= j < table.len() ==> !route_hits(#[trigger] table[j], m, p),
        },
    decreases table.len(),
{
    if table.len() > 0 {
        lemma_first_match(table.drop_last(), m, p);
        assert forall|j: int| 0 <= j < table.len() - 1 implies #[trigger] table[j] == table.drop_last()[j] by {}
    }
}

/// Dispatch is determined by the table: with routes registered in a fixed
/// order, two requests that each match exactly one route, different ones,
/// are each dispatched to their own route.
pub proof fn lemma_dispatch_deterministic(
    table: Seq<(ReqType, Seq<PartView>)>,
    method_a: ReqType,
    path_a: Seq<PartView>,
    index_a: int,
    method_b: ReqType,
    path_b: Seq<PartView>,
    index_b: int,
)
    requires
        0 <= index_a < table.len(),
        0 <= index_b < table.len(),
        index_a != index_b,
        route_hits(table[index_a], method_a, path_a),
        route_hits(table[index_b], method_b, path_b),
        forall|j: int| 0 <= j < table.len() && j != index_a ==> !route_hits(#[trigger] table[j], method_a, path_a),
        forall|j: int| 0 <= j < table.len() && j != index_b ==> !route_hits(#[trigger] table[j], method_b, path_b),
    ensures
        first_match(table, method_a, path_a) == Some(index_a),
        first_match(table, method_b, path_b) == Some(index_b),
{
    lemma_first_match(table, method_a, path_a);
    lemma_first_match(table, method_b, path_b);
}

/// The routes in registration order.
#[derive(Debug)]
pub struct Router<H> {
    routes: Vec<Route<H>>,
}

impl<H> Router<H> {
    /// Method and path of each route, in registration order.
    pub closed spec fn table(&self) -> Seq<(ReqType, Seq<PartView>)> {
        self.routes@.map_values(|r: Route<H>| (r.req_type, r.path@))
    }

    /// The handler of each route, in registration order.
    pub closed spec fn handlers(&self) -> Seq<H> {
        self.routes@.map_values(|r: Route<H>| r.handler)
    }

    /// A router without routes.
    pub fn new() -> (r: Router<H>)
        ensures
            r.table() == Seq::<(ReqType, Seq<PartView>)>::empty(),
            r.handlers() == Seq::<H>::empty(),
    {
        let r = Router { routes: Vec::new() };
        assert(r.table() =~= Seq::<(ReqType, Seq<PartView>)>::empty());
        assert(r.handlers() =~= Seq::<H>::empty());
        r
    }

    /// Registers `handler` for `GET` requests whose path matches `path`.
    pub fn get(&mut self, path: &str, handler: H) -> (r: Result<(), PathParseError>)
        ensures
            match parse_path(path@) {
                Some(pv) => r is Ok && final(self).table() == old(self).table().push((ReqType::Get, pv))
                    && final(self).handlers() == old(self).handlers().push(handler),
                None => r is Err && final(self).table() == old(self).table()
                    && final(self).handlers() == old(self).handlers(),
            },
    {
        self.add_route(ReqType::Get, path, handler)
    }

    /// Registers `handler` for `POST` requests whose path matches `path`.
    pub fn post(&mut self, path: &str, handler: H) -> (r: Result<(), PathParseError>)
        ensures
            match parse_path(path@) {
                Some(pv) => r is Ok && final(self).table() == old(self).table().push((ReqType::Post, pv))
                    && final(self).handlers() == old(self).handlers().push(handler),
                None => r is Err && final(self).table() == old(self).table()
                    && final(self).handlers() == old(self).handlers(),
            },
    {
        self.add_route(ReqType::Post, path, handler)
    }

    fn add_route(&mut self, req_type: ReqType, path: &str, handler: H) -> (r: Result<(), PathParseError>)
        ensures
            match parse_path(path@) {
                Some(pv) => r is Ok && final(self).table() == old(self).table().push((req_type, pv))
                    && final(self).handlers() == old(self).handlers().push(handler),
                None => r is Err && final(self).table() == old(self).table()
                    && final(self).handlers() == old(self).handlers(),
            },
    {
        let parsed = match Path::parse(path) {
            Ok(p) => p,
            Err(e) => return Err(e),
        };
        let route = Route { req_type, path: parsed, handler };
        let ghost old_routes = self.routes@;
        self.routes.push(route);
        assert(self.table() =~= old(self).table().push((req_type, route.path@)));
        assert(self.handlers() =~= old(self).handlers().push(handler));
        Ok(())
    }

    /// Index of the first route that answers `req`.
    pub fn find_route(&self, req: &Request) -> (r: Option<usize>)
        ensures
            match first_match(self.table(), req@.method, req@.path) {
                Some(i) => r matches Some(x) && x as int == i,
                None => r is None,
            },
    {
        proof {
            lemma_first_match(self.table(), req@.method, req@.path);
        }
        let mut i: usize = 0;
        while i < self.routes.len()
            invariant
                i <= self.routes@.len(),
                self.table().len() == self.routes@.len(),
                forall|j: int| 0 <= j < i ==> !route_hits(#[trigger] self.table()[j], req@.method, req@.path),
            decreases self.routes@.len() - i,
        {
            let route = &self.routes[i];
            assert(self.table()[i as int] == (route.req_type, route.path@));
            if route.req_type == req.req_type && route.path.matches(&req.path) {
                assert(route_hits(self.table()[i as int], req@.method, req@.path));
                proof {
                    lemma_first_match(self.table(), req@.method, req@.path);
                }
                return Some(i);
            }
            i = i + 1;
        }
        proof {
            lemma_first_match(self.table(), req@.method, req@.path);
        }
        None
    }

    /// The handler of the first route that answers `req`, with the
    /// parameters that route binds.
    pub fn route_for(&self, req: &Request) -> (r: Option<(&H, Option<TextMap>)>)
        ensures
            match first_match(self.table(), req@.method, req@.path) {
                Some(i) => r matches Some((h, ps)) && *h == self.handlers()[i] && (ps matches Some(
                    m) && m@ == params_of(self.table()[i].1, req@.path)),
                None => r is None,
            },
    {
        proof {
            lemma_first_match(self.table(), req@.method, req@.path);
        }
        match self.find_route(req) {
            Some(i) => {
                let route = &self.routes[i];
                assert(self.table()[i as int] == (route.req_type, route.path@));
                assert(self.handlers()[i as int] == route.handler);
                assert(first_match(self.table(), req@.method, req@.path) == Some(i as int));
                assert(route_hits(self.table()[i as int], req@.method, req@.path));
                assert(path_matches(route.path@, req@.path));
                let params = route.path.get_req_param(&req.path);
                assert(params is Some);
                Some((&route.handler, params))
            },
            None => None,
        }
    }

    /// Answers `req` with the handler of the first route that matches it,
    /// or with `404 Not Found` when none does.
    pub fn handle_request<Ctx>(&self, req: Request, ctx: &Ctx) -> (r: Response) where H: Handler<Ctx>
        ensures
            first_match(self.table(), req@.method, req@.path) is None ==> r@ == default_view(
                HttpResponseCode::R404,
            ),
    {
        match self.route_for(&req) {
            Some((handler, params)) => handler.handle(&req, params, ctx),
            None => Response::not_found(),
        }
    }
}

} // verus!
