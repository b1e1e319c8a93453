//! The router: exact and prefix route tables, frozen after
//! construction, that resolve a request to a middleware-wrapped handler
//! or to a not-found / method-not-allowed fallback.

use vstd::prelude::*;
use crate::http::Method;
use crate::http::State;
use crate::http::SpecState;
use crate::http::handlers::HandlerKind;
use crate::http::handlers::HandlerOutcome;
use crate::http::handlers::SpecHandlerOutcome;
use crate::http::handlers::echo_handler;
use crate::http::handlers::file_get_handler;
use crate::http::handlers::file_post_handler;
use crate::http::handlers::internal_error_handler;
use crate::http::handlers::method_not_allowed_handler;
use crate::http::handlers::not_found_handler;
use crate::http::handlers::ok_handler;
use crate::http::handlers::spec_echo;
use crate::http::handlers::spec_file_get;
use crate::http::handlers::spec_file_post;
use crate::http::handlers::spec_user_agent;
use crate::http::handlers::user_agent_handler;
use crate::http::helpers::SLASH;
use crate::http::helpers::bytes_eq;
use crate::http::helpers::copy_range;
use crate::http::helpers::lemma_assoc_find_none;
use crate::http::helpers::lemma_assoc_insert_is_update;
use crate::http::helpers::spec_assoc_find;
use crate::http::helpers::spec_assoc_insert;
use crate::http::helpers::starts_with_bytes;
use crate::http::middleware::Middleware;
use crate::http::middleware::apply_pipeline;
use crate::http::middleware::spec_apply_pipeline;
use crate::http::request::Request;
use crate::http::request::SpecRequest;
use crate::http::response::Response;
use crate::http::response::SpecResponse;
use crate::http::response::spec_from_status;
use crate::http::status::StatusCode;

verus! {

/// A route's target: the accepted method, the handler, and the
/// middleware pipeline captured at registration.
pub struct RouteEntry {
    pub method: Method,
    pub handler: HandlerKind,
    pub pipeline: Vec<Middleware>,
}

/// Model of a route entry.
pub struct SpecRouteEntry {
    pub method: Method,
    pub handler: HandlerKind,
    pub pipeline: Seq<Middleware>,
}

impl View for RouteEntry {
    type V = SpecRouteEntry;

    open spec fn view(&self) -> SpecRouteEntry {
        SpecRouteEntry { method: self.method, handler: self.handler, pipeline: self.pipeline@ }
    }
}

/// The route pairs a table holds, as models.
pub open spec fn spec_route_pairs(v: Seq<(Vec<u8>, RouteEntry)>) -> Seq<(Seq<u8>, SpecRouteEntry)> {
    Seq::new(v.len(), |i: int| (v[i].0@, v[i].1@))
}

/// Model of a router: the exact table and the ordered prefix routes.
pub struct SpecRouter {
    pub exact: Seq<(Seq<u8>, SpecRouteEntry)>,
    pub prefixes: Seq<(Seq<u8>, SpecRouteEntry)>,
}

/// Model of a router under construction.
pub struct SpecRouterInner {
    pub exact: Seq<(Seq<u8>, SpecRouteEntry)>,
    pub prefixes: Seq<(Seq<u8>, SpecRouteEntry)>,
    pub middleware: Seq<Middleware>,
}

/// A path as looked up in the exact table: one trailing slash is
/// stripped, except from the root path itself.
pub open spec fn spec_normalize(path: Seq<u8>) -> Seq<u8> {
    if path == seq![SLASH] {
        path
    } else if path.len() > 0 && path.last() == SLASH {
        path.drop_last()
    } else {
        path
    }
}

/// The routing decision for a method and path.
pub enum SpecRoute {
    Found(SpecRouteEntry),
    WrongMethod,
    Missing,
}

/// Walk the prefix routes in registration order: the first entry whose
/// prefix starts the path and whose method matches wins; `seen` records
/// whether any route matched the path at all.
pub open spec fn spec_route_prefixes(
    ps: Seq<(Seq<u8>, SpecRouteEntry)>,
    path: Seq<u8>,
    method: Method,
    seen: bool,
) -> SpecRoute
    decreases ps.len(),
{
    if ps.len() == 0 {
        if seen {
            SpecRoute::WrongMethod
        } else {
            SpecRoute::Missing
        }
    } else {
        if ps.first().0.is_prefix_of(path) {
            if ps.first().1.method == method {
                SpecRoute::Found(ps.first().1)
            } else {
                spec_route_prefixes(ps.drop_first(), path, method, true)
            }
        } else {
            spec_route_prefixes(ps.drop_first(), path, method, seen)
        }
    }
}

/// The full routing algorithm: normalized exact lookup first, then the
/// prefix walk over the original path; a route that matched the path
/// with the wrong method turns a miss into method-not-allowed.
pub open spec fn spec_route(r: SpecRouter, method: Method, path: Seq<u8>) -> SpecRoute {
    match spec_assoc_find(r.exact, spec_normalize(path)) {
        Some(e) => if e.method == method {
            SpecRoute::Found(e)
        } else {
            spec_route_prefixes(r.prefixes, path, method, true)
        },
        None => spec_route_prefixes(r.prefixes, path, method, false),
    }
}

/// What the router hands the driver for one request: a finished
/// response, or file work plus the pipeline to finish with.
pub enum Dispatch {
    Done(Response),
    FileRead { name: Vec<u8>, pipeline: Vec<Middleware> },
    FileWrite { name: Vec<u8>, data: Vec<u8>, pipeline: Vec<Middleware> },
}

/// Model of a dispatch.
pub enum SpecDispatch {
    Done(SpecResponse),
    FileRead { name: Seq<u8>, pipeline: Seq<Middleware> },
    FileWrite { name: Seq<u8>, data: Seq<u8>, pipeline: Seq<Middleware> },
}

impl View for Dispatch {
    type V = SpecDispatch;

    open spec fn view(&self) -> SpecDispatch {
        match self {
            Dispatch::Done(resp) => SpecDispatch::Done(resp@),
            Dispatch::FileRead { name, pipeline } => SpecDispatch::FileRead {
                name: name@,
                pipeline: pipeline@,
            },
            Dispatch::FileWrite { name, data, pipeline } => SpecDispatch::FileWrite {
                name: name@,
                data: data@,
                pipeline: pipeline@,
            },
        }
    }
}

/// The response of a handler that needs no outside work.
pub open spec fn spec_handler_response(kind: HandlerKind, req: SpecRequest) -> SpecResponse {
    match kind {
        HandlerKind::AlwaysOk => spec_from_status(StatusCode::OK),
        HandlerKind::Echo => spec_echo(req),
        HandlerKind::UserAgent => spec_user_agent(req),
        HandlerKind::NotFound => spec_from_status(StatusCode::NotFound),
        HandlerKind::MethodNotAllowed => spec_from_status(StatusCode::MethodNotAllowed),
        HandlerKind::InternalError => spec_from_status(StatusCode::Internal),
        HandlerKind::FileGet => spec_from_status(StatusCode::Internal),
        HandlerKind::FilePost => spec_from_status(StatusCode::Internal),
    }
}

/// Dispatch through one matched route entry.
pub open spec fn spec_dispatch(e: SpecRouteEntry, req: SpecRequest, st: SpecState) -> SpecDispatch {
    match e.handler {
        HandlerKind::FileGet => match spec_file_get(req, st) {
            SpecHandlerOutcome::Respond(resp) => SpecDispatch::Done(
                spec_apply_pipeline(e.pipeline, req.headers, st, resp),
            ),
            SpecHandlerOutcome::ReadFile(name) => SpecDispatch::FileRead {
                name,
                pipeline: e.pipeline,
            },
            SpecHandlerOutcome::WriteFile(name, data) => SpecDispatch::FileWrite {
                name,
                data,
                pipeline: e.pipeline,
            },
        },
        HandlerKind::FilePost => match spec_file_post(req, st) {
            SpecHandlerOutcome::Respond(resp) => SpecDispatch::Done(
                spec_apply_pipeline(e.pipeline, req.headers, st, resp),
            ),
            SpecHandlerOutcome::ReadFile(name) => SpecDispatch::FileRead {
                name,
                pipeline: e.pipeline,
            },
            SpecHandlerOutcome::WriteFile(name, data) => SpecDispatch::FileWrite {
                name,
                data,
                pipeline: e.pipeline,
            },
        },
        _ => SpecDispatch::Done(
            spec_apply_pipeline(e.pipeline, req.headers, st, spec_handler_response(e.handler, req)),
        ),
    }
}

/// The router's whole answer to a request.
pub open spec fn spec_handle(r: SpecRouter, req: SpecRequest, st: SpecState) -> SpecDispatch {
    match spec_route(r, req.method, req.path) {
        SpecRoute::Found(e) => spec_dispatch(e, req, st),
        SpecRoute::WrongMethod => SpecDispatch::Done(
            spec_from_status(StatusCode::MethodNotAllowed),
        ),
        SpecRoute::Missing => SpecDispatch::Done(spec_from_status(StatusCode::NotFound)),
    }
}

/// Strip one trailing slash, except from the root path.
pub fn normalize_path(path: &Vec<u8>) -> (r: Vec<u8>)
    ensures
        r@ == spec_normalize(path@),
{
    let n = path.len();
    if n == 1 && path[0] == SLASH {
        proof {
            assert(path@ =~= seq![SLASH]);
        }
        return copy_range(path, 0, n);
    }
    proof {
        assert(path@ != seq![SLASH]);
    }
    if n > 0 && path[n - 1] == SLASH {
        let r = copy_range(path, 0, n - 1);
        proof {
            assert(r@ =~= path@.drop_last());
        }
        r
    } else {
        copy_range(path, 0, n)
    }
}

fn copy_middleware(src: &Vec<Middleware>) -> (r: Vec<Middleware>)
    ensures
        r@ == src@,
{
    let mut r: Vec<Middleware> = Vec::new();
    let mut i: usize = 0;
    while i < src.len()
        invariant
            0 <= i <= src@.len(),
            r@ == src@.take(i as int),
        decreases src@.len() - i,
    {
        r.push(src[i]);
        proof {
            assert(src@.take(i as int).push(src@[i as int]) =~= src@.take(i as int + 1));
        }
        i = i + 1;
    }
    proof {
        assert(src@.take(src@.len() as int) =~= src@);
    }
    r
}

/// A router under construction; routes registered later can see the
/// middleware registered earlier.
pub struct RouterInner {
    exact: Vec<(Vec<u8>, RouteEntry)>,
    starts_with: Vec<(Vec<u8>, RouteEntry)>,
    pre_middleware: Vec<Middleware>,
}

impl View for RouterInner {
    type V = SpecRouterInner;

    closed spec fn view(&self) -> SpecRouterInner {
        SpecRouterInner {
            exact: spec_route_pairs(self.exact@),
            prefixes: spec_route_pairs(self.starts_with@),
            middleware: self.pre_middleware@,
        }
    }
}

impl RouterInner {
    /// Register a route matched by exact (normalized) path; the handler
    /// is wrapped with the middleware registered so far.
    pub fn exact_route(self, path: Vec<u8>, method: Method, handler: HandlerKind) -> (r: Self)
        ensures
            r@.exact == spec_assoc_insert(
                self@.exact,
                spec_normalize(path@),
                SpecRouteEntry { method, handler, pipeline: self@.middleware },
            ),
            r@.prefixes == self@.prefixes,
            r@.middleware == self@.middleware,
    {
        let npath = normalize_path(&path);
        let entry = RouteEntry { method, handler, pipeline: copy_middleware(&self.pre_middleware) };
        let RouterInner { exact: mut exact, starts_with, pre_middleware } = self;
        let ghost ps = spec_route_pairs(exact@);
        proof {
            assert(ps =~= self@.exact);
        }
        let ghost sentry = SpecRouteEntry { method, handler, pipeline: self@.middleware };
        let mut i: usize = exact.len();
        while i > 0
            invariant
                0 <= i <= exact@.len(),
                ps == spec_route_pairs(exact@),
                ps == self@.exact,
                npath@ == spec_normalize(path@),
                entry@ == sentry,
                sentry == (SpecRouteEntry { method, handler, pipeline: self@.middleware }),
                starts_with == self.starts_with,
                pre_middleware == self.pre_middleware,
                forall|j: int| i <= j < ps.len() ==> (#[trigger] ps[j]).0 != npath@,
            decreases i,
        {
            i = i - 1;
            if bytes_eq(&exact[i].0, &npath) {
                proof {
                    lemma_assoc_insert_is_update(ps, npath@, sentry, i as int);
                }
                exact[i] = (npath, entry);
                let r = RouterInner { exact, starts_with, pre_middleware };
                proof {
                    assert(r@.exact =~= ps.update(i as int, (npath@, sentry)));
                    assert(r@.prefixes =~= self@.prefixes);
                }
                return r;
            }
        }
        proof {
            lemma_assoc_find_none(ps, npath@);
        }
        exact.push((npath, entry));
        let r = RouterInner { exact, starts_with, pre_middleware };
        proof {
            assert(r@.exact =~= ps.push((npath@, sentry)));
            assert(r@.prefixes =~= self@.prefixes);
        }
        r
    }

    /// Register a route matched by literal path prefix; prefix routes
    /// are tried in registration order.
    pub fn starts_with_route(self, path: Vec<u8>, method: Method, handler: HandlerKind) -> (r:
        Self)
        ensures
            r@.prefixes == self@.prefixes.push(
                (path@, SpecRouteEntry { method, handler, pipeline: self@.middleware }),
            ),
            r@.exact == self@.exact,
            r@.middleware == self@.middleware,
    {
        let entry = RouteEntry { method, handler, pipeline: copy_middleware(&self.pre_middleware) };
        let RouterInner { exact, starts_with: mut starts_with, pre_middleware } = self;
        starts_with.push((path, entry));
        let r = RouterInner { exact, starts_with, pre_middleware };
        proof {
            assert(r@.prefixes =~= self@.prefixes.push(
                (path@, SpecRouteEntry { method, handler, pipeline: self@.middleware }),
            ));
            assert(r@.exact =~= self@.exact);
        }
        r
    }

    /// Register a middleware for the routes registered after it; the
    /// first registered transforms each response first.
    pub fn add_pre_middleware(self, middleware: Middleware) -> (r: Self)
        ensures
            r@.middleware == self@.middleware.push(middleware),
            r@.exact == self@.exact,
            r@.prefixes == self@.prefixes,
    {
        let RouterInner { exact, starts_with, pre_middleware: mut pre_middleware } = self;
        pre_middleware.push(middleware);
        let r = RouterInner { exact, starts_with, pre_middleware };
        proof {
            assert(r@.exact =~= self@.exact);
            assert(r@.prefixes =~= self@.prefixes);
        }
        r
    }

    /// Freeze the tables.
    pub fn build(self) -> (r: Router)
        ensures
            r@.exact == self@.exact,
            r@.prefixes == self@.prefixes,
    {
        let RouterInner { exact, starts_with, pre_middleware: _ } = self;
        let r = Router { exact, starts_with };
        proof {
            assert(r@.exact =~= self@.exact);
            assert(r@.prefixes =~= self@.prefixes);
        }
        r
    }
}

/// The frozen router, shared read-only across connections.
pub struct Router {
    exact: Vec<(Vec<u8>, RouteEntry)>,
    starts_with: Vec<(Vec<u8>, RouteEntry)>,
}

impl View for Router {
    type V = SpecRouter;

    closed spec fn view(&self) -> SpecRouter {
        SpecRouter {
            exact: spec_route_pairs(self.exact@),
            prefixes: spec_route_pairs(self.starts_with@),
        }
    }
}

/// Run the handler of a matched entry that needs no outside work.
fn invoke_pure(kind: HandlerKind, request: &Request, state: &State) -> (r: Response)
    ensures
        r@ == spec_handler_response(kind, request@),
{
    match kind {
        HandlerKind::AlwaysOk => ok_handler(request, state),
        HandlerKind::Echo => echo_handler(request, state),
        HandlerKind::UserAgent => user_agent_handler(request, state),
        HandlerKind::NotFound => not_found_handler(request, state),
        HandlerKind::MethodNotAllowed => method_not_allowed_handler(request, state),
        HandlerKind::InternalError => internal_error_handler(request, state),
        HandlerKind::FileGet => internal_error_handler(request, state),
        HandlerKind::FilePost => internal_error_handler(request, state),
    }
}

/// Dispatch a request through a matched route entry: run the handler
/// and apply the entry's pipeline, or hand the file work out with that
/// pipeline.
fn dispatch_entry(entry: &RouteEntry, request: &Request, state: &State) -> (d: Dispatch)
    ensures
        d@ == spec_dispatch(entry@, request@, state@),
{
    match entry.handler {
        HandlerKind::FileGet => {
            match file_get_handler(request, state) {
                HandlerOutcome::Respond(resp) => {
                    let out = apply_pipeline(&entry.pipeline, &request.metadata.headers, state, resp);
                    Dispatch::Done(out)
                },
                HandlerOutcome::ReadFile(name) => Dispatch::FileRead {
                    name,
                    pipeline: copy_middleware(&entry.pipeline),
                },
                HandlerOutcome::WriteFile(name, data) => Dispatch::FileWrite {
                    name,
                    data,
                    pipeline: copy_middleware(&entry.pipeline),
                },
            }
        },
        HandlerKind::FilePost => {
            match file_post_handler(request, state) {
                HandlerOutcome::Respond(resp) => {
                    let out = apply_pipeline(&entry.pipeline, &request.metadata.headers, state, resp);
                    Dispatch::Done(out)
                },
                HandlerOutcome::ReadFile(name) => Dispatch::FileRead {
                    name,
                    pipeline: copy_middleware(&entry.pipeline),
                },
                HandlerOutcome::WriteFile(name, data) => Dispatch::FileWrite {
                    name,
                    data,
                    pipeline: copy_middleware(&entry.pipeline),
                },
            }
        },
        _ => {
            let resp = invoke_pure(entry.handler, request, state);
            let out = apply_pipeline(&entry.pipeline, &request.metadata.headers, state, resp);
            Dispatch::Done(out)
        },
    }
}

impl Router {
    /// Index of the latest exact-table entry whose key is `norm`.
    fn find_exact(&self, norm: &Vec<u8>) -> (r: Option<usize>)
        ensures
            match r {
                Some(idx) => idx < self@.exact.len() && spec_assoc_find(self@.exact, norm@)
                    == Some(self@.exact[idx as int].1),
                None => spec_assoc_find(self@.exact, norm@) is None,
            },
    {
        let mut i: usize = self.exact.len();
        proof {
            assert(self@.exact.take(i as int) =~= self@.exact);
        }
        while i > 0
            invariant
                0 <= i <= self.exact@.len(),
                spec_assoc_find(self@.exact, norm@) == spec_assoc_find(
                    self@.exact.take(i as int),
                    norm@,
                ),
            decreases i,
        {
            i = i - 1;
            if bytes_eq(&self.exact[i].0, norm) {
                proof {
                    assert(self@.exact.take(i as int + 1).last() == self@.exact[i as int]);
                }
                return Some(i);
            }
            proof {
                assert(self@.exact.take(i as int + 1).drop_last() =~= self@.exact.take(i as int));
            }
        }
        proof {
            assert(self@.exact.take(0) =~= Seq::<(Seq<u8>, SpecRouteEntry)>::empty());
        }
        None
    }

    /// Start building a router.
    pub fn builder() -> (r: RouterInner)
        ensures
            r@.exact == Seq::<(Seq<u8>, SpecRouteEntry)>::empty(),
            r@.prefixes == Seq::<(Seq<u8>, SpecRouteEntry)>::empty(),
            r@.middleware == Seq::<Middleware>::empty(),
    {
        let r = RouterInner { exact: Vec::new(), starts_with: Vec::new(), pre_middleware: Vec::new() };
        proof {
            assert(r@.exact =~= Seq::<(Seq<u8>, SpecRouteEntry)>::empty());
            assert(r@.prefixes =~= Seq::<(Seq<u8>, SpecRouteEntry)>::empty());
        }
        r
    }

    /// Resolve a request: exact table first, then prefix routes in
    /// registration order; a path matched only under another method
    /// ends in 405, an unmatched one in 404, and neither fallback runs
    /// any middleware.
    pub fn handle(&self, request: &Request, state: &State) -> (d: Dispatch)
        ensures
            d@ == spec_handle(self@, request@, state@),
    {
        let path = &request.metadata.path;
        let norm = normalize_path(path);
        let mut seen: bool = false;
        match self.find_exact(&norm) {
            Some(idx) => {
                let entry = &self.exact[idx].1;
                if method_eq(entry.method, request.metadata.method) {
                    proof {
                        assert(spec_route(self@, request@.method, request@.path)
                            == SpecRoute::Found(entry@));
                    }
                    return dispatch_entry(entry, request, state);
                }
                seen = true;
            },
            None => {},
        }
        // prefix routes, in registration order
        let ghost seen0 = seen;
        let n = self.starts_with.len();
        let mut k: usize = 0;
        proof {
            assert(self@.prefixes.skip(0) =~= self@.prefixes);
        }
        while k < n
            invariant
                0 <= k <= n,
                n == self.starts_with@.len(),
                norm@ == spec_normalize(request@.path),
                spec_route_prefixes(self@.prefixes, request@.path, request@.method, seen0)
                    == spec_route_prefixes(
                    self@.prefixes.skip(k as int),
                    request@.path,
                    request@.method,
                    seen,
                ),
                spec_route(self@, request@.method, request@.path) == spec_route_prefixes(
                    self@.prefixes,
                    request@.path,
                    request@.method,
                    seen0,
                ),
            decreases n - k,
        {
            let pfx = &self.starts_with[k].0;
            proof {
                assert(self@.prefixes.skip(k as int).first() == self@.prefixes[k as int]);
                assert(self@.prefixes.skip(k as int).drop_first() =~= self@.prefixes.skip(
                    k as int + 1,
                ));
            }
            if starts_with_bytes(&request.metadata.path, pfx) {
                let entry = &self.starts_with[k].1;
                if method_eq(entry.method, request.metadata.method) {
                    proof {
                        assert(spec_route(self@, request@.method, request@.path)
                            == SpecRoute::Found(entry@));
                    }
                    return dispatch_entry(entry, request, state);
                }
                seen = true;
            }
            k = k + 1;
        }
        proof {
            assert(self@.prefixes.skip(n as int) =~= Seq::<(Seq<u8>, SpecRouteEntry)>::empty());
        }
        if seen {
            Dispatch::Done(method_not_allowed_handler(request, state))
        } else {
            Dispatch::Done(not_found_handler(request, state))
        }
    }
}

fn method_eq(a: Method, b: Method) -> (r: bool)
    ensures
        r == (a == b),
{
    a == b
}

/// Registration reaches lookup: after an exact route is registered, any
/// request whose path normalizes like the registered one, under the
/// registered method, routes to exactly that entry — in particular a
/// path that differs only by a trailing slash.
pub proof fn lemma_registered_exact_route_is_found(
    inner: SpecRouterInner,
    path: Seq<u8>,
    method: Method,
    handler: HandlerKind,
    req_path: Seq<u8>,
)
    requires
        spec_normalize(req_path) == spec_normalize(path),
    ensures
        ({
            let entry = SpecRouteEntry { method, handler, pipeline: inner.middleware };
            let frozen = SpecRouter {
                exact: spec_assoc_insert(inner.exact, spec_normalize(path), entry),
                prefixes: inner.prefixes,
            };
            spec_route(frozen, method, req_path) == SpecRoute::Found(entry)
        }),
{
    let entry = SpecRouteEntry { method, handler, pipeline: inner.middleware };
    crate::http::helpers::lemma_assoc_insert_find(
        inner.exact,
        spec_normalize(path),
        entry,
        spec_normalize(path),
    );
}

} // verus!
