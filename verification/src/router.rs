//! The router: registration of (method, pattern, handler) triples with
//! duplicate rejection, and a single dispatch entry point that matches the
//! request's path, runs the chosen handler, and turns every failure into an
//! HTTP response. The route table is immutable after registration; dispatch
//! is a pure function of the table and the request.

use vstd::prelude::*;
use crate::bytes::bytes_of;
use crate::bytes::spec_split;
use crate::bytes::split_bytes;
use crate::bytes::views_of;
use crate::error::ExtractError;
use crate::error::RegisterError;
use crate::pattern::is_capture;
use crate::pattern::beats;
use crate::pattern::match_parts;
use crate::pattern::same_shape;
use crate::pattern::spec_beats;
use crate::pattern::spec_match_parts;
use crate::pattern::spec_same_shape;
use crate::query::pair_views;
use crate::request::Method;
use crate::request::ReqV;
use crate::request::Request;
use crate::request::RespV;
use crate::request::Response;
use crate::request::error_response;
use crate::request::not_found_response;
use crate::request::spec_error_response;
use crate::request::spec_not_found_response;

verus! {

/// What a registered handler is to the router: `call` runs it against the
/// request and its captured parameters, and `spec_call` pins what `call`
/// returns, so that dispatch is a function of the route table and the
/// request. The two calling styles of the framework — structured-argument
/// and raw-request — are both implementations of this trait.
pub trait Handler: Sized {
    /// The handler's result for a request and its captures.
    spec fn spec_call(&self, req: ReqV, params: Seq<(Seq<u8>, Seq<u8>)>) -> Result<
        RespV,
        ExtractError,
    >;

    /// Runs the handler. The request may be left with its body consumed.
    fn call(&self, req: &mut Request, params: &Vec<(Vec<u8>, Vec<u8>)>) -> (r: Result<
        Response,
        ExtractError,
    >)
        ensures
            match r {
                Ok(resp) => self.spec_call(old(req)@, pair_views(params@)) == Ok::<
                    RespV,
                    ExtractError,
                >(resp@),
                Err(e) => self.spec_call(old(req)@, pair_views(params@)) == Err::<
                    RespV,
                    ExtractError,
                >(e),
            },
    ;
}

/// One registered route.
pub struct Route<H> {
    pub method: Method,
    pub pattern: Vec<Vec<u8>>,
    pub handler: H,
}

#[verifier::reject_recursive_types(H)]
pub ghost struct RouteV<H> {
    pub method: Method,
    pub pattern: Seq<Seq<u8>>,
    pub handler: H,
}

pub open spec fn route_views<H>(rs: Seq<Route<H>>) -> Seq<RouteV<H>> {
    rs.map_values(
        |r: Route<H>| RouteV { method: r.method, pattern: views_of(r.pattern@), handler: r.handler },
    )
}

/// Whether a route matches the request's method and path parts.
pub open spec fn route_matches<H>(r: RouteV<H>, method: Method, parts: Seq<Seq<u8>>) -> bool {
    r.method == method && spec_match_parts(r.pattern, parts) is Some
}

/// The route dispatch selects, scanning from `i` with `cur` the best so far:
/// a matching route displaces the current choice only when its pattern beats
/// it, so literal segments win over captures and remaining ties keep the
/// earliest registration.
pub open spec fn spec_best_from<H>(
    routes: Seq<RouteV<H>>,
    method: Method,
    parts: Seq<Seq<u8>>,
    i: int,
    cur: Option<int>,
) -> Option<int>
    decreases routes.len() - i,
{
    if i < 0 || i >= routes.len() {
        cur
    } else {
        let better = route_matches(routes[i], method, parts) && match cur {
            None => true,
            Some(j) => spec_beats(routes[i].pattern, routes[j].pattern),
        };
        spec_best_from(routes, method, parts, i + 1, if better {
            Some(i)
        } else {
            cur
        })
    }
}

/// The route dispatch selects for a method and path parts, if any matches.
pub open spec fn spec_best<H>(routes: Seq<RouteV<H>>, method: Method, parts: Seq<Seq<u8>>) -> Option<
    int,
> {
    spec_best_from(routes, method, parts, 0, None::<int>)
}

/// What dispatch returns: the best-matching route's handler result, its
/// failure mapped to an error response, or 404 when no route matches.
pub open spec fn spec_dispatch<H: Handler>(routes: Seq<RouteV<H>>, req: ReqV) -> RespV {
    let parts = spec_split(req.path, 47);
    match spec_best(routes, req.method, parts) {
        None => spec_not_found_response(),
        Some(j) => match spec_match_parts(routes[j].pattern, parts) {
            Some(caps) => match routes[j].handler.spec_call(req, caps) {
                Ok(resp) => resp,
                Err(e) => spec_error_response(e),
            },
            None => spec_not_found_response(),
        },
    }
}

/// A route of this method and shape is already registered.
pub open spec fn spec_dup_exists<H>(
    routes: Seq<RouteV<H>>,
    method: Method,
    pat: Seq<Seq<u8>>,
) -> bool {
    exists|j: int|
        0 <= j < routes.len() && (#[trigger] routes[j]).method == method && spec_same_shape(
            routes[j].pattern,
            pat,
        )
}

/// What a registration call does: on success the route is appended, and a
/// route of the same method and shape is the one ground for rejection.
pub open spec fn spec_registered<H>(
    pre: Seq<RouteV<H>>,
    post: Seq<RouteV<H>>,
    method: Method,
    pattern: &str,
    handler: H,
    r: Result<usize, RegisterError>,
) -> bool {
    match r {
        Ok(id) => id == pre.len() && !spec_dup_exists(pre, method, spec_split(bytes_of(pattern), 47)) && post == pre
            + seq![RouteV { method, pattern: spec_split(bytes_of(pattern), 47), handler }],
        Err(e) => e == RegisterError::DuplicateRoute && spec_dup_exists(
            pre,
            method,
            spec_split(bytes_of(pattern), 47),
        ) && post == pre,
    }
}

pub struct Router<H> {
    pub routes: Vec<Route<H>>,
}

impl<H: Handler> Router<H> {
    pub open spec fn routes_view(&self) -> Seq<RouteV<H>> {
        route_views(self.routes@)
    }

    /// An empty route table.
    pub fn new() -> (r: Router<H>)
        ensures
            r.routes_view() == Seq::<RouteV<H>>::empty(),
    {
        let r = Router { routes: Vec::new() };
        proof {
            assert(r.routes_view() =~= Seq::<RouteV<H>>::empty());
        }
        r
    }

    /// Whether a route of this method and shape is already registered.
    fn has_duplicate(&self, method: Method, pat: &Vec<Vec<u8>>) -> (r: bool)
        ensures
            r == spec_dup_exists(self.routes_view(), method, views_of(pat@)),
    {
        let ghost pv = views_of(pat@);
        let mut j: usize = 0;
        while j < self.routes.len()
            invariant
                j <= self.routes.len(),
                pv == views_of(pat@),
                forall|k: int|
                    0 <= k < j ==> !((#[trigger] self.routes_view()[k]).method == method
                        && spec_same_shape(self.routes_view()[k].pattern, pv)),
            decreases self.routes.len() - j,
        {
            proof {
                assert(self.routes_view()[j as int].pattern == views_of(
                    self.routes@[j as int].pattern@,
                ));
            }
            if method == self.routes[j].method && same_shape(&self.routes[j].pattern, pat) {
                proof {
                    assert(self.routes_view()[j as int].method == method);
                    assert(spec_same_shape(self.routes_view()[j as int].pattern, pv));
                }
                return true;
            }
            j += 1;
        }
        false
    }

    /// Registers a handler under a method and a pattern such as
    /// `/user/:id`. A pattern whose shape is already registered under the
    /// same method is rejected, so no two routes are ambiguous for one path;
    /// registration failures are meant to abort startup. On success the new
    /// route's index is returned.
    pub fn register(&mut self, method: Method, pattern: &str, handler: H) -> (r: Result<
        usize,
        RegisterError,
    >)
        ensures
            spec_registered(
                old(self).routes_view(),
                final(self).routes_view(),
                method,
                pattern,
                handler,
                r,
            ),
    {
        let pat = split_bytes(pattern.as_bytes(), 47);
        let ghost pv = spec_split(bytes_of(pattern), 47);
        if self.has_duplicate(method, &pat) {
            return Err(RegisterError::DuplicateRoute);
        }
        let ghost before = self.routes@;
        let id = self.routes.len();
        self.routes.push(Route { method, pattern: pat, handler });
        proof {
            assert(self.routes_view() =~= route_views(before) + seq![
                RouteV { method, pattern: pv, handler },
            ]);
        }
        Ok(id)
    }

    /// Registers a handler for GET requests.
    pub fn register_get(&mut self, pattern: &str, handler: H) -> (r: Result<usize, RegisterError>)
        ensures
            spec_registered(
                old(self).routes_view(),
                final(self).routes_view(),
                Method::Get,
                pattern,
                handler,
                r,
            ),
    {
        self.register(Method::Get, pattern, handler)
    }

    /// Registers a handler for POST requests.
    pub fn register_post(&mut self, pattern: &str, handler: H) -> (r: Result<usize, RegisterError>)
        ensures
            spec_registered(
                old(self).routes_view(),
                final(self).routes_view(),
                Method::Post,
                pattern,
                handler,
                r,
            ),
    {
        self.register(Method::Post, pattern, handler)
    }

    /// Registers a handler for PUT requests.
    pub fn register_put(&mut self, pattern: &str, handler: H) -> (r: Result<usize, RegisterError>)
        ensures
            spec_registered(
                old(self).routes_view(),
                final(self).routes_view(),
                Method::Put,
                pattern,
                handler,
                r,
            ),
    {
        self.register(Method::Put, pattern, handler)
    }

    /// Registers a handler for DELETE requests.
    pub fn register_delete(&mut self, pattern: &str, handler: H) -> (r: Result<usize, RegisterError>)
        ensures
            spec_registered(
                old(self).routes_view(),
                final(self).routes_view(),
                Method::Delete,
                pattern,
                handler,
                r,
            ),
    {
        self.register(Method::Delete, pattern, handler)
    }

    /// Dispatches one request: picks the best-matching route, runs its
    /// handler, and converts failures. The route table is untouched, so the
    /// same request always draws the same response.
    pub fn dispatch(&self, req: Request) -> (resp: Response)
        ensures
            resp@ == spec_dispatch(self.routes_view(), req@),
    {
        let ghost rv = self.routes_view();
        let ghost req0 = req@;
        let parts = split_bytes(req.path.as_slice(), 47);
        let ghost partsv = spec_split(req0.path, 47);
        let mut best: Option<usize> = None;
        let mut i: usize = 0;
        while i < self.routes.len()
            invariant
                i <= self.routes.len(),
                rv == self.routes_view(),
                partsv == views_of(parts@),
                spec_best(rv, req@.method, partsv) == spec_best_from(
                    rv,
                    req@.method,
                    partsv,
                    i as int,
                    match best {
                        None => None::<int>,
                        Some(b) => Some(b as int),
                    },
                ),
                match best {
                    None => true,
                    Some(b) => b < i && route_matches(rv[b as int], req@.method, partsv),
                },
            decreases self.routes.len() - i,
        {
            proof {
                assert(rv[i as int].pattern == views_of(self.routes@[i as int].pattern@));
            }
            let matched = req.method == self.routes[i].method && match_parts(
                &self.routes[i].pattern,
                &parts,
            ).is_some();
            let better = matched && match best {
                None => true,
                Some(b) => beats(&self.routes[i].pattern, &self.routes[b].pattern),
            };
            proof {
                assert(matched == route_matches(rv[i as int], req@.method, partsv));
                if let Some(b) = best {
                    assert(rv[b as int].pattern == views_of(self.routes@[b as int].pattern@));
                }
            }
            if better {
                best = Some(i);
            }
            i += 1;
        }
        match best {
            None => not_found_response(),
            Some(b) => {
                proof {
                    assert(rv[b as int].pattern == views_of(self.routes@[b as int].pattern@));
                    assert(rv[b as int].handler == self.routes@[b as int].handler);
                }
                match match_parts(&self.routes[b].pattern, &parts) {
                    None => {
                        // unreachable: the selected route matches
                        proof {
                            assert(false);
                        }
                        not_found_response()
                    },
                    Some(caps) => {
                        let mut req = req;
                        let r = self.routes[b].handler.call(&mut req, &caps);
                        match r {
                            Ok(resp) => resp,
                            Err(e) => error_response(e),
                        }
                    },
                }
            },
        }
    }
}

/// Dispatch is free of side effects on the route table and deterministic:
/// two requests equal in every observed part draw equal responses. Together
/// with `dispatch`'s own contract this says that dispatching the same
/// request twice produces identical responses.
pub proof fn lemma_dispatch_idempotent<H: Handler>(routes: Seq<RouteV<H>>, q1: ReqV, q2: ReqV)
    requires
        q1 == q2,
    ensures
        spec_dispatch(routes, q1) == spec_dispatch(routes, q2),
{
}

/// A pattern with no capture segment.
pub open spec fn all_literal(pat: Seq<Seq<u8>>) -> bool {
    forall|i: int| 0 <= i < pat.len() ==> !is_capture(#[trigger] pat[i])
}

/// A literal-only pattern matches exactly the paths whose parts equal it,
/// and binds nothing.
pub proof fn lemma_literal_match(pat: Seq<Seq<u8>>, parts: Seq<Seq<u8>>)
    requires
        all_literal(pat),
    ensures
        spec_match_parts(pat, parts) is Some <==> pat == parts,
        pat == parts ==> spec_match_parts(pat, parts) == Some(Seq::<(Seq<u8>, Seq<u8>)>::empty()),
    decreases pat.len(),
{
    if pat.len() == 0 {
        if parts.len() == 0 {
            assert(pat =~~= parts);
        } else {
            assert(pat.len() != parts.len());
        }
    } else if parts.len() == 0 {
        assert(pat != parts) by {
            assert(pat.len() != parts.len());
        }
    } else {
        assert(!is_capture(pat[0]));
        lemma_literal_match(pat.skip(1), parts.skip(1));
        if pat[0] == parts[0] {
            if pat.skip(1) == parts.skip(1) {
                assert(pat =~~= parts) by {
                    assert(pat.len() == parts.len());
                    assert forall|i: int| 0 <= i < pat.len() implies pat[i] == parts[i] by {
                        if i > 0 {
                            assert(pat[i] == pat.skip(1)[i - 1]);
                            assert(parts[i] == parts.skip(1)[i - 1]);
                        }
                    }
                }
            } else {
                if pat == parts {
                    assert(pat.skip(1) =~~= parts.skip(1));
                }
            }
        } else {
            if pat == parts {
                assert(pat[0] == parts[0]);
            }
        }
    }
}

/// When exactly one route matches, dispatch selects it, whatever the order
/// of registration.
pub proof fn lemma_best_unique<H>(
    routes: Seq<RouteV<H>>,
    method: Method,
    parts: Seq<Seq<u8>>,
    j: int,
    i: int,
    cur: Option<int>,
)
    requires
        0 <= j < routes.len(),
        forall|k: int|
            0 <= k < routes.len() ==> (route_matches(#[trigger] routes[k], method, parts) <==> k
                == j),
        0 <= i <= routes.len(),
        match cur {
            None => i <= j,
            Some(c) => c == j && j < i,
        },
    ensures
        spec_best_from(routes, method, parts, i, cur) == Some(j),
    decreases routes.len() - i,
{
    if i < routes.len() {
        if i == j {
            lemma_best_unique(routes, method, parts, j, i + 1, Some(j));
        } else {
            lemma_best_unique(routes, method, parts, j, i + 1, cur);
        }
    }
}

/// When no route matches, dispatch reports the miss.
pub proof fn lemma_best_none<H>(
    routes: Seq<RouteV<H>>,
    method: Method,
    parts: Seq<Seq<u8>>,
    i: int,
)
    requires
        forall|k: int| 0 <= k < routes.len() ==> !route_matches(#[trigger] routes[k], method, parts),
        0 <= i <= routes.len(),
    ensures
        spec_best_from(routes, method, parts, i, None::<int>) is None,
    decreases routes.len() - i,
{
    if i < routes.len() {
        lemma_best_none(routes, method, parts, i + 1);
    }
}

/// Over a table of literal-only patterns, a request whose method and path
/// parts equal exactly one route's dispatches to that route's handler, the
/// handler's failure reported as its error response.
pub proof fn lemma_literal_dispatch<H: Handler>(routes: Seq<RouteV<H>>, req: ReqV, j: int)
    requires
        forall|k: int| 0 <= k < routes.len() ==> all_literal((#[trigger] routes[k]).pattern),
        0 <= j < routes.len(),
        routes[j].method == req.method,
        routes[j].pattern == spec_split(req.path, 47),
        forall|k: int|
            0 <= k < routes.len() && k != j ==> !((#[trigger] routes[k]).method == req.method
                && routes[k].pattern == spec_split(req.path, 47)),
    ensures
        spec_dispatch(routes, req) == match routes[j].handler.spec_call(
            req,
            Seq::<(Seq<u8>, Seq<u8>)>::empty(),
        ) {
            Ok(resp) => resp,
            Err(e) => spec_error_response(e),
        },
{
    let parts = spec_split(req.path, 47);
    assert forall|k: int| 0 <= k < routes.len() implies (route_matches(
        #[trigger] routes[k],
        req.method,
        parts,
    ) <==> k == j) by {
        lemma_literal_match(routes[k].pattern, parts);
    }
    lemma_best_unique(routes, req.method, parts, j, 0, None::<int>);
    lemma_literal_match(routes[j].pattern, parts);
}

/// Over a table of literal-only patterns, a request whose method and path
/// parts equal no route's yields the not-found response, whatever its
/// segment count.
pub proof fn lemma_literal_dispatch_miss<H: Handler>(routes: Seq<RouteV<H>>, req: ReqV)
    requires
        forall|k: int| 0 <= k < routes.len() ==> all_literal((#[trigger] routes[k]).pattern),
        forall|k: int|
            0 <= k < routes.len() ==> !((#[trigger] routes[k]).method == req.method
                && routes[k].pattern == spec_split(req.path, 47)),
    ensures
        spec_dispatch(routes, req) == spec_not_found_response(),
{
    let parts = spec_split(req.path, 47);
    assert forall|k: int| 0 <= k < routes.len() implies !route_matches(
        #[trigger] routes[k],
        req.method,
        parts,
    ) by {
        lemma_literal_match(routes[k].pattern, parts);
    }
    lemma_best_none(routes, req.method, parts, 0);
}

} // verus!
