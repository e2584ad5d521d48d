//! Routing and per-connection dispatch: an ordered route table, path
//! parameter binding, a short-circuiting middleware chain, and the
//! handler call.
//!
//! Handlers and middleware are capability objects: a route stores
//! values whose types implement [`Handler`] and [`Middleware`], and
//! every invocation receives the request, the response under
//! construction, and a shared-state handle.

use vstd::prelude::*;
use vstd::string::StringExecFns;
use crate::http::parser::{spec_parse_request, HttpParser, RequestModel, WireError};
use crate::http::request::HttpRequest;
use crate::http::response::HttpResponse;
use crate::text::{scan_to, str_eq, substring_of, to_chars};

verus! {

/// A pre-handler step. Returning `false` stops the chain: the handler
/// is skipped and the response goes out as the middleware left it.
pub trait Middleware<T> {
    fn handle(&self, request: &HttpRequest, response: &mut HttpResponse, state: &T) -> bool;
}

/// The main answer to a matched request.
pub trait Handler<T> {
    fn handle(&self, request: &HttpRequest, response: &mut HttpResponse, state: &T);
}

/// One registration: a method (advisory, not a matching criterion), a
/// URI pattern with at most one `:`-parameter, middleware in order,
/// and the handler.
pub struct Route<M, H> {
    pub method: String,
    pub uri: String,
    pub middleware: Vec<M>,
    pub handler: H,
}

/// The URI with its query part cut off: everything before the first `'?'`.
pub open spec fn spec_strip_query(uri: Seq<char>) -> Seq<char> {
    uri.subrange(0, scan_to(uri, 0, Some('?')))
}

/// Whether a pattern matches a request URI. Without a `':'` the
/// pattern must equal the query-stripped URI; with one, the literal
/// prefix before the `':'` must be a prefix of the stripped URI and at
/// least one character must stand past it.
pub open spec fn spec_route_matches(pattern: Seq<char>, uri: Seq<char>) -> bool {
    let stripped = spec_strip_query(uri);
    let cp = scan_to(pattern, 0, Some(':'));
    if cp == pattern.len() {
        pattern == stripped
    } else {
        stripped.len() >= cp + 1 && stripped.subrange(0, cp) == pattern.subrange(0, cp)
    }
}

/// What parameter binding does to the parameter map: under a
/// parameterized pattern whose literal prefix starts the raw URI, the
/// name after the `':'` is bound to the whole remainder of the raw URI
/// from the `':'` position on; otherwise nothing changes.
pub open spec fn spec_bound_params(
    pattern: Seq<char>,
    uri: Seq<char>,
    params: Map<Seq<char>, Seq<char>>,
) -> Map<Seq<char>, Seq<char>> {
    let cp = scan_to(pattern, 0, Some(':'));
    if cp == pattern.len() {
        params
    } else if uri.len() >= cp && uri.subrange(0, cp) == pattern.subrange(0, cp) {
        params.insert(
            pattern.subrange(cp + 1, pattern.len() as int),
            uri.subrange(cp, uri.len() as int),
        )
    } else {
        params
    }
}

/// No pattern in the route list matches the URI.
pub open spec fn spec_no_route<M, H>(routes: Seq<Route<M, H>>, uri: Seq<char>) -> bool {
    forall|j: int| 0 <= j < routes.len() ==> !spec_route_matches(
        #[trigger] routes[j].uri@,
        uri,
    )
}

/// The position of the first `c` in `v`, or the length when absent.
fn find_char(v: &Vec<char>, c: char) -> (r: usize)
    ensures
        r == scan_to(v@, 0, Some(c)),
        0 <= r <= v@.len(),
{
    let n = v.len();
    let mut i: usize = 0;
    while i < n
        invariant
            i <= n,
            n == v@.len(),
            scan_to(v@, 0, Some(c)) == scan_to(v@, i as int, Some(c)),
        decreases n - i,
    {
        if v[i] == c {
            proof {
                assert(scan_to(v@, i as int, Some(c)) == i);
            }
            return i;
        }
        i = i + 1;
    }
    proof {
        assert(scan_to(v@, n as int, Some(c)) == n);
    }
    n
}

/// Whether `prefix_len` characters of `b` stand at the start of `a`.
fn chars_prefix_eq(a: &Vec<char>, b: &Vec<char>, prefix_len: usize) -> (r: bool)
    requires
        prefix_len <= a@.len(),
        prefix_len <= b@.len(),
    ensures
        r == (a@.subrange(0, prefix_len as int) == b@.subrange(0, prefix_len as int)),
{
    let mut i: usize = 0;
    while i < prefix_len
        invariant
            i <= prefix_len <= a@.len(),
            prefix_len <= b@.len(),
            forall|k: int| 0 <= k < i ==> a@[k] == b@[k],
        decreases prefix_len - i,
    {
        if a[i] != b[i] {
            proof {
                assert(a@.subrange(0, prefix_len as int)[i as int] != b@.subrange(
                    0,
                    prefix_len as int,
                )[i as int]);
            }
            return false;
        }
        i = i + 1;
    }
    proof {
        assert(a@.subrange(0, prefix_len as int) =~= b@.subrange(0, prefix_len as int));
    }
    true
}

impl<M, H> Route<M, H> {
    /// Decides `spec_route_matches` for this route's pattern.
    pub fn matches_uri(&self, uri: &String) -> (r: bool)
        ensures
            r == spec_route_matches(self.uri@, uri@),
    {
        let uri_chars = to_chars(uri.as_str());
        let q = find_char(&uri_chars, '?');
        let stripped = substring_of(&uri_chars, 0, q);
        let pattern_chars = to_chars(self.uri.as_str());
        let cp = find_char(&pattern_chars, ':');
        if cp == pattern_chars.len() {
            let r = str_eq(self.uri.as_str(), stripped.as_str());
            proof {
                assert(spec_strip_query(uri@) == stripped@);
            }
            r
        } else {
            let stripped_chars = to_chars(stripped.as_str());
            if stripped_chars.len() < cp + 1 {
                return false;
            }
            chars_prefix_eq(&stripped_chars, &pattern_chars, cp)
        }
    }

    /// Binds the path parameter as `spec_bound_params` says; every
    /// other part of the request is untouched.
    pub fn add_params(&self, request: &mut HttpRequest)
        ensures
            final(request).params@ == spec_bound_params(
                self.uri@,
                old(request).uri@,
                old(request).params@,
            ),
            final(request).method@ == old(request).method@,
            final(request).version@ == old(request).version@,
            final(request).headers@ == old(request).headers@,
            final(request).uri@ == old(request).uri@,
            final(request).body@ == old(request).body@,
            final(request).query@ == old(request).query@,
    {
        let pattern_chars = to_chars(self.uri.as_str());
        let cp = find_char(&pattern_chars, ':');
        if cp == pattern_chars.len() {
            return ;
        }
        let uri_chars = to_chars(request.uri.as_str());
        if uri_chars.len() < cp {
            return ;
        }
        if !chars_prefix_eq(&uri_chars, &pattern_chars, cp) {
            return ;
        }
        let param_key = substring_of(&pattern_chars, cp + 1, pattern_chars.len());
        let param_value = substring_of(&uri_chars, cp, uri_chars.len());
        request.params.insert(param_key, param_value);
    }
}

/// The server: an ordered, append-only route table and the shared
/// application state handle given to every handler call.
pub struct HttpServer<T, M, H> {
    routes: Vec<Route<M, H>>,
    state: T,
}

impl<T, M: Middleware<T>, H: Handler<T>> HttpServer<T, M, H> {
    /// The registered routes, in registration order.
    pub closed spec fn spec_routes(&self) -> Seq<Route<M, H>> {
        self.routes@
    }

    /// The shared state value.
    pub closed spec fn spec_state(&self) -> T {
        self.state
    }

    /// A server with no routes, owning `state`.
    pub fn new(state: T) -> (r: HttpServer<T, M, H>)
        ensures
            r.spec_routes().len() == 0,
            r.spec_state() == state,
    {
        HttpServer { routes: Vec::new(), state }
    }

    /// The shared state handle.
    pub fn state(&self) -> (r: &T)
        ensures
            *r == self.spec_state(),
    {
        &self.state
    }

    /// Appends a route; registration order is match order.
    pub fn add_route(&mut self, route: Route<M, H>)
        ensures
            final(self).spec_routes() == old(self).spec_routes().push(route),
            final(self).spec_state() == old(self).spec_state(),
    {
        self.routes.push(route);
    }

    /// Appends a GET route for `uri` with no middleware.
    pub fn get(&mut self, uri: &str, handler: H)
        ensures
            final(self).spec_routes().len() == old(self).spec_routes().len() + 1,
            final(self).spec_routes().drop_last() == old(self).spec_routes(),
            final(self).spec_routes().last().method@ == "GET"@,
            final(self).spec_routes().last().uri@ == uri@,
            final(self).spec_routes().last().middleware@.len() == 0,
            final(self).spec_routes().last().handler == handler,
            final(self).spec_state() == old(self).spec_state(),
    {
        let route = Route {
            uri: uri.to_owned(),
            method: String::from_str("GET"),
            middleware: Vec::new(),
            handler,
        };
        self.routes.push(route);
        proof {
            assert(self.routes@.drop_last() =~= old(self).routes@);
        }
    }

    /// The first route, in registration order, whose pattern matches —
    /// later overlapping routes are unreachable.
    pub fn find_route(&self, uri: &String) -> (r: Option<usize>)
        ensures
            match r {
                Some(i) => i < self.spec_routes().len() && spec_route_matches(
                    self.spec_routes()[i as int].uri@,
                    uri@,
                ) && forall|j: int| 0 <= j < i ==> !spec_route_matches(
                    #[trigger] self.spec_routes()[j].uri@,
                    uri@,
                ),
                None => spec_no_route(self.spec_routes(), uri@),
            },
    {
        let n = self.routes.len();
        let mut i: usize = 0;
        while i < n
            invariant
                i <= n,
                n == self.routes@.len(),
                forall|j: int| 0 <= j < i ==> !spec_route_matches(
                    #[trigger] self.routes@[j].uri@,
                    uri@,
                ),
            decreases n - i,
        {
            if self.routes[i].matches_uri(uri) {
                return Some(i);
            }
            i = i + 1;
        }
        None
    }

    /// Everything between reading and writing the socket: parse the
    /// raw request text, match a route, bind parameters, run the
    /// middleware chain until one returns `false`, then the handler.
    ///
    /// A request that does not parse is answered with status 400; one
    /// that matches no route with status 404 and the body `Not found`.
    pub fn handle_connection(&self, raw_request: &str) -> (r: HttpResponse)
        ensures
            spec_parse_request(raw_request@, 0) matches Err(_) ==> r.status_code == 400
                && r.body@ == "Bad request"@,
            (spec_parse_request(raw_request@, 0) matches Ok(m) && spec_no_route(
                self.spec_routes(),
                m.uri,
            )) ==> r.status_code == 404 && r.body@ == "Not found"@,
    {
        let mut parser = HttpParser::new(raw_request);
        let mut request = match parser.parse_request() {
            Ok(request) => request,
            Err(_e) => {
                let mut response = HttpResponse::new();
                response.set_status_code(400);
                response.set_body(String::from_str("Bad request"));
                return response;
            },
        };
        match self.find_route(&request.uri) {
            Some(i) => {
                let mut response = HttpResponse::new();
                self.routes[i].add_params(&mut request);
                let route = &self.routes[i];
                let mut should_handle = true;
                let n = route.middleware.len();
                let mut k: usize = 0;
                while k < n && should_handle
                    invariant
                        k <= n,
                        n == route.middleware@.len(),
                    decreases n - k,
                {
                    should_handle = route.middleware[k].handle(
                        &request,
                        &mut response,
                        &self.state,
                    );
                    k = k + 1;
                }
                if should_handle {
                    route.handler.handle(&request, &mut response, &self.state);
                }
                response
            },
            None => {
                let mut response = HttpResponse::new();
                response.set_status_code(404);
                response.set_body(String::from_str("Not found"));
                response
            },
        }
    }
}

} // verus!
