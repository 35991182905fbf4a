//! The router itself: an ordered route table and the dispatch of one raw
//! request to the first matching route's handler.

use vstd::prelude::*;

use crate::request::{
    parse_request_from_http_request_body, spec_parse_request_line, HttpMethod, Request,
};
use crate::response::{
    response_into_http_response_string, spec_serialize, spec_serialize_parts, HttpHeaderName,
    HttpStatusCode, Response,
};
use crate::route::{request_matches_route, set_request_params_according_to_match,
    spec_matches_route};

verus! {

/// What a route runs on a match. Handlers are supplied by the application;
/// each handler is a pure function of the request it is given, named by
/// [`Handler::response_of`]. Implementations outside this library are not
/// verified against this contract: what is proved through it holds of an
/// impl only as far as its `invoke` really returns its `response_of`.
pub trait Handler {
    /// The response this handler gives for a request.
    spec fn response_of(&self, request: Request) -> Response;

    /// Produces the response for a matched request.
    fn invoke(&self, request: &Request) -> (r: Response)
        ensures
            r == self.response_of(*request),
    ;
}

/// An ordered table of routes — `(method, path template, handler)` — and
/// the dispatcher over it. Registration order is part of the contract: on
/// each request the table is scanned linearly and the first route whose
/// method and template both match wins.
pub struct Server<H: Handler> {
    /// The registered routes, in registration order.
    pub routes: Vec<(HttpMethod, String, H)>,
}

impl<H: Handler> Server<H> {
    /// Whether the route at `i` matches the given method and path.
    pub open spec fn spec_route_matches(&self, i: int, method: HttpMethod, path: Seq<char>) -> bool {
        &&& self.routes@[i].0 == method
        &&& spec_matches_route(path, self.routes@[i].1@)
    }

    /// A new server with no routes.
    pub fn new() -> (s: Self)
        ensures
            s.routes@ == Seq::<(HttpMethod, String, H)>::empty(),
    {
        Server { routes: Vec::new() }
    }

    /// Appends a route. Registration order is semantically significant:
    /// earlier routes win ties.
    pub fn add_route(&mut self, method: HttpMethod, path: &str, handler: H)
        ensures
            final(self).routes@.len() == old(self).routes@.len() + 1,
            final(self).routes@.subrange(0, old(self).routes@.len() as int) == old(self).routes@,
            final(self).routes@.last().0 == method,
            final(self).routes@.last().1@ == path@,
            final(self).routes@.last().2 == handler,
    {
        self.routes.push((method, path.to_owned(), handler));
        proof {
            assert(self.routes@.subrange(0, old(self).routes@.len() as int) =~= old(
                self,
            ).routes@);
        }
    }

    /// The index of the first route whose method equals the request's and
    /// whose template matches the request's path, if any.
    pub fn find_route(&self, request: &Request) -> (r: Option<usize>)
        ensures
            match r {
                Some(i) => i < self.routes@.len() && self.spec_route_matches(
                    i as int,
                    request.method,
                    request.path@,
                ) && forall|j: int|
                    0 <= j < i ==> !self.spec_route_matches(j, request.method, request.path@),
                None => forall|j: int|
                    0 <= j < self.routes@.len() ==> !self.spec_route_matches(
                        j,
                        request.method,
                        request.path@,
                    ),
            },
    {
        let mut i: usize = 0;
        while i < self.routes.len()
            invariant
                i <= self.routes@.len(),
                forall|j: int|
                    0 <= j < i ==> !self.spec_route_matches(j, request.method, request.path@),
            decreases self.routes@.len() - i,
        {
            if self.routes[i].0 == request.method() && request_matches_route(
                request,
                self.routes[i].1.as_str(),
            ) {
                return Some(i);
            }
            i = i + 1;
        }
        None
    }

    /// Whether some registered route matches the request line that `content`
    /// parses to.
    pub open spec fn spec_dispatch_hit(&self, content: Seq<char>) -> bool {
        match spec_parse_request_line(content) {
            Some(mp) => exists|j: int|
                0 <= j < self.routes@.len() && self.spec_route_matches(j, mp.0, mp.1),
            None => false,
        }
    }

    /// How a matched dispatch of `content` produced `out`: `req` is the
    /// request `content` parses to — raw text kept verbatim, queries decoded
    /// from its path, parameters bound per the template of route `i` — `i`
    /// is the first route in registration order whose method and template
    /// both match, and `out` renders the response of that route's handler
    /// for `req`.
    pub open spec fn spec_dispatched(
        &self,
        content: Seq<char>,
        req: Request,
        i: int,
        out: Seq<char>,
    ) -> bool {
        &&& 0 <= i < self.routes@.len()
        &&& spec_parse_request_line(content) == Some((req.method, req.path@))
        &&& req.raw_content@ == content
        &&& req.queries_map() == crate::request::spec_queries(req.path@)
        &&& self.spec_route_matches(i, req.method, req.path@)
        &&& (forall|j: int| 0 <= j < i ==> !self.spec_route_matches(j, req.method, req.path@))
        &&& req.params_map() == crate::route::spec_bind_params(req.path@, self.routes@[i].1@)
        &&& out == spec_serialize(self.routes@[i].2.response_of(req))
    }

    /// Handles one raw request: parse, match, bind, invoke, render.
    ///
    /// A request that does not parse is answered with the exact `BadRequest`
    /// rendering; a request no route matches is answered with an empty
    /// `NotFound` response — a deliberate choice, so that every request gets
    /// a well-formed answer. On a match, the first matching route in
    /// registration order wins, its handler runs on the request with the
    /// template's path parameters bound, and the wire string renders that
    /// handler's response (see [`Self::spec_dispatched`]).
    pub fn handle(&self, content: String) -> (r: String)
        ensures
            spec_parse_request_line(content@) is None ==> r@ == spec_serialize_parts(
                HttpStatusCode::BadRequest,
                seq![(HttpHeaderName::ContentType, "text/html"@)],
                "RequestParseError"@,
            ),
            spec_parse_request_line(content@) is Some && !self.spec_dispatch_hit(content@)
                ==> r@ == spec_serialize_parts(
                HttpStatusCode::NotFound,
                Seq::empty(),
                Seq::empty(),
            ),
            self.spec_dispatch_hit(content@) ==> exists|req: Request, i: int|
                self.spec_dispatched(content@, req, i, r@),
    {
        let parsed = parse_request_from_http_request_body(content);
        match parsed {
            Err(e) => {
                let resp = e.to_response();
                response_into_http_response_string(resp)
            },
            Ok(mut request) => {
                proof {
                    assert(spec_parse_request_line(content@) == Some(
                        (request.method, request.path@),
                    ));
                }
                match self.find_route(&request) {
                    None => {
                        proof {
                            assert(!self.spec_dispatch_hit(content@));
                        }
                        let mut resp = Response::default();
                        resp.set_status_code(HttpStatusCode::NotFound);
                        proof {
                            assert(resp.headers_view() =~= Seq::<
                                (HttpHeaderName, Seq<char>),
                            >::empty());
                        }
                        response_into_http_response_string(resp)
                    },
                    Some(i) => {
                        proof {
                            let mp = spec_parse_request_line(content@)->Some_0;
                            assert(mp == (request.method, request.path@));
                            assert((i as int) < self.routes@.len() && self.spec_route_matches(
                                i as int,
                                mp.0,
                                mp.1,
                            ));
                            assert(self.spec_dispatch_hit(content@));
                        }
                        set_request_params_according_to_match(
                            &mut request,
                            self.routes[i].1.as_str(),
                        );
                        let resp = self.routes[i].2.invoke(&request);
                        let out = response_into_http_response_string(resp);
                        proof {
                            assert(self.spec_dispatched(content@, request, i as int, out@));
                        }
                        out
                    },
                }
            },
        }
    }
}

} // verus!
