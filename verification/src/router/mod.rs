//! The router: one chain of route tables for each method.

use crate::request::{Request, RequestView};
use crate::response_writer::{allow_value, upsert, Response, ResponseWriter};
use crate::server::{Handler, HttpMethod};
use crate::status_code_registry::ReasonPhrase;
use matcher::chain::{is_pattern, Routes};
use matcher::Chain;
use vstd::prelude::*;

pub mod matcher;

verus! {

/// The mathematical form of a router: the routes of each method.
pub struct Routing<H> {
    pub get: Routes<H>,
    pub post: Routes<H>,
}

impl<H> Routing<H> {
    /// The routes of `method`.
    pub open spec fn chain(self, method: HttpMethod) -> Routes<H> {
        match method {
            HttpMethod::Get => self.get,
            HttpMethod::Post => self.post,
        }
    }

    /// The routing after `handler` was registered for `pattern` under
    /// `method`.
    pub open spec fn with_route(self, method: HttpMethod, pattern: Seq<char>, handler: H) -> Routing<
        H,
    > {
        match method {
            HttpMethod::Get => Routing { get: self.get.with_route(pattern, handler), ..self },
            HttpMethod::Post => Routing { post: self.post.with_route(pattern, handler), ..self },
        }
    }

    /// The methods other than `except` that have a route for `target`, in
    /// the order of methods.
    pub open spec fn allowed(self, target: Seq<char>, except: HttpMethod) -> Seq<HttpMethod> {
        (if except != HttpMethod::Get && self.get.find(target) is Some {
            seq![HttpMethod::Get]
        } else {
            Seq::empty()
        }) + (if except != HttpMethod::Post && self.post.find(target) is Some {
            seq![HttpMethod::Post]
        } else {
            Seq::empty()
        })
    }
}

/// The response `w` with the status that `phrase` belongs to.
pub open spec fn with_status(w: Response, phrase: ReasonPhrase) -> Response {
    Response { status_code: Some(phrase.code()), reason_phrase: Some(phrase.text()), ..w }
}

/// The request `r` with the parameter that a match took from the target,
/// where it took one.
pub open spec fn with_param(r: RequestView, param: Option<Seq<char>>) -> RequestView {
    match param {
        Some(p) => RequestView { param: Some(p), ..r },
        None => r,
    }
}

/// What routing makes of a response and a request.
///
/// A request whose method is not known gets `400 Bad Request`. Where the
/// method has a route for the target, the request gets the parameter of
/// the match and the route's handler is called on it. Where it has none but
/// other methods have, the response is `405 Method Not Allowed` with their
/// names in the field `Allow`; where no method has one, it is
/// `404 Not Found`.
pub open spec fn routed<H: Handler>(
    routing: Routing<H>,
    w: Response,
    r: RequestView,
    w_after: Response,
    r_after: RequestView,
) -> bool {
    match HttpMethod::named(r.method()) {
        Err(_) => r_after == r && w_after == with_status(w, ReasonPhrase::BadRequest),
        Ok(method) => match routing.chain(method).find(r.target()) {
            Some(found) => found.handler.handled(w, with_param(r, found.param), w_after, r_after),
            None => {
                let allowed = routing.allowed(r.target(), method);
                &&& r_after == r
                &&& w_after == if allowed.len() > 0 {
                    Response {
                        headers: upsert(w.headers, "Allow"@, allow_value(allowed)),
                        ..with_status(w, ReasonPhrase::MethodNotAllowed)
                    }
                } else {
                    with_status(w, ReasonPhrase::NotFound)
                }
            },
        },
    }
}

pub struct Router<H> {
    get: Chain<H>,
    post: Chain<H>,
}

impl<H> View for Router<H> {
    type V = Routing<H>;

    closed spec fn view(&self) -> Routing<H> {
        Routing { get: self.get@, post: self.post@ }
    }
}

impl<H: Handler> Router<H> {
    /// A router without routes.
    pub fn new() -> (router: Self)
        ensures
            router@ == (Routing::<H> {
                get: Routes { exact: Map::empty(), dynamic: Map::empty(), subtree: Seq::empty() },
                post: Routes { exact: Map::empty(), dynamic: Map::empty(), subtree: Seq::empty() },
            }),
    {
        Self { get: Chain::new(), post: Chain::new() }
    }

    /// Registers `handler` for the requests with method `method` whose
    /// target matches `pattern`.
    pub fn add_route(&mut self, method: HttpMethod, pattern: &str, handler: H)
        requires
            is_pattern(pattern@),
        ensures
            final(self)@ == old(self)@.with_route(method, pattern@, handler),
    {
        match method {
            HttpMethod::Get => self.get.add_route(pattern, handler),
            HttpMethod::Post => self.post.add_route(pattern, handler),
        }
    }

    /// The chain of `method`.
    pub fn chain(&self, method: HttpMethod) -> (c: &Chain<H>)
        ensures
            c@ == self@.chain(method),
    {
        match method {
            HttpMethod::Get => &self.get,
            HttpMethod::Post => &self.post,
        }
    }

    /// The methods other than `except` that have a route for `target`.
    fn allowed(&self, target: &str, except: HttpMethod) -> (methods: Vec<HttpMethod>)
        ensures
            methods@ == self@.allowed(target@, except),
    {
        let mut methods: Vec<HttpMethod> = Vec::new();
        if except != HttpMethod::Get && self.get.pattern_match(target).is_some() {
            methods.push(HttpMethod::Get);
        }
        if except != HttpMethod::Post && self.post.pattern_match(target).is_some() {
            methods.push(HttpMethod::Post);
        }
        proof {
            assert(methods@ =~= self@.allowed(target@, except));
        }
        methods
    }

    /// Answers the request `r` in `w`: by the handler of the route that
    /// matches it, or with the status that says why there is none.
    pub fn handle(&self, w: &mut ResponseWriter, r: &mut Request)
        ensures
            routed(self@, old(w)@, old(r)@, final(w)@, final(r)@),
    {
        let method = match HttpMethod::try_from(r.get_http_method()) {
            Ok(method) => method,
            Err(_) => {
                w.set_reason_phrase(ReasonPhrase::BadRequest);
                return;
            },
        };
        let target = r.get_request_target().to_owned();
        match self.chain(method).pattern_match(target.as_str()) {
            Some((m, param)) => {
                match param {
                    Some(param) => {
                        r.set_param(param.to_owned());
                    },
                    None => {},
                }
                m.handler.handle(w, r);
            },
            None => {
                let allowed = self.allowed(target.as_str(), method);
                if allowed.len() > 0 {
                    w.set_reason_phrase(ReasonPhrase::MethodNotAllowed);
                    w.add_allow_header(allowed);
                } else {
                    w.set_reason_phrase(ReasonPhrase::NotFound);
                }
            },
        }
    }
}

impl<H: Handler> Handler for Router<H> {
    open spec fn handled(
        &self,
        w: Response,
        r: RequestView,
        w_after: Response,
        r_after: RequestView,
    ) -> bool {
        routed(self@, w, r, w_after, r_after)
    }

    fn handle(&self, w: &mut ResponseWriter, r: &mut Request) {
        Router::handle(self, w, r)
    }
}

} // verus!
