//! The request methods that the server knows, and the decisions of a
//! connection.

use crate::headers::has_token;
use crate::request::{
    lemma_request_failure, read_request, Request, RequestError, RequestRead, RequestReader,
    RequestView,
};
use crate::response_writer::{wire_form, Response, ResponseWriter};
use crate::status_code_registry::ReasonPhrase;
use crate::text::{eq_ignore_case, lower, str_eq, strs_contain, to_lowercase};
use vstd::prelude::*;
use vstd::std_specs::convert::TryFromSpecImpl;

verus! {

/// The request methods that the server knows.
#[derive(Copy, Clone, Eq, PartialEq, Debug, Structural)]
pub enum HttpMethod {
    Get,
    Post,
}

impl HttpMethod {
    /// The method's name: a capital letter and small letters after it.
    pub open spec fn name(self) -> Seq<char> {
        match self {
            HttpMethod::Get => "Get"@,
            HttpMethod::Post => "Post"@,
        }
    }

    /// The method with the given place in the order of methods.
    pub open spec fn at(index: usize) -> Result<HttpMethod, ()> {
        if index == 0 {
            Ok(HttpMethod::Get)
        } else if index == 1 {
            Ok(HttpMethod::Post)
        } else {
            Err(())
        }
    }

    /// The method that a token names, whatever the case of its letters.
    /// A method's name is made of ASCII letters, so folding by ASCII loses
    /// nothing here.
    pub open spec fn named(token: Seq<char>) -> Result<HttpMethod, ()> {
        if lower(token) == "get"@ {
            Ok(HttpMethod::Get)
        } else if lower(token) == "post"@ {
            Ok(HttpMethod::Post)
        } else {
            Err(())
        }
    }

    pub fn to_string(&self) -> (s: String)
        ensures
            s@ == self.name(),
    {
        match self {
            HttpMethod::Get => "Get".to_owned(),
            HttpMethod::Post => "Post".to_owned(),
        }
    }
}

impl TryFrom<usize> for HttpMethod {
    type Error = ();

    fn try_from(value: usize) -> (r: Result<Self, ()>) {
        match value {
            0 => Ok(HttpMethod::Get),
            1 => Ok(HttpMethod::Post),
            _ => Err(()),
        }
    }
}

impl TryFromSpecImpl<usize> for HttpMethod {
    open spec fn obeys_try_from_spec() -> bool {
        true
    }

    open spec fn try_from_spec(value: usize) -> Result<Self, ()> {
        HttpMethod::at(value)
    }
}

impl<'a> TryFrom<&'a str> for HttpMethod {
    type Error = ();

    fn try_from(value: &'a str) -> (r: Result<Self, ()>) {
        let token = to_lowercase(value);
        if str_eq(token.as_str(), "get") {
            Ok(HttpMethod::Get)
        } else if str_eq(token.as_str(), "post") {
            Ok(HttpMethod::Post)
        } else {
            Err(())
        }
    }
}

impl<'a> TryFromSpecImpl<&'a str> for HttpMethod {
    open spec fn obeys_try_from_spec() -> bool {
        true
    }

    open spec fn try_from_spec(value: &'a str) -> Result<Self, ()> {
        HttpMethod::named(value@)
    }
}

/// Tokens that differ only in the case of ASCII letters name the same
/// method, or both name none.
pub proof fn lemma_method_ignores_case(a: Seq<char>, b: Seq<char>)
    requires
        eq_ignore_case(a, b),
    ensures
        HttpMethod::named(a) == HttpMethod::named(b),
{
}

/// The name of a method, in capitals as on the wire or in any other case,
/// names that method.
pub proof fn lemma_method_named(method: HttpMethod, token: Seq<char>)
    requires
        eq_ignore_case(token, method.name()),
    ensures
        HttpMethod::named(token) == Ok::<HttpMethod, ()>(method),
{
    reveal_strlit("Get");
    reveal_strlit("Post");
    reveal_strlit("get");
    reveal_strlit("post");
    assert(lower("Get"@) =~= "get"@);
    assert(lower("Post"@) =~= "post"@);
    assert("get"@ != "post"@) by {
        assert("get"@[0] != "post"@[0]);
    }
}

/// What handles a request: it reads the request and fills in the response.
pub trait Handler {
    /// What one call of `handle` may make of a response and a request:
    /// `w` and `r` are their states before the call, `w_after` and
    /// `r_after` those after it. A handler that does not say more may make
    /// anything of them.
    open spec fn handled(
        &self,
        w: Response,
        r: RequestView,
        w_after: Response,
        r_after: RequestView,
    ) -> bool {
        true
    }

    fn handle(&self, w: &mut ResponseWriter, r: &mut Request)
        ensures
            self.handled(old(w)@, old(r)@, final(w)@, final(r)@),
    ;
}

/// The handler that leaves the response and the request as they are.
pub struct NoopHandler;

impl Handler for NoopHandler {
    open spec fn handled(
        &self,
        w: Response,
        r: RequestView,
        w_after: Response,
        r_after: RequestView,
    ) -> bool {
        w_after == w && r_after == r
    }

    fn handle(&self, w: &mut ResponseWriter, r: &mut Request) {
    }
}

/// A function or a closure as a handler: handling a request is one call of
/// the function.
pub struct FnHandler<F: Fn(&mut ResponseWriter, &mut Request)> {
    f: F,
}

impl<F: Fn(&mut ResponseWriter, &mut Request)> FnHandler<F> {
    /// The function can be called on every response and request.
    #[verifier::type_invariant]
    spec fn callable(self) -> bool {
        forall|w: &mut ResponseWriter, r: &mut Request| call_requires(self.f, (w, r))
    }

    /// The handler that calls `f`. The function must accept every response
    /// and every request.
    pub fn new(f: F) -> (h: Self)
        requires
            forall|w: &mut ResponseWriter, r: &mut Request| call_requires(f, (w, r)),
        ensures
            h.function() == f,
    {
        FnHandler { f }
    }

    /// The function that the handler calls.
    pub closed spec fn function(self) -> F {
        self.f
    }
}

impl<F: Fn(&mut ResponseWriter, &mut Request)> Handler for FnHandler<F> {
    /// Calls the function on `w` and `r`: they are left as one call of the
    /// function leaves them.
    fn handle(&self, w: &mut ResponseWriter, r: &mut Request)
        ensures
            exists|a: &mut ResponseWriter, b: &mut Request|
                {
                    &&& #[trigger] call_ensures(self.function(), (a, b), ())
                    &&& *a == *old(w)
                    &&& *b == *old(r)
                    &&& *final(a) == *final(w)
                    &&& *final(b) == *final(r)
                },
    {
        proof {
            use_type_invariant(self);
        }
        let a = &mut *w;
        let b = &mut *r;
        let ghost before_w = a;
        let ghost before_r = b;
        (self.f)(a, b);
        proof {
            assert(exists|x: &mut ResponseWriter, y: &mut Request|
                {
                    &&& #[trigger] call_ensures(self.f, (x, y), ())
                    &&& *x == *before_w
                    &&& *y == *before_r
                    &&& *final(x) == *final(before_w)
                    &&& *final(y) == *final(before_r)
                });
            assert(*final(before_w) == *w);
            assert(*final(before_r) == *r);
            assert(self.function() == self.f);
            assert(exists|x: &mut ResponseWriter, y: &mut Request|
                {
                    &&& #[trigger] call_ensures(self.function(), (x, y), ())
                    &&& *x == *old(w)
                    &&& *y == *old(r)
                    &&& *final(x) == *w
                    &&& *final(y) == *r
                });
        }
    }
}

/// The handler that does nothing.
pub fn noop_handler() -> (h: NoopHandler)
    ensures
        h == NoopHandler,
{
    NoopHandler
}

/// A reference to a handler handles as the handler does.
impl<'a, T: Handler + ?Sized> Handler for &'a T {
    open spec fn handled(
        &self,
        w: Response,
        r: RequestView,
        w_after: Response,
        r_after: RequestView,
    ) -> bool {
        (**self).handled(w, r, w_after, r_after)
    }

    fn handle(&self, w: &mut ResponseWriter, r: &mut Request) {
        (**self).handle(w, r)
    }
}

/// What becomes of a connection after a response.
#[derive(Debug, Clone, Copy, PartialEq, Eq, Structural)]
pub enum ConnCtrl {
    /// The connection stays open for the next request.
    KeepAlive,
    /// The connection is closed.
    Close,
}

/// What a request asks to become of its connection: it is closed where one
/// of the values of the field `connection` is `close`, in just these
/// letters, and kept open otherwise.
pub open spec fn connection_control(r: RequestView) -> ConnCtrl {
    if has_token(r.headers, "connection"@, "close"@) {
        ConnCtrl::Close
    } else {
        ConnCtrl::KeepAlive
    }
}

/// What a request asks to become of its connection.
pub fn conn_ctrl(r: &Request) -> (c: ConnCtrl)
    ensures
        c == connection_control(r@),
{
    match r.get_headers().get_connection() {
        Some(values) => {
            if strs_contain(&values, "close") {
                ConnCtrl::Close
            } else {
                ConnCtrl::KeepAlive
            }
        },
        None => ConnCtrl::KeepAlive,
    }
}

/// The bytes of the response `400 Bad Request`, which answers what is no
/// request.
pub open spec fn bad_request() -> Seq<u8> {
    wire_form(
        Response {
            status_code: Some(ReasonPhrase::BadRequest.code()),
            reason_phrase: Some(ReasonPhrase::BadRequest.text()),
            headers: Seq::empty(),
            body: Seq::empty(),
        },
    )
}

/// What the owner of a connection has to do next.
#[derive(Debug)]
pub enum Step {
    /// Wait for more bytes from the peer, hand them to the reader, or tell
    /// it that the peer has finished, and ask again.
    NeedInput,
    /// Send these bytes; then close the connection or ask again, as the
    /// second field says.
    Respond(Vec<u8>, ConnCtrl),
    /// Close the connection without a response: the peer has finished.
    Close,
    /// The handler has set no status, so there is no response to send.
    Unfinished,
}

/// Whether `step` is what follows once the handler has left the response
/// `w` to the request `r`: the response on the wire and what the request
/// asked to become of the connection, or `Unfinished` where the handler
/// has set no status.
pub open spec fn answers(step: Step, w: Response, r: RequestView) -> bool {
    match w.status_code {
        Some(_) => step matches Step::Respond(bytes, ctrl) && bytes@ == wire_form(w) && ctrl
            == connection_control(r),
        None => step is Unfinished,
    }
}

/// Takes one step on a connection: reads a request from what `reader` has
/// received, lets `handler` answer it, and says what is to be done.
///
/// Where the bytes received do not yet hold a whole request, more input is
/// needed and nothing was consumed. Where the peer has finished at the
/// start of a line, the connection is closed without a response. Any other
/// failure to read a request is answered with `400 Bad Request`, and the
/// connection is closed. A request is handed to the handler with an empty
/// response, and the response is sent.
pub fn handle_request<H: Handler>(reader: &mut RequestReader, handler: &H) -> (step: Step)
    ensures
        match read_request(old(reader)@) {
            RequestRead::Incomplete => step is NeedInput && final(reader)@ == old(reader)@,
            RequestRead::Failed(e, stopped) => final(reader)@ == stopped && if e is EndOfFile {
                step is Close
            } else {
                step matches Step::Respond(bytes, ctrl) && bytes@ == bad_request() && ctrl
                    == ConnCtrl::Close
            },
            RequestRead::Done(request, rest) => final(reader)@ == rest && exists|
                w: Response,
                r: RequestView,
            |
                #[trigger] handler.handled(
                    Response {
                        status_code: None,
                        reason_phrase: None,
                        headers: Seq::empty(),
                        body: Seq::empty(),
                    },
                    request,
                    w,
                    r,
                ) && answers(step, w, request),
        },
{
    proof {
        lemma_request_failure(reader@);
    }
    let mut r = match reader.read() {
        Ok(r) => r,
        Err(RequestError::Incomplete) => {
            return Step::NeedInput;
        },
        Err(RequestError::EndOfFile(_)) => {
            return Step::Close;
        },
        Err(_) => {
            let mut w = ResponseWriter::new_empty();
            w.set_reason_phrase(ReasonPhrase::BadRequest);
            return Step::Respond(w.write(), ConnCtrl::Close);
        },
    };
    let ghost request = r@;
    let ctrl = conn_ctrl(&r);
    let mut w = ResponseWriter::new_empty();
    handler.handle(&mut w, &mut r);
    let step = if w.get_status_code().is_some() {
        Step::Respond(w.write(), ctrl)
    } else {
        Step::Unfinished
    };
    proof {
        assert(handler.handled(
            Response {
                status_code: None,
                reason_phrase: None,
                headers: Seq::empty(),
                body: Seq::empty(),
            },
            request,
            w@,
            r@,
        ));
    }
    step
}

} // verus!
