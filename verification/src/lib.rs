//! A small HTTP/1.1 origin server without its sockets: the parser that
//! reads requests under size limits, the router, the response on the wire,
//! and the decisions of a connection.

use crate::multi_map::ValueView;
use crate::request::Request;
use crate::response_writer::{upsert, Response, ResponseWriter};
use crate::router::with_status;
use crate::status_code_registry::ReasonPhrase;
use crate::text::decimal;
use vstd::prelude::*;
use vstd::utf8::encode_utf8;

pub mod file_server;
pub mod headers;
pub mod middleware;
pub mod multi_map;
pub mod request;
pub mod response_writer;
pub mod router;
pub mod server;
pub mod slice_ext;
pub mod status_code_registry;
pub mod stream_reader;
pub mod text;

verus! {

/// The response `w` with `text` as its body, as `text/plain`.
pub open spec fn with_text(w: Response, text: Seq<char>) -> Response {
    Response {
        headers: upsert(
            upsert(w.headers, "Content-Type"@, "text/plain"@),
            "Content-Length"@,
            decimal(encode_utf8(text).len()),
        ),
        body: encode_utf8(text),
        ..w
    }
}

/// Answers `200 OK` without a body.
pub fn home(w: &mut ResponseWriter, r: &mut Request)
    ensures
        final(w)@ == with_status(old(w)@, ReasonPhrase::OK),
        final(r)@ == old(r)@,
{
    w.set_reason_phrase(ReasonPhrase::OK);
}

/// Answers `200 OK` with the request's parameter as body. The request must
/// have one.
pub fn echo(w: &mut ResponseWriter, r: &mut Request)
    requires
        old(r)@.param is Some,
    ensures
        final(w)@ == with_status(with_text(old(w)@, old(r)@.param->0), ReasonPhrase::OK),
        final(r)@ == old(r)@,
{
    match r.get_param() {
        Some(param) => {
            w.set_body_str(param);
        },
        None => {},
    }
    w.set_reason_phrase(ReasonPhrase::OK);
}

/// Answers `200 OK` with the value of the field `user-agent` as body, an
/// empty body where the request has no such field, and `400 Bad Request`
/// where the field holds several values.
pub fn user_agent(w: &mut ResponseWriter, r: &mut Request)
    ensures
        final(r)@ == old(r)@,
        final(w)@ == if !old(r)@.headers.contains_key("user-agent"@) {
            with_status(with_text(old(w)@, Seq::empty()), ReasonPhrase::OK)
        } else {
            match old(r)@.headers["user-agent"@] {
                ValueView::Scalar(agent) => with_status(
                    with_text(old(w)@, agent),
                    ReasonPhrase::OK,
                ),
                ValueView::Vector(_) => with_status(old(w)@, ReasonPhrase::BadRequest),
            }
        },
{
    let agent = match r.get_headers().get_user_agent() {
        Ok(agent) => agent,
        Err(_) => {
            w.set_reason_phrase(ReasonPhrase::BadRequest);
            return;
        },
    };
    match agent {
        Some(agent) => {
            w.set_body_str(agent);
        },
        None => {
            proof {
                reveal_strlit("");
                assert(""@ =~= Seq::<char>::empty());
            }
            w.set_body_str("");
        },
    }
    w.set_reason_phrase(ReasonPhrase::OK);
}

} // verus!
