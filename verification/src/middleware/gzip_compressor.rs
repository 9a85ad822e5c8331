//! A handler that compresses what another handler has answered, where the
//! request accepts gzip.

use crate::headers::has_token;
use crate::request::{Request, RequestView};
use crate::response_writer::{field_value, upsert, Response, ResponseWriter};
use crate::server::Handler;
use crate::text::{decimal, strs_contain};
use flate2::bufread::GzEncoder;
use flate2::Compression;
use std::io::Read;
use vstd::prelude::*;

verus! {

/// The gzip encoding of `body`, at the fastest level of compression and
/// with an empty gzip header; `None` where the encoder fails.
pub uninterp spec fn gzip_encoding(body: Seq<u8>) -> Option<Seq<u8>>;

/// `flate2::bufread::GzEncoder::new` at `Compression::fast()`, read to its
/// end with `read_to_end`: the whole gzip stream for `body`, or nothing
/// where the encoder reports an error. The stream depends on `body` alone:
/// the encoder writes no time and no file name into its header.
#[verifier::external_body]
fn gzip_encode(body: &[u8]) -> (r: Option<Vec<u8>>)
    ensures
        match r {
            Some(encoded) => gzip_encoding(body@) == Some(encoded@),
            None => gzip_encoding(body@) is None,
        },
{
    let mut gz = GzEncoder::new(body, Compression::fast());
    let mut buffer = vec![];
    match gz.read_to_end(&mut buffer) {
        Ok(_) => Some(buffer),
        Err(_) => None,
    }
}

/// Whether the request accepts gzip: one of the values of its field
/// `accept-encoding` is `gzip`, in just these letters.
pub open spec fn accepts_gzip(r: RequestView) -> bool {
    has_token(r.headers, "accept-encoding"@, "gzip"@)
}

/// The response `w` with `encoded` as its body and the mark that the body
/// is in gzip; `w` itself where there is no encoding.
pub open spec fn encoded_as(w: Response, content_type: Seq<char>, encoded: Option<Seq<u8>>) -> Response {
    match encoded {
        Some(body) => Response {
            headers: upsert(
                upsert(
                    upsert(w.headers, "Content-Type"@, content_type),
                    "Content-Length"@,
                    decimal(body.len()),
                ),
                "Content-Encoding"@,
                "gzip"@,
            ),
            body,
            ..w
        },
        None => w,
    }
}

/// What compression makes of the response `w` to the request `r`. A
/// response with an empty body or without a content type is left as it is,
/// and so is every response to a request that does not accept gzip.
pub open spec fn compressed(w: Response, r: RequestView) -> Response {
    if w.body.len() == 0 {
        w
    } else {
        match field_value(w.headers, "content-type"@) {
            None => w,
            Some(content_type) => if accepts_gzip(r) {
                encoded_as(w, content_type, gzip_encoding(w.body))
            } else {
                w
            },
        }
    }
}

/// Puts the encoded body in place of the body of `w`, keeps the content
/// type, and marks the body as gzip. Without an encoding `w` is left as it
/// is.
pub fn apply_encoding(w: &mut ResponseWriter, content_type: &str, encoded: Option<Vec<u8>>)
    ensures
        final(w)@ == encoded_as(
            old(w)@,
            content_type@,
            match encoded {
                Some(body) => Some(body@),
                None => None,
            },
        ),
{
    match encoded {
        Some(buffer) => {
            w.set_body(buffer, content_type);
            w.add_content_encoding_header("gzip");
        },
        None => {},
    }
}

/// Compresses the body of `w` where the request `r` accepts gzip.
pub fn compress(w: &mut ResponseWriter, r: &Request)
    ensures
        final(w)@ == compressed(old(w)@, r@),
{
    if w.get_body().len() == 0 {
        return;
    }
    let content_type = match w.get_content_type_header() {
        Some(content_type) => content_type.to_owned(),
        None => {
            return;
        },
    };
    let accepted = match r.get_headers().get_accept_encoding() {
        Some(encodings) => strs_contain(&encodings, "gzip"),
        None => false,
    };
    if accepted {
        let encoded = gzip_encode(w.get_body());
        apply_encoding(w, content_type.as_str(), encoded);
    }
}

/// A handler that lets another handler answer and then compresses the
/// answer.
pub struct GzipCompressor<H> {
    handler: H,
}

impl<H> GzipCompressor<H> {
    /// The handler that this one wraps.
    pub closed spec fn inner(self) -> H {
        self.handler
    }
}

impl<H: Handler> Handler for GzipCompressor<H> {
    open spec fn handled(
        &self,
        w: Response,
        r: RequestView,
        w_after: Response,
        r_after: RequestView,
    ) -> bool {
        exists|answered: Response|
            #[trigger] self.inner().handled(w, r, answered, r_after) && w_after == compressed(
                answered,
                r_after,
            )
    }

    fn handle(&self, w: &mut ResponseWriter, r: &mut Request) {
        self.handler.handle(w, r);
        let ghost answered = w@;
        compress(w, r);
        proof {
            assert(self.inner().handled(old(w)@, old(r)@, answered, r@));
        }
    }
}

/// Wraps `handler` so that its answers are compressed.
pub fn new<H: Handler>(handler: H) -> (g: GzipCompressor<H>)
    ensures
        g.inner() == handler,
{
    GzipCompressor { handler }
}

} // verus!
