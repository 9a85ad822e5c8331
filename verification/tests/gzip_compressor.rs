use std::io::Read;

use flate2::read::GzDecoder;
use http_server::headers::Headers;
use http_server::middleware::gzip_compressor;
use http_server::request::Request;
use http_server::response_writer::ResponseWriter;
use http_server::server::Handler;
use http_server::status_code_registry::ReasonPhrase;

struct Hello;

impl Handler for Hello {
    fn handle(&self, w: &mut ResponseWriter, _: &mut Request) {
        w.set_body_str("hello");
        w.set_reason_phrase(ReasonPhrase::OK);
    }
}

struct Bare(Vec<u8>);

impl Handler for Bare {
    fn handle(&self, w: &mut ResponseWriter, _: &mut Request) {
        w.set_body(self.0.clone(), "text/plain");
        w.add_header("Content-Type".to_owned(), "image/x".to_owned());
        w.set_reason_phrase(ReasonPhrase::OK);
    }
}

fn request(raw_headers: &str) -> Request {
    Request::new(
        "GET /echo/hello HTTP/1.1".to_owned(),
        None,
        Headers::parse(raw_headers).unwrap(),
        None,
    )
}

fn unzip(bytes: &[u8]) -> Vec<u8> {
    let mut out = vec![];
    GzDecoder::new(bytes).read_to_end(&mut out).unwrap();
    out
}

#[test]
fn test_gzip_when_accepted() {
    let handler = gzip_compressor::new(Hello);
    let mut w = ResponseWriter::new_empty();
    handler.handle(&mut w, &mut request("Accept-Encoding: gzip\r\n"));
    assert_ne!(w.get_body(), b"hello");
    assert_eq!(&w.get_body()[..2], &[0x1f, 0x8b]);
    assert_eq!(unzip(w.get_body()), b"hello");
    assert_eq!(w.get_content_type_header(), Some("text/plain"));
    let length = w.get_body().len();
    let written = w.write();
    let head = format!(
        "HTTP/1.1 200 OK\r\nContent-Type: text/plain\r\nContent-Length: {}\r\nContent-Encoding: gzip\r\n\r\n",
        length
    );
    assert_eq!(&written[..head.len()], head.as_bytes());
    assert_eq!(unzip(&written[head.len()..]), b"hello");
}

#[test]
fn test_no_gzip_when_not_accepted() {
    let handler = gzip_compressor::new(Hello);
    for raw in ["", "Accept-Encoding: br\r\n", "Accept-Encoding: GZIP\r\n", "Accept: gzip\r\n"] {
        let mut w = ResponseWriter::new_empty();
        handler.handle(&mut w, &mut request(raw));
        assert_eq!(
            String::from_utf8(w.write()).unwrap(),
            "HTTP/1.1 200 OK\r\nContent-Type: text/plain\r\nContent-Length: 5\r\n\r\nhello"
        );
    }
}

#[test]
fn test_gzip_among_other_encodings() {
    let handler = gzip_compressor::new(Bare(vec![7; 5000]));
    let mut w = ResponseWriter::new_empty();
    handler.handle(&mut w, &mut request("Accept-Encoding: br, gzip , deflate\r\n"));
    assert!(w.get_body().len() < 5000);
    assert_eq!(unzip(w.get_body()), vec![7; 5000]);
    assert_eq!(w.get_content_type_header(), Some("image/x"));
}

#[test]
fn test_gzip_is_the_same_each_time() {
    let handler = gzip_compressor::new(Bare(b"the same bytes in, the same bytes out".to_vec()));
    let mut first = ResponseWriter::new_empty();
    handler.handle(&mut first, &mut request("Accept-Encoding: gzip\r\n"));
    let mut second = ResponseWriter::new_empty();
    handler.handle(&mut second, &mut request("Accept-Encoding: gzip\r\n"));
    assert_eq!(first.get_body(), second.get_body());
}

#[test]
fn test_empty_body_is_left_alone() {
    let handler = gzip_compressor::new(Bare(vec![]));
    let mut w = ResponseWriter::new_empty();
    handler.handle(&mut w, &mut request("Accept-Encoding: gzip\r\n"));
    assert_eq!(
        String::from_utf8(w.write()).unwrap(),
        "HTTP/1.1 200 OK\r\nContent-Type: image/x\r\nContent-Length: 0\r\n\r\n"
    );
}

#[test]
fn test_apply_encoding() {
    let mut w = ResponseWriter::new_empty();
    w.set_reason_phrase(ReasonPhrase::OK);
    w.set_body_str("hello");
    gzip_compressor::apply_encoding(&mut w, "text/plain", None);
    assert_eq!(w.get_body(), b"hello");
    gzip_compressor::apply_encoding(&mut w, "text/plain", Some(vec![1, 2, 3]));
    assert_eq!(
        w.write(),
        b"HTTP/1.1 200 OK\r\nContent-Type: text/plain\r\nContent-Length: 3\r\nContent-Encoding: gzip\r\n\r\n\x01\x02\x03"
    );
}

#[test]
fn test_compress_without_content_type() {
    let mut w = ResponseWriter::new_empty();
    w.set_reason_phrase(ReasonPhrase::OK);
    w.set_body_str("hello");
    let r = request("Accept-Encoding: gzip\r\n");
    gzip_compressor::compress(&mut w, &r);
    assert_eq!(unzip(w.get_body()), b"hello");
}
