use http_server::response_writer::ResponseWriter;
use http_server::server::HttpMethod;
use http_server::status_code_registry::ReasonPhrase;

fn text(bytes: Vec<u8>) -> String {
    String::from_utf8(bytes).unwrap()
}

#[test]
fn test_write_status_only() {
    let mut w = ResponseWriter::new_empty();
    assert_eq!(w.get_status_code(), None);
    w.set_reason_phrase(ReasonPhrase::OK);
    assert_eq!(w.get_status_code(), Some(200));
    assert_eq!(text(w.write()), "HTTP/1.1 200 OK\r\n\r\n");
}

#[test]
fn test_write_with_body() {
    let mut w = ResponseWriter::new_empty();
    w.set_reason_phrase(ReasonPhrase::Created);
    w.add_content_encoding_header("identity");
    w.set_body(vec![0, 159, 146, 150], "application/octet-stream");
    let want = b"HTTP/1.1 201 Created\r\nContent-Encoding: identity\r\nContent-Type: application/octet-stream\r\nContent-Length: 4\r\n\r\n\x00\x9f\x92\x96";
    assert_eq!(w.write(), want);
}

#[test]
fn test_write_not_found_is_bare() {
    let mut w = ResponseWriter::new_empty();
    w.set_body_str("nothing here");
    w.set_status_code(404);
    assert_eq!(w.get_body(), b"nothing here");
    assert_eq!(text(w.write()), "HTTP/1.1 404 Not Found\r\n\r\n");
}

#[test]
fn test_set_status_code() {
    let mut w = ResponseWriter::new_empty();
    w.set_status_code(418);
    assert_eq!(w.get_status_code(), Some(418));
    assert_eq!(text(w.write()), "HTTP/1.1 418\r\n\r\n");
    let mut w = ResponseWriter::new_empty();
    w.set_status_code(503);
    assert_eq!(text(w.write()), "HTTP/1.1 503 Service Unavailable\r\n\r\n");
    let mut w = ResponseWriter::new_empty();
    w.set_status_line(0, "Zero".to_owned());
    assert_eq!(text(w.write()), "HTTP/1.1 0 Zero\r\n\r\n");
    let mut w = ResponseWriter::new_empty();
    w.set_status_line(65535, String::new());
    assert_eq!(text(w.write()), "HTTP/1.1 65535 \r\n\r\n");
}

#[test]
fn test_body_sets_type_and_length_together() {
    let mut w = ResponseWriter::new_empty();
    w.set_reason_phrase(ReasonPhrase::OK);
    w.set_body_str("gr\u{fc}n");
    assert_eq!(w.get_content_type_header(), Some("text/plain"));
    w.set_body(vec![b'x'; 1234], "text/x");
    assert_eq!(w.get_content_type_header(), Some("text/x"));
    let written = text(w.write());
    assert!(written.starts_with(
        "HTTP/1.1 200 OK\r\nContent-Type: text/x\r\nContent-Length: 1234\r\n\r\nxxx"
    ));
    assert_eq!(written.len(), 63 + 1234);

    let mut w = ResponseWriter::new_empty();
    w.set_reason_phrase(ReasonPhrase::OK);
    w.set_body_str("gr\u{fc}n");
    assert_eq!(
        w.write(),
        "HTTP/1.1 200 OK\r\nContent-Type: text/plain\r\nContent-Length: 5\r\n\r\ngr\u{fc}n".as_bytes()
    );
}

#[test]
fn test_header_is_replaced_in_place() {
    let mut w = ResponseWriter::new_empty();
    w.set_reason_phrase(ReasonPhrase::OK);
    w.add_header("A".to_owned(), "1".to_owned());
    w.add_header("content-type".to_owned(), "text/a".to_owned());
    w.add_header("B".to_owned(), "2".to_owned());
    w.add_header("a".to_owned(), "3".to_owned());
    assert_eq!(w.get_content_type_header(), Some("text/a"));
    w.set_body(vec![], "text/b");
    assert_eq!(w.get_content_type_header(), Some("text/b"));
    assert_eq!(
        text(w.write()),
        "HTTP/1.1 200 OK\r\nA: 3\r\ncontent-type: text/b\r\nB: 2\r\nContent-Length: 0\r\n\r\n"
    );
}

#[test]
fn test_allow_header() {
    let mut w = ResponseWriter::new_empty();
    w.set_reason_phrase(ReasonPhrase::MethodNotAllowed);
    w.add_allow_header(vec![HttpMethod::Get, HttpMethod::Post]);
    assert_eq!(text(w.write()), "HTTP/1.1 405 Method Not Allowed\r\nAllow: GET, POST\r\n\r\n");
    let mut w = ResponseWriter::new_empty();
    w.set_reason_phrase(ReasonPhrase::MethodNotAllowed);
    w.add_allow_header(vec![HttpMethod::Post]);
    w.add_allow_header(vec![]);
    assert_eq!(text(w.write()), "HTTP/1.1 405 Method Not Allowed\r\nAllow: \r\n\r\n");
}

#[test]
fn test_no_content_type() {
    let mut w = ResponseWriter::new_empty();
    w.add_content_encoding_header("gzip");
    assert_eq!(w.get_content_type_header(), None);
    assert_eq!(w.get_body(), b"");
}

#[test]
fn test_fields_occur_once() {
    let mut w = ResponseWriter::new_empty();
    w.set_reason_phrase(ReasonPhrase::OK);
    w.add_header("content-encoding".to_owned(), "br".to_owned());
    w.set_body_str("a");
    w.add_content_encoding_header("gzip");
    w.add_content_encoding_header("gzip");
    w.set_body(vec![1, 2], "image/x");
    w.set_body(vec![1, 2, 3], "image/y");
    w.add_header("CONTENT-LENGTH".to_owned(), "7".to_owned());
    assert_eq!(
        w.write(),
        b"HTTP/1.1 200 OK\r\ncontent-encoding: gzip\r\nContent-Type: image/y\r\nContent-Length: 7\r\n\r\n\x01\x02\x03"
    );
}
