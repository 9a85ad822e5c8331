use http_server::file_server::{
    answer_read, answer_write, build_path, confine, locate, InvalidPath, ReadOutcome, WriteOutcome,
};
use http_server::headers::Headers;
use http_server::request::Request;
use http_server::response_writer::ResponseWriter;

#[test]
fn test_build_path_ok() {
    let tests = [
        ("assets", "foo/bar", "assets/foo/bar"),
        ("assets", "./foo/bar", "assets/foo/bar"),
        ("./assets", "foo/bar", "assets/foo/bar"),
        ("./assets", "./foo/bar", "assets/foo/bar"),
        ("/assets", "foo/bar", "/assets/foo/bar"),
        ("/assets", "./foo/bar", "/assets/foo/bar"),
        ("/", "foo/bar", "/foo/bar"),
        ("/", "./foo/bar", "/foo/bar"),
    ];

    for (base, suffix, want) in tests {
        assert_eq!(build_path(base, suffix).unwrap().as_str(), want);
    }
}

#[test]
fn test_build_path_err() {
    let tests = [
        ("assets", "../secrets"),
        ("./assets", "../secrets"),
        ("/assets", "/secrets"),
    ];

    for (base, suffix) in tests {
        assert!(build_path(base, suffix).is_err());
    }
}

#[test]
fn test_build_path_stays_inside() {
    let tests = [
        ("assets", "a/../b", Some("assets/b")),
        ("assets", "a/../../assets/b", Some("assets/b")),
        ("assets", "a/../../assetsx/b", None),
        ("assets", "..", None),
        ("assets", "", Some("assets")),
        ("assets", ".", Some("assets")),
        ("assets", "a//b/", Some("assets/a/b")),
        ("/srv/www", "../www/x", Some("/srv/www/x")),
        ("/srv/www", "../wwwx", None),
        ("/srv/www", "../../etc/passwd", None),
    ];
    for (base, suffix, want) in tests {
        assert_eq!(build_path(base, suffix).ok().as_deref(), want, "{} {}", base, suffix);
    }
    assert_eq!(build_path("assets", "../secrets"), Err(InvalidPath));
    assert_eq!(InvalidPath.to_string(), "invalid path");
}

#[test]
fn test_confine() {
    assert_eq!(confine("a".to_owned(), true), Ok("a".to_owned()));
    assert_eq!(confine("a".to_owned(), false), Err(InvalidPath));
}

fn request(param: Option<&str>) -> Request {
    Request::new(
        "GET /files/x HTTP/1.1".to_owned(),
        param.map(|p| p.to_owned()),
        Headers::new_empty(),
        None,
    )
}

#[test]
fn test_locate() {
    let mut w = ResponseWriter::new_empty();
    assert_eq!(locate("assets", &mut w, &request(Some("a/b"))), Some("assets/a/b".to_owned()));
    assert_eq!(w.get_status_code(), None);

    assert_eq!(locate("assets", &mut w, &request(Some("../b"))), None);
    assert_eq!(w.get_status_code(), Some(400));

    let mut w = ResponseWriter::new_empty();
    assert_eq!(locate("assets", &mut w, &request(None)), None);
    assert_eq!(w.write(), b"HTTP/1.1 400 Bad Request\r\n\r\n");
}

#[test]
fn test_answer_read() {
    let mut w = ResponseWriter::new_empty();
    answer_read(&mut w, ReadOutcome::Contents(b"Hello World!".to_vec()));
    assert_eq!(
        String::from_utf8(w.write()).unwrap(),
        "HTTP/1.1 200 OK\r\nContent-Type: application/octet-stream\r\nContent-Length: 12\r\n\r\nHello World!"
    );
    let mut w = ResponseWriter::new_empty();
    answer_read(&mut w, ReadOutcome::NotFound);
    assert_eq!(w.get_status_code(), Some(404));
    let mut w = ResponseWriter::new_empty();
    answer_read(&mut w, ReadOutcome::Failed);
    assert_eq!(w.write(), b"HTTP/1.1 500 Internal Server Error\r\n\r\n");
}

#[test]
fn test_answer_write() {
    let mut w = ResponseWriter::new_empty();
    answer_write(&mut w, WriteOutcome::Written);
    assert_eq!(w.write(), b"HTTP/1.1 201 Created\r\n\r\n");
    let mut w = ResponseWriter::new_empty();
    answer_write(&mut w, WriteOutcome::Failed);
    assert_eq!(w.get_status_code(), Some(500));
}
