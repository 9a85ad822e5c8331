use http_server::headers::{HeaderError, Headers};
use http_server::multi_map::{MultiMap, Value};

#[test]
fn test_parse_simple() {
    let raw = "accept: */*\r\n\r\n";
    let headers = Headers::parse(raw).unwrap();
    assert_eq!(headers.get_scalar("accept").unwrap().unwrap(), "*/*");
}

#[test]
fn test_parse_comma_separated() {
    let raw = "accept: text/html, application/json\r\n\r\n";
    let headers = Headers::parse(raw).unwrap();
    assert_eq!(
        headers.get_iter("Accept").unwrap().into_iter().collect::<Vec<_>>(),
        vec!["text/html", "application/json"]
    );
}

#[test]
fn test_parse_repeated() {
    let raw = "set-cookie: foo\r\nset-cookie: bar\r\n\r\n";
    let headers = Headers::parse(raw).unwrap();
    assert_eq!(
        headers.get_iter("Set-Cookie").unwrap().into_iter().collect::<Vec<_>>(),
        vec!["foo", "bar"]
    );
}

#[test]
fn test_parse_no_colon() {
    let raw = "Accept */*\r\n\r\n";
    let res = Headers::parse(raw);
    res.unwrap_err();
}

#[test]
fn test_parse_repeated_in_capitals() {
    let raw = "Set-Cookie: foo\r\nSet-Cookie: bar\r\n\r\n";
    let headers = Headers::parse(raw).unwrap();
    assert_eq!(headers.get_iter("Set-Cookie").unwrap(), vec!["foo", "bar"]);
    assert_eq!(headers.get_iter("SET-COOKIE").unwrap(), vec!["foo", "bar"]);
    assert_eq!(headers.get_scalar("set-cookie").unwrap_err(), HeaderError::NotScalar);
}

#[test]
fn test_parse_error_is_missing_colon() {
    assert_eq!(Headers::parse("Accept */*\r\n\r\n").unwrap_err(), HeaderError::MissingColon);
    assert_eq!(HeaderError::MissingColon.to_string(), "missing colon delimiter");
    assert_eq!(HeaderError::NotScalar.to_string(), "not scalar");
}

#[test]
fn test_parse_stops_at_empty_line() {
    let headers = Headers::parse("a: 1\r\n\r\nno colon here\r\n").unwrap();
    assert_eq!(headers.get_scalar("a").unwrap(), Some("1"));
    assert!(headers.get_iter("no colon here").is_none());
}

#[test]
fn test_parse_without_line_ends() {
    let headers = Headers::parse("a: 1\nb:2").unwrap();
    assert_eq!(headers.get_scalar("a").unwrap(), Some("1"));
    assert_eq!(headers.get_scalar("b").unwrap(), Some("2"));
    assert!(Headers::parse("").unwrap().get_iter("a").is_none());
}

#[test]
fn test_parse_values_line() {
    match Headers::parse_values_line(" gzip ") {
        Value::Scalar(s) => assert_eq!(s, "gzip"),
        Value::Vector(_) => panic!("one value makes a scalar"),
    }
    match Headers::parse_values_line("a ,\tb,, c\u{a0}") {
        Value::Vector(v) => assert_eq!(v, vec!["a", "b", "", "c"]),
        Value::Scalar(_) => panic!("several values make a vector"),
    }
}

#[test]
fn test_mixed_line_and_repetition() {
    let headers = Headers::parse("x: a, b\r\nX: c\r\nx: d, e\r\n").unwrap();
    assert_eq!(headers.get_iter("x").unwrap(), vec!["a", "b", "c", "d", "e"]);
}

#[test]
fn test_named_fields() {
    let raw = "Accept-Encoding: br, gzip\r\nConnection: close\r\nUser-Agent: curl/8\r\nContent-Length: 12\r\n";
    let headers = Headers::parse(raw).unwrap();
    assert_eq!(headers.get_accept_encoding().unwrap(), vec!["br", "gzip"]);
    assert_eq!(headers.get_connection().unwrap(), vec!["close"]);
    assert_eq!(headers.get_user_agent().unwrap(), Some("curl/8"));
    assert_eq!(headers.get_content_length().unwrap(), Some(12));
    let none = Headers::new_empty();
    assert!(none.get_accept_encoding().is_none());
    assert!(none.get_connection().is_none());
    assert_eq!(none.get_user_agent().unwrap(), None);
    assert_eq!(none.get_content_length().unwrap(), None);
}

#[test]
fn test_content_length_errors() {
    let text = Headers::parse("content-length: twelve\r\n").unwrap();
    assert_eq!(text.get_content_length().unwrap_err(), HeaderError::InvalidNumber);
    let negative = Headers::parse("content-length: -1\r\n").unwrap();
    assert_eq!(negative.get_content_length().unwrap_err(), HeaderError::InvalidNumber);
    let empty = Headers::parse("content-length:\r\n").unwrap();
    assert_eq!(empty.get_content_length().unwrap_err(), HeaderError::InvalidNumber);
    let huge = Headers::parse("content-length: 99999999999999999999999\r\n").unwrap();
    assert_eq!(huge.get_content_length().unwrap_err(), HeaderError::InvalidNumber);
    let two = Headers::parse("content-length: 1, 2\r\n").unwrap();
    assert_eq!(two.get_content_length().unwrap_err(), HeaderError::NotScalar);
    let plus = Headers::parse("content-length: +007\r\n").unwrap();
    assert_eq!(plus.get_content_length().unwrap(), Some(7));
    let largest = Headers::parse(&format!("content-length: {}\r\n", usize::MAX)).unwrap();
    assert_eq!(largest.get_content_length().unwrap(), Some(usize::MAX));
}

#[test]
fn test_headers_from_map() {
    let mut mm = MultiMap::new_empty();
    mm.insert_scalar("accept".to_owned(), "*/*".to_owned());
    let headers = Headers::new(mm);
    assert_eq!(headers.get_scalar("Accept").unwrap(), Some("*/*"));
}
