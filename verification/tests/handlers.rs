use http_server::headers::Headers;
use http_server::request::Request;
use http_server::response_writer::ResponseWriter;
use http_server::{echo, home, user_agent};

fn text(w: ResponseWriter) -> String {
    String::from_utf8(w.write()).unwrap()
}

#[test]
fn test_home_handler() {
    let mut w = ResponseWriter::new_empty();
    let mut r = Request::new("GET / HTTP/1.1".to_owned(), None, Headers::new_empty(), None);
    home(&mut w, &mut r);
    assert_eq!(text(w), "HTTP/1.1 200 OK\r\n\r\n");
}

#[test]
fn test_echo_handler() {
    let mut w = ResponseWriter::new_empty();
    let mut r = Request::new(
        "GET /echo/hello HTTP/1.1".to_owned(),
        Some("hello".to_owned()),
        Headers::new_empty(),
        None,
    );
    echo(&mut w, &mut r);
    assert_eq!(
        text(w),
        "HTTP/1.1 200 OK\r\nContent-Type: text/plain\r\nContent-Length: 5\r\n\r\nhello"
    );
    assert_eq!(r.get_param(), Some("hello"));
}

#[test]
fn test_user_agent_handler() {
    let request = |raw: &str| {
        Request::new("GET /user-agent HTTP/1.1".to_owned(), None, Headers::parse(raw).unwrap(), None)
    };
    let mut w = ResponseWriter::new_empty();
    user_agent(&mut w, &mut request("User-Agent: test\r\n"));
    assert_eq!(
        text(w),
        "HTTP/1.1 200 OK\r\nContent-Type: text/plain\r\nContent-Length: 4\r\n\r\ntest"
    );
    let mut w = ResponseWriter::new_empty();
    user_agent(&mut w, &mut request(""));
    assert_eq!(
        text(w),
        "HTTP/1.1 200 OK\r\nContent-Type: text/plain\r\nContent-Length: 0\r\n\r\n"
    );
    let mut w = ResponseWriter::new_empty();
    user_agent(&mut w, &mut request("User-Agent: a, b\r\n"));
    assert_eq!(text(w), "HTTP/1.1 400 Bad Request\r\n\r\n");
}
