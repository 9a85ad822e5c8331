use http_server::headers::Headers;
use http_server::request::{Request, RequestReader};
use http_server::response_writer::ResponseWriter;
use http_server::router::Router;
use http_server::server::{
    conn_ctrl, handle_request, noop_handler, ConnCtrl, FnHandler, Handler, HttpMethod, Step,
};
use http_server::status_code_registry::ReasonPhrase;
use http_server::{home, user_agent};

struct Home;

impl Handler for Home {
    fn handle(&self, w: &mut ResponseWriter, r: &mut Request) {
        home(w, r)
    }
}

struct UserAgent;

impl Handler for UserAgent {
    fn handle(&self, w: &mut ResponseWriter, r: &mut Request) {
        user_agent(w, r)
    }
}

struct Target;

impl Handler for Target {
    fn handle(&self, w: &mut ResponseWriter, r: &mut Request) {
        w.set_body_str(r.get_request_target());
        w.set_reason_phrase(ReasonPhrase::OK);
    }
}

fn respond(step: Step) -> (String, ConnCtrl) {
    match step {
        Step::Respond(bytes, ctrl) => (String::from_utf8(bytes).unwrap(), ctrl),
        other => panic!("no response: {:?}", other),
    }
}

#[test]
fn test_method_mapping() {
    for token in ["GET", "get", "Get", "gEt", "geT"] {
        assert_eq!(HttpMethod::try_from(token), Ok(HttpMethod::Get));
    }
    for token in ["POST", "post", "Post", "pOsT"] {
        assert_eq!(HttpMethod::try_from(token), Ok(HttpMethod::Post));
    }
    for token in ["", "GE", "GETS", " GET", "PUT", "P\u{d6}ST", "\u{212a}"] {
        assert_eq!(HttpMethod::try_from(token), Err(()));
    }
    assert_eq!(HttpMethod::try_from(0usize), Ok(HttpMethod::Get));
    assert_eq!(HttpMethod::try_from(1usize), Ok(HttpMethod::Post));
    assert_eq!(HttpMethod::try_from(2usize), Err(()));
    assert_eq!(HttpMethod::Get.to_string(), "Get");
    assert_eq!(HttpMethod::Post.to_string(), "Post");
}

#[test]
fn test_conn_ctrl() {
    let r = |raw: &str| {
        Request::new("GET / HTTP/1.1".to_owned(), None, Headers::parse(raw).unwrap(), None)
    };
    assert_eq!(conn_ctrl(&r("")), ConnCtrl::KeepAlive);
    assert_eq!(conn_ctrl(&r("Connection: keep-alive\r\n")), ConnCtrl::KeepAlive);
    assert_eq!(conn_ctrl(&r("Connection: close\r\n")), ConnCtrl::Close);
    assert_eq!(conn_ctrl(&r("connection: keep-alive, close\r\n")), ConnCtrl::Close);
    assert_eq!(conn_ctrl(&r("Connection: Close\r\n")), ConnCtrl::KeepAlive);
    assert_eq!(conn_ctrl(&r("Connection: closed\r\n")), ConnCtrl::KeepAlive);
}

#[test]
fn test_two_requests_on_one_connection() {
    let mut reader = RequestReader::new();
    reader.feed(b"GET / HTTP/1.1\r\n\r\nGET /about HTTP/1.1\r\n\r\n");
    let handler = Target;
    let (first, ctrl) = respond(handle_request(&mut reader, &handler));
    assert_eq!(
        first,
        "HTTP/1.1 200 OK\r\nContent-Type: text/plain\r\nContent-Length: 1\r\n\r\n/"
    );
    assert_eq!(ctrl, ConnCtrl::KeepAlive);
    let (second, ctrl) = respond(handle_request(&mut reader, &handler));
    assert_eq!(
        second,
        "HTTP/1.1 200 OK\r\nContent-Type: text/plain\r\nContent-Length: 6\r\n\r\n/about"
    );
    assert_eq!(ctrl, ConnCtrl::KeepAlive);
    assert!(matches!(handle_request(&mut reader, &handler), Step::NeedInput));
    reader.close();
    assert!(matches!(handle_request(&mut reader, &handler), Step::Close));
}

#[test]
fn test_connection_close() {
    let mut reader = RequestReader::new();
    reader.feed(b"GET / HTTP/1.1\r\nConnection: close\r\n\r\n");
    let (response, ctrl) = respond(handle_request(&mut reader, &Home));
    assert_eq!(response, "HTTP/1.1 200 OK\r\n\r\n");
    assert_eq!(ctrl, ConnCtrl::Close);
}

#[test]
fn test_bad_request_closes() {
    for data in [
        &b"GET /\r\n\r\n"[..],
        b"GET / HTTP/1.1\r\nno colon\r\n\r\n",
        b"POST / HTTP/1.1\r\n\r\n",
        b"GET /\xff HTTP/1.1\r\n\r\n",
    ] {
        let mut reader = RequestReader::new();
        reader.feed(data);
        let (response, ctrl) = respond(handle_request(&mut reader, &Home));
        assert_eq!(response, "HTTP/1.1 400 Bad Request\r\n\r\n");
        assert_eq!(ctrl, ConnCtrl::Close);
    }
}

#[test]
fn test_stalled_request_needs_input() {
    let mut reader = RequestReader::new();
    reader.feed(b"GET / HTTP/1.1\r\n");
    assert!(matches!(handle_request(&mut reader, &Home), Step::NeedInput));
    assert!(matches!(handle_request(&mut reader, &Home), Step::NeedInput));
    reader.feed(b"\r\n");
    let (response, _) = respond(handle_request(&mut reader, &Home));
    assert_eq!(response, "HTTP/1.1 200 OK\r\n\r\n");
}

#[test]
fn test_handler_without_status() {
    let mut reader = RequestReader::new();
    reader.feed(b"GET / HTTP/1.1\r\n\r\n");
    assert!(matches!(handle_request(&mut reader, &noop_handler()), Step::Unfinished));
}

#[test]
fn test_router_on_a_connection() {
    let home = Home;
    let agent = UserAgent;
    let mut router: Router<&dyn Handler> = Router::new();
    router.add_route(HttpMethod::Get, "/", &home);
    router.add_route(HttpMethod::Get, "/user-agent", &agent);
    let mut reader = RequestReader::new();
    reader.feed(b"GET /user-agent HTTP/1.1\r\nUser-Agent: test\r\n\r\n");
    reader.feed(b"GET /user-agent HTTP/1.1\r\n\r\n");
    reader.feed(b"GET /user-agent HTTP/1.1\r\nUser-Agent: a, b\r\n\r\n");
    reader.feed(b"PUT / HTTP/1.1\r\n\r\n");
    let (response, _) = respond(handle_request(&mut reader, &router));
    assert_eq!(
        response,
        "HTTP/1.1 200 OK\r\nContent-Type: text/plain\r\nContent-Length: 4\r\n\r\ntest"
    );
    let (response, _) = respond(handle_request(&mut reader, &router));
    assert_eq!(
        response,
        "HTTP/1.1 200 OK\r\nContent-Type: text/plain\r\nContent-Length: 0\r\n\r\n"
    );
    let (response, _) = respond(handle_request(&mut reader, &router));
    assert_eq!(response, "HTTP/1.1 400 Bad Request\r\n\r\n");
    let (response, ctrl) = respond(handle_request(&mut reader, &router));
    assert_eq!(response, "HTTP/1.1 400 Bad Request\r\n\r\n");
    assert_eq!(ctrl, ConnCtrl::KeepAlive);
}

#[test]
fn test_closure_as_handler() {
    let greeting = "hi".to_owned();
    let handler = FnHandler::new(|w: &mut ResponseWriter, _: &mut Request| {
        w.set_body_str(&greeting);
        w.set_reason_phrase(ReasonPhrase::OK);
    });
    let named = FnHandler::new(home);
    let mut router: Router<&dyn Handler> = Router::new();
    router.add_route(HttpMethod::Get, "/", &handler);
    router.add_route(HttpMethod::Get, "/home", &named);
    let mut reader = RequestReader::new();
    reader.feed(b"GET / HTTP/1.1\r\n\r\nGET /home HTTP/1.1\r\n\r\n");
    let (response, _) = respond(handle_request(&mut reader, &router));
    assert_eq!(
        response,
        "HTTP/1.1 200 OK\r\nContent-Type: text/plain\r\nContent-Length: 2\r\n\r\nhi"
    );
    let (response, _) = respond(handle_request(&mut reader, &router));
    assert_eq!(response, "HTTP/1.1 200 OK\r\n\r\n");
}

#[test]
fn test_header_block_beyond_budget_is_answered() {
    let line = format!("x: {}\r\n", "v".repeat(123));
    for tail in ["", "\r\n", "y: 1\r\n\r\n"] {
        let mut reader = RequestReader::new();
        reader.feed(format!("GET / HTTP/1.1\r\n{}{}", line.repeat(64), tail).as_bytes());
        let (response, ctrl) = respond(handle_request(&mut reader, &Home));
        assert_eq!(response, "HTTP/1.1 400 Bad Request\r\n\r\n");
        assert_eq!(ctrl, ConnCtrl::Close);
    }
    let mut reader = RequestReader::new();
    reader.feed(format!("GET / HTTP/1.1\r\n{}", line.repeat(3)).as_bytes());
    reader.close();
    assert!(matches!(handle_request(&mut reader, &Home), Step::Close));
}
