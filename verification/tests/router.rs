use http_server::headers::Headers;
use http_server::request::Request;
use http_server::response_writer::ResponseWriter;
use http_server::router::Router;
use http_server::server::{noop_handler, Handler, HttpMethod, NoopHandler};
use http_server::{echo, home};

fn run(router: &Router<&NoopHandler>, uri: &str) -> (ResponseWriter, Request) {
    let mut w = ResponseWriter::new_empty();
    let status_line = format!("GET {} HTTP/1.1\r\n\r\n", uri);
    let mut r = Request::new(status_line, None, Headers::new_empty(), None);
    router.handle(&mut w, &mut r);
    (w, r)
}

#[test]
fn router_test_not_found() {
    let mut router = Router::new();
    let noop_handler = &noop_handler();
    router.add_route(HttpMethod::Get, "/", noop_handler);
    router.add_route(HttpMethod::Get, "/items", noop_handler);

    struct Test {
        uri: &'static str,
        status_code: Option<u16>,
    }

    let tests = [
        Test {
            uri: "/",
            status_code: None,
        },
        Test {
            uri: "/items",
            status_code: None,
        },
        Test {
            uri: "/about",
            status_code: Some(404),
        },
    ];

    for test in tests {
        let (w, _) = run(&router, test.uri);
        assert_eq!(w.get_status_code(), test.status_code);
    }
}

#[test]
fn test_router_root() {
    let mut router = Router::new();
    let noop_handler = &noop_handler();
    router.add_route(HttpMethod::Get, "/", noop_handler);
    assert_eq!(router.chain(HttpMethod::Get).exact().len(), 1);
    assert!(router.chain(HttpMethod::Get).exact().contains_key("/"));
}

#[test]
fn router_test_router_dynamic() {
    let mut router = Router::new();
    let noop_handler = &noop_handler();
    router.add_route(HttpMethod::Get, "/", noop_handler);
    router.add_route(HttpMethod::Get, "/items/:id", noop_handler);

    struct Test {
        uri: &'static str,
        status_code: Option<u16>,
        param: Option<&'static str>,
    }

    let tests = [
        Test {
            uri: "/",
            status_code: None,
            param: None,
        },
        Test {
            uri: "/items",
            status_code: Some(404),
            param: None,
        },
        Test {
            uri: "/items/",
            status_code: Some(404),
            param: None,
        },
        Test {
            uri: "/items/xyz",
            status_code: None,
            param: Some("xyz"),
        },
        // A slash at the end of the target is part of the target: the
        // parameter after it is empty, and an empty parameter matches
        // nothing.
        Test {
            uri: "/items/xyz/",
            status_code: Some(404),
            param: None,
        },
        Test {
            uri: "/items/xyz/a",
            status_code: Some(404),
            param: None,
        },
    ];

    for test in tests {
        let (w, r) = run(&router, test.uri);
        assert_eq!(w.get_status_code(), test.status_code);
        assert_eq!(r.get_param(), test.param);
    }
}

#[test]
fn router_test_router_both() {
    let mut router = Router::new();
    let noop_handler = &noop_handler();
    router.add_route(HttpMethod::Get, "/", noop_handler);
    router.add_route(HttpMethod::Get, "/items", noop_handler);
    router.add_route(HttpMethod::Get, "/items/:id", noop_handler);

    struct Test {
        uri: &'static str,
        status_code: Option<u16>,
        param: Option<&'static str>,
    }

    let tests = [
        Test {
            uri: "/",
            status_code: None,
            param: None,
        },
        Test {
            uri: "/items",
            status_code: None,
            param: None,
        },
        // A slash at the end of the target is part of the target, so this
        // is neither the exact route nor a parameter of the dynamic one.
        Test {
            uri: "/items/",
            status_code: Some(404),
            param: None,
        },
        Test {
            uri: "/items/xyz",
            status_code: None,
            param: Some("xyz"),
        },
        Test {
            uri: "/items/xyz/",
            status_code: Some(404),
            param: None,
        },
        Test {
            uri: "/items/xyz/a",
            status_code: Some(404),
            param: None,
        },
    ];

    for test in tests {
        let (w, r) = run(&router, test.uri);
        assert_eq!(w.get_status_code(), test.status_code);
        assert_eq!(r.get_param(), test.param);
    }
}

#[test]
fn mod_test_not_found() {
    let mut router = Router::new();
    let noop_handler = &noop_handler();
    router.add_route(HttpMethod::Get, "/", noop_handler);
    router.add_route(HttpMethod::Get, "/items", noop_handler);

    struct Test {
        uri: &'static str,
        status_code: Option<u16>,
    }

    let tests = [
        Test {
            uri: "/",
            status_code: None,
        },
        Test {
            uri: "/items",
            status_code: None,
        },
        Test {
            uri: "/about",
            status_code: Some(404),
        },
    ];

    for test in tests {
        let (w, _) = run(&router, test.uri);
        assert_eq!(w.get_status_code(), test.status_code);
    }
}

#[test]
fn mod_test_router_dynamic() {
    let mut router = Router::new();
    let noop_handler = &noop_handler();
    router.add_route(HttpMethod::Get, "/", noop_handler);
    router.add_route(HttpMethod::Get, "/items/:id", noop_handler);

    struct Test {
        uri: &'static str,
        status_code: Option<u16>,
        param: Option<&'static str>,
    }

    let tests = [
        Test {
            uri: "/",
            status_code: None,
            param: None,
        },
        Test {
            uri: "/items",
            status_code: Some(404),
            param: None,
        },
        Test {
            uri: "/items/",
            status_code: Some(404),
            param: None,
        },
        Test {
            uri: "/items/xyz",
            status_code: None,
            param: Some("xyz"),
        },
        // A slash at the end of the target is part of the target.
        Test {
            uri: "/items/xyz/",
            status_code: Some(404),
            param: None,
        },
        Test {
            uri: "/items/xyz/a",
            status_code: Some(404),
            param: None,
        },
    ];

    for test in tests {
        let (w, r) = run(&router, test.uri);
        assert_eq!(w.get_status_code(), test.status_code);
        assert_eq!(r.get_param(), test.param);
    }
}

#[test]
fn mod_test_router_both() {
    let mut router = Router::new();
    let noop_handler = &noop_handler();
    router.add_route(HttpMethod::Get, "/", noop_handler);
    router.add_route(HttpMethod::Get, "/items", noop_handler);
    router.add_route(HttpMethod::Get, "/items/:id", noop_handler);

    struct Test {
        uri: &'static str,
        status_code: Option<u16>,
        param: Option<&'static str>,
    }

    let tests = [
        Test {
            uri: "/",
            status_code: None,
            param: None,
        },
        Test {
            uri: "/items",
            status_code: None,
            param: None,
        },
        // A slash at the end of the target is part of the target.
        Test {
            uri: "/items/",
            status_code: Some(404),
            param: None,
        },
        Test {
            uri: "/items/xyz",
            status_code: None,
            param: Some("xyz"),
        },
        Test {
            uri: "/items/xyz/",
            status_code: Some(404),
            param: None,
        },
        Test {
            uri: "/items/xyz/a",
            status_code: Some(404),
            param: None,
        },
    ];

    for test in tests {
        let (w, r) = run(&router, test.uri);
        assert_eq!(w.get_status_code(), test.status_code);
        assert_eq!(r.get_param(), test.param);
    }
}

struct Home;

impl Handler for Home {
    fn handle(&self, w: &mut ResponseWriter, r: &mut Request) {
        home(w, r)
    }
}

struct Echo;

impl Handler for Echo {
    fn handle(&self, w: &mut ResponseWriter, r: &mut Request) {
        assert!(r.get_param().is_some());
        echo(w, r)
    }
}

fn request(line: &str) -> Request {
    Request::new(line.to_owned(), None, Headers::new_empty(), None)
}

fn text(bytes: Vec<u8>) -> String {
    String::from_utf8(bytes).unwrap()
}

#[test]
fn test_echo_route() {
    let echo = Echo;
    let mut router: Router<&dyn Handler> = Router::new();
    router.add_route(HttpMethod::Get, "/echo/:s", &echo);
    let mut w = ResponseWriter::new_empty();
    let mut r = request("GET /echo/hello HTTP/1.1");
    router.handle(&mut w, &mut r);
    assert_eq!(r.get_param(), Some("hello"));
    assert_eq!(w.get_status_code(), Some(200));
    assert_eq!(w.get_body(), b"hello");
    assert_eq!(w.get_content_type_header(), Some("text/plain"));
    assert_eq!(
        text(w.write()),
        "HTTP/1.1 200 OK\r\nContent-Type: text/plain\r\nContent-Length: 5\r\n\r\nhello"
    );
}

#[test]
fn test_method_not_allowed() {
    let home = Home;
    let mut router: Router<&dyn Handler> = Router::new();
    router.add_route(HttpMethod::Post, "/todos", &home);
    let mut w = ResponseWriter::new_empty();
    let mut r = request("GET /todos HTTP/1.1");
    router.handle(&mut w, &mut r);
    assert_eq!(w.get_status_code(), Some(405));
    assert_eq!(text(w.write()), "HTTP/1.1 405 Method Not Allowed\r\nAllow: POST\r\n\r\n");

    let mut w = ResponseWriter::new_empty();
    let mut r = request("post /todos HTTP/1.1");
    router.handle(&mut w, &mut r);
    assert_eq!(w.get_status_code(), Some(200));

    router.add_route(HttpMethod::Get, "/files/", &home);
    let mut w = ResponseWriter::new_empty();
    let mut r = request("POST /files/a/b HTTP/1.1");
    router.handle(&mut w, &mut r);
    assert_eq!(r.get_param(), None);
    assert_eq!(text(w.write()), "HTTP/1.1 405 Method Not Allowed\r\nAllow: GET\r\n\r\n");
}

#[test]
fn test_unknown_method() {
    let home = Home;
    let mut router: Router<&dyn Handler> = Router::new();
    router.add_route(HttpMethod::Get, "/", &home);
    router.add_route(HttpMethod::Post, "/", &home);
    for line in ["PUT / HTTP/1.1", "GETS / HTTP/1.1", "DELETE /nowhere HTTP/1.1"] {
        let mut w = ResponseWriter::new_empty();
        let mut r = request(line);
        router.handle(&mut w, &mut r);
        assert_eq!(text(w.write()), "HTTP/1.1 400 Bad Request\r\n\r\n");
    }
}

#[test]
fn test_not_found_on_the_wire() {
    let home = Home;
    let mut router: Router<&dyn Handler> = Router::new();
    router.add_route(HttpMethod::Get, "/", &home);
    let mut w = ResponseWriter::new_empty();
    w.set_body_str("this is not sent");
    let mut r = request("GET /nowhere HTTP/1.1");
    router.handle(&mut w, &mut r);
    assert_eq!(text(w.write()), "HTTP/1.1 404 Not Found\r\n\r\n");
}

#[test]
fn test_subtree_route_with_empty_parameter() {
    let echo = Echo;
    let mut router: Router<&dyn Handler> = Router::new();
    router.add_route(HttpMethod::Get, "/files/", &echo);
    let mut w = ResponseWriter::new_empty();
    let mut r = request("GET /files/ HTTP/1.1");
    router.handle(&mut w, &mut r);
    assert_eq!(r.get_param(), Some(""));
    assert_eq!(w.get_status_code(), Some(200));
    let mut w = ResponseWriter::new_empty();
    let mut r = request("GET /files HTTP/1.1");
    router.handle(&mut w, &mut r);
    assert_eq!(w.get_status_code(), Some(404));
}

#[test]
fn test_router_as_handler() {
    let home = Home;
    let mut inner: Router<&dyn Handler> = Router::new();
    inner.add_route(HttpMethod::Get, "/", &home);
    let mut outer: Router<&dyn Handler> = Router::new();
    outer.add_route(HttpMethod::Get, "/", &inner);
    let mut w = ResponseWriter::new_empty();
    let mut r = request("GET / HTTP/1.1");
    Handler::handle(&outer, &mut w, &mut r);
    assert_eq!(w.get_status_code(), Some(200));
}
