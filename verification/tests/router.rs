use bytes::Bytes;
use rhttp::{
    find_request_path, match_path, Context, HandlerFn, Method, Request, RequestError, Response,
    Route, Router, Server,
};

/// What a test handler does when it is called.
#[derive(Clone, Copy)]
enum Act {
    Write(&'static str),
    WriteAndEnd(&'static str),
    WriteAndFail(&'static str),
    EchoParam(&'static str),
    Raw,
}

struct Handler(Act);

impl HandlerFn for Handler {
    fn call(&self, ctx: &mut Context) -> Result<(), String> {
        match self.0 {
            Act::Write(text) => {
                ctx.response.write(text.as_bytes());
                Ok(())
            }
            Act::WriteAndEnd(text) => {
                ctx.response.write(text.as_bytes());
                ctx.end();
                Ok(())
            }
            Act::WriteAndFail(text) => {
                ctx.response.write(text.as_bytes());
                ctx.response.set_header("x-partial", "yes");
                Err("handler failed".to_string())
            }
            Act::EchoParam(name) => {
                let value = match ctx.params.get(name) {
                    Some(p) => p.value.clone(),
                    None => "(none)".to_string(),
                };
                ctx.response.write(value.as_bytes());
                Ok(())
            }
            Act::Raw => {
                ctx.set_raw(true);
                Ok(())
            }
        }
    }
}

fn request(input: &'static [u8]) -> Request {
    let mut request = Request::new();
    request.parse(Bytes::from_static(input)).expect("parsing request");
    request
}

fn captures(path: &str, pattern: &str) -> Option<Vec<(String, String, String)>> {
    match_path(path, pattern).map(|params| {
        (0..params.len())
            .map(|i| {
                let (k, v) = params.entry(i).expect("an entry");
                (k.clone(), v.param.clone(), v.value.clone())
            })
            .collect()
    })
}

fn body_of(out: &[u8]) -> &[u8] {
    let split = out.windows(4).position(|w| w == b"\r\n\r\n").expect("a blank line");
    &out[split + 4..]
}

#[test]
fn entries_end_with_the_last() {
    let params = match_path("/u/7/p/9", "/u/:user/p/:post").expect("a match");
    assert_eq!(params.len(), 2);
    assert_eq!(params.entry(1).map(|(k, v)| (k.as_str(), v.value.as_str())), Some(("user", "7")));
    assert!(params.entry(2).is_none());
    assert!(params.get("post").is_some());
    assert!(params.get("p").is_none());
}

fn s(text: &str) -> String {
    text.to_string()
}

#[test]
fn named_segment_captures() {
    assert_eq!(
        captures("/echo/World", "/echo/:name"),
        Some(vec![(s("name"), s("name"), s("World"))])
    );
}

#[test]
fn last_wildcard_accepts_the_rest_of_the_path() {
    assert_eq!(captures("/files/a/b/c", "/files/*"), Some(vec![(s("*"), s("*"), s("a"))]));
    assert_eq!(captures("/files/a", "/files/*"), Some(vec![(s("*"), s("*"), s("a"))]));
    assert_eq!(captures("/files/", "/files/*"), Some(vec![(s("*"), s("*"), s(""))]));
    assert_eq!(captures("/anything/at/all", "*"), Some(vec![(s("*"), s("*"), s(""))]));
}

#[test]
fn inner_wildcard_takes_one_segment() {
    assert_eq!(captures("/a/x/b", "/a/*/b"), Some(vec![(s("*"), s("*"), s("x"))]));
    assert_eq!(captures("/a/x/y/b", "/a/*/b"), None);
    assert_eq!(captures("/a/x/", "/a/*/"), Some(vec![(s("*"), s("*"), s("x"))]));
    assert_eq!(captures("/a/x/y", "/a/*/"), None);
}

#[test]
fn literal_pattern_needs_the_same_segments() {
    assert_eq!(captures("/a/b", "/a/b"), Some(vec![]));
    assert_eq!(captures("/a", "/a/b"), None);
    assert_eq!(captures("/a/b/c", "/a/b"), None);
    assert_eq!(captures("/a/c", "/a/b"), None);
    assert_eq!(captures("/A/b", "/a/b"), None);
    assert_eq!(captures("/a/b/", "/a/b"), None);
    assert_eq!(captures("/", "/"), Some(vec![]));
    assert_eq!(captures("", ""), Some(vec![]));
}

#[test]
fn several_captures_come_in_ascending_order() {
    assert_eq!(
        captures("/u/7/p/9", "/u/:user/p/:post"),
        Some(vec![(s("post"), s("post"), s("9")), (s("user"), s("user"), s("7"))])
    );
    assert_eq!(captures("/u/7", "/u/:user/p/:post"), None);
    assert_eq!(captures("/1/2", "/:x/:x"), Some(vec![(s("x"), s("x"), s("2"))]));
}

#[test]
fn captures_keep_text_outside_ascii() {
    assert_eq!(
        captures("/echo/h\u{e9}llo", "/echo/:n\u{e4}me"),
        Some(vec![(s("n\u{e4}me"), s("n\u{e4}me"), s("h\u{e9}llo"))])
    );
}

#[test]
fn find_request_path_gives_the_path_and_the_captures() {
    let request = request(b"GET /echo/World HTTP/1.1\r\n\r\n");
    let route = Route { path: s("/echo/:name"), method: Some(Method::POST), handler: () };
    let found = find_request_path(&request, &route).expect("a match");
    assert_eq!(found.path, "/echo/World");
    assert_eq!(found.params.len(), 1);
    assert_eq!(found.params.get("name").map(|p| p.value.as_str()), Some("World"));
    let route = Route { path: s("/other"), method: None, handler: () };
    assert!(find_request_path(&request, &route).is_none());
}

#[test]
fn request_without_a_path_has_the_empty_path() {
    let route = Route { path: s(""), method: None, handler: () };
    let found = find_request_path(&Request::new(), &route).expect("a match");
    assert_eq!(found.path, "");
    let route = Route { path: s("/"), method: None, handler: () };
    assert!(find_request_path(&Request::new(), &route).is_none());
}

#[test]
fn context_flags() {
    let mut ctx = Context::new();
    assert!(!ctx.has_ended());
    assert!(!ctx.is_raw());
    ctx.end();
    assert!(ctx.has_ended());
    ctx.set_raw(true);
    assert!(ctx.is_raw());
    ctx.set_raw(false);
    assert!(!ctx.is_raw());
    assert!(ctx.has_ended());
    let ctx = Context::from(request(b"GET /x HTTP/1.1\r\n\r\n"), Response::new());
    assert_eq!(ctx.request.path, Some(s("/x")));
    assert_eq!(ctx.params.len(), 0);
    assert!(!ctx.has_ended());
}

#[test]
fn both_handlers_run_in_registration_order() {
    let mut server = Server::new();
    server.get("/x", Handler(Act::Write("one,")));
    server.get("/x", Handler(Act::Write("two")));
    let ctx = server.dispatch(request(b"GET /x HTTP/1.1\r\n\r\n"));
    assert_eq!(
        ctx.response.build(),
        b"HTTP/1.1 200 OK\r\nContent-Length: 7\r\nContent-Type: text/plain\r\n\r\none,two"
    );
    assert!(!ctx.has_ended());
}

#[test]
fn handler_that_ends_the_chain_is_the_last() {
    let mut server = Server::new();
    server.get("/x", Handler(Act::WriteAndEnd("one")));
    server.get("/x", Handler(Act::Write("two")));
    let ctx = server.dispatch(request(b"GET /x HTTP/1.1\r\n\r\n"));
    assert_eq!(body_of(&ctx.response.build()), b"one");
    assert!(ctx.has_ended());
}

#[test]
fn failing_handler_gives_the_fixed_500() {
    let mut server = Server::new();
    server.get("/x", Handler(Act::Write("one")));
    server.get("/x", Handler(Act::WriteAndFail("partial")));
    server.get("/x", Handler(Act::Write("three")));
    let ctx = server.dispatch(request(b"GET /x HTTP/1.1\r\n\r\n"));
    assert_eq!(
        ctx.response.build(),
        b"HTTP/1.1 500 Internal Server Error\r\nContent-Length: 21\r\nContent-Type: text/plain\r\n\r\ninternal server error"
    );
    assert!(!ctx.has_ended());
}

#[test]
fn failure_response_keeps_nothing_of_what_was_set() {
    let mut ctx = Context::new();
    ctx.response.write(b"partial");
    ctx.response.set_header("x-partial", "yes");
    ctx.response.content_type("text/html");
    ctx.set_raw(true);
    ctx.end();
    let fixed = b"HTTP/1.1 500 Internal Server Error\r\nContent-Length: 21\r\nContent-Type: text/plain\r\n\r\ninternal server error";
    ctx.fail();
    assert_eq!(ctx.response.build(), fixed);
    assert!(ctx.is_raw());
    assert!(ctx.has_ended());
}

#[test]
fn no_matching_route_gives_404() {
    let mut server = Server::new();
    server.get("/x", Handler(Act::Write("one")));
    let ctx = server.dispatch(request(b"GET /y HTTP/1.1\r\n\r\n"));
    assert_eq!(
        ctx.response.build(),
        b"HTTP/1.1 404 Not Found\r\nContent-Length: 13\r\nContent-Type: text/plain\r\n\r\n404 Not Found"
    );
    let empty: Server<Handler> = Server::new();
    let ctx = empty.dispatch(request(b"GET / HTTP/1.1\r\n\r\n"));
    assert_eq!(&ctx.response.build()[..22], b"HTTP/1.1 404 Not Found");
}

#[test]
fn routes_are_filtered_by_method() {
    let mut server = Server::new();
    server.post("/x", Handler(Act::Write("post,")));
    server.get("/x", Handler(Act::Write("get,")));
    server.any("/x", Handler(Act::Write("any,")));
    server.handle(Method::ANY, "/x", Handler(Act::Write("ANY")));
    let ctx = server.dispatch(request(b"GET /x HTTP/1.1\r\n\r\n"));
    assert_eq!(body_of(&ctx.response.build()), b"get,any,ANY");
    let ctx = server.dispatch(request(b"PUT /x HTTP/1.1\r\n\r\n"));
    assert_eq!(body_of(&ctx.response.build()), b"any,ANY");
    assert_eq!(server.len(), 4);
    let found = server.matching_routes(&request(b"POST /x HTTP/1.1\r\n\r\n"));
    let indices: Vec<usize> = found.iter().map(|(i, _)| *i).collect();
    assert_eq!(indices, vec![0, 2, 3]);
}

#[test]
fn each_handler_gets_the_captures_of_its_route() {
    let mut server = Server::new();
    server.get("/echo/:name", Handler(Act::EchoParam("name")));
    server.get("/echo/*", Handler(Act::EchoParam("name")));
    server.get("/:first/:second", Handler(Act::EchoParam("second")));
    let ctx = server.dispatch(request(b"GET /echo/World HTTP/1.1\r\n\r\n"));
    assert_eq!(body_of(&ctx.response.build()), b"World(none)World");
    assert_eq!(ctx.params.get("first").map(|p| p.value.as_str()), Some("echo"));
}

#[test]
fn every_method_has_its_registration() {
    let mut server = Server::new();
    server
        .get("/", Handler(Act::Write("GET")))
        .head("/", Handler(Act::Write("HEAD")))
        .post("/", Handler(Act::Write("POST")))
        .put("/", Handler(Act::Write("PUT")))
        .delete("/", Handler(Act::Write("DELETE")))
        .connect("/", Handler(Act::Write("CONNECT")))
        .options("/", Handler(Act::Write("OPTIONS")))
        .trace("/", Handler(Act::Write("TRACE")));
    assert_eq!(server.len(), 8);
    let inputs: [(&'static [u8], &'static [u8]); 8] = [
        (b"GET / HTTP/1.1\r\n\r\n", b"GET"),
        (b"HEAD / HTTP/1.1\r\n\r\n", b"HEAD"),
        (b"POST / HTTP/1.1\r\n\r\n", b"POST"),
        (b"PUT / HTTP/1.1\r\n\r\n", b"PUT"),
        (b"DELETE / HTTP/1.1\r\n\r\n", b"DELETE"),
        (b"CONNECT / HTTP/1.1\r\n\r\n", b"CONNECT"),
        (b"OPTIONS / HTTP/1.1\r\n\r\n", b"OPTIONS"),
        (b"TRACE / HTTP/1.1\r\n\r\n", b"TRACE"),
    ];
    for (input, body) in inputs {
        let ctx = server.dispatch(request(input));
        assert_eq!(body_of(&ctx.response.build()), body);
    }
}

#[test]
fn connection_gets_bytes_for_bytes() {
    let mut server = Server::new();
    server.get("/hello/:name", Handler(Act::EchoParam("name")));
    server.post("/raw", Handler(Act::Raw));
    assert_eq!(
        server.handle_connection(Bytes::from_static(b"GET /hello/you HTTP/1.1\r\nHost: a\r\n\r\n")),
        Ok(Some(
            b"HTTP/1.1 200 OK\r\nContent-Length: 3\r\nContent-Type: text/plain\r\n\r\nyou".to_vec()
        ))
    );
    assert_eq!(
        server.handle_connection(Bytes::from_static(b"GET /nowhere HTTP/1.1\r\n\r\n")),
        Ok(Some(
            b"HTTP/1.1 404 Not Found\r\nContent-Length: 13\r\nContent-Type: text/plain\r\n\r\n404 Not Found"
                .to_vec()
        ))
    );
    assert_eq!(server.handle_connection(Bytes::from_static(b"POST /raw HTTP/1.1\r\n\r\n")), Ok(None));
    assert_eq!(
        server.handle_connection(Bytes::from_static(b"GET /hello/you HTTP/1.0\r\n\r\n")),
        Err(RequestError::Version)
    );
    assert_eq!(
        server.handle_connection(Bytes::from_static(b"POST /raw HTTP/1.1\r\nContent-Length: 4\r\n\r\nab")),
        Err(RequestError::IncompleteBody)
    );
}

#[test]
fn context_writes_its_response_out() {
    let mut ctx = Context::new();
    ctx.response.write(b"abc");
    assert_eq!(ctx.written(), ctx.response.build());
    ctx.fail();
    assert_eq!(
        ctx.written(),
        b"HTTP/1.1 500 Internal Server Error\r\nContent-Length: 21\r\nContent-Type: text/plain\r\n\r\ninternal server error"
            .to_vec()
    );
    ctx.not_found();
    assert_eq!(
        ctx.written(),
        b"HTTP/1.1 404 Not Found\r\nContent-Length: 13\r\nContent-Type: text/plain\r\n\r\n404 Not Found".to_vec()
    );
}

#[test]
fn raw_flag_comes_back_to_the_caller() {
    let mut server = Server::new();
    server.any("*", Handler(Act::Raw));
    let ctx = server.dispatch(request(b"GET /x HTTP/1.1\r\n\r\n"));
    assert!(ctx.is_raw());
    server.add_route(Route { path: s("*"), method: None, handler: Handler(Act::WriteAndFail("")) });
    let ctx = server.dispatch(request(b"GET /x HTTP/1.1\r\n\r\n"));
    assert!(ctx.is_raw());
    assert_eq!(&ctx.response.build()[..12], b"HTTP/1.1 500");
}
