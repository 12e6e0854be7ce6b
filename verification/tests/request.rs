use bytes::Bytes;
use rhttp::{HeaderError, Method, Request, RequestError, RequestHeaders};

fn parse(input: &'static [u8]) -> (Request, Result<(), RequestError>) {
    let mut request = Request::new();
    let result = request.parse(Bytes::from_static(input));
    (request, result)
}

#[test]
fn http_request_parse_basic_requests() {
    let mut request = Request::new();

    request
        .parse(Bytes::from_static(b"GET /test HTTP/1.1\r\n\r\n"))
        .expect("parsing request");

    assert_eq!(request.version, Some(1));
    assert_eq!(request.method, Some(Method::GET));
    assert_eq!(request.path, Some(String::from("/test")));
}

#[test]
fn http_request_accept_only_newline() {
    let mut request = Request::new();

    request
        .parse(Bytes::from_static(b"GET /test HTTP/1.1\r\n\r\n"))
        .expect("parsing request");

    assert_eq!(request.version, Some(1));
    assert_eq!(request.method, Some(Method::GET));
    assert_eq!(request.path, Some(String::from("/test")));
}

#[test]
fn http_request_do_not_accept_only_cr() {
    let mut request = Request::new();

    request
        .parse(Bytes::from_static(b"GET /test HTTP/1.1\r"))
        .expect_err("parsing request");
}

#[test]
fn http_request_parse_request_with_headers() {
    let mut request = Request::new();

    request
        .parse(Bytes::from_static(
            b"GET /test HTTP/1.1\r\nContent-Type: application/json\r\nAuthorization: Bearer token\r\n\r\n",
        ))
        .expect("parsing request");

    assert_eq!(request.version, Some(1));
    assert_eq!(request.method, Some(Method::GET));
    assert_eq!(request.path, Some(String::from("/test")));
    assert_eq!(request.headers.iter().into_iter().count(), 2);
    assert_eq!(
        request.headers.iter().into_iter().find(|(k, _)| k.as_str() == "Content-Type"),
        Some((&String::from("Content-Type"), &b"application/json"[..].to_vec()))
    );
    assert_eq!(
        request.headers.iter().into_iter().find(|(k, _)| k.as_str() == "Authorization"),
        Some((&String::from("Authorization"), &b"Bearer token"[..].to_vec()))
    );
}

#[test]
fn http_request_parse_request_with_body() {
    let mut request = Request::new();

    request
        .parse(Bytes::from_static(
            b"POST /test HTTP/1.1\r\nContent-Length: 11\r\n\r\nHello World",
        ))
        .expect("parsing request");

    assert_eq!(request.version, Some(1));
    assert_eq!(request.method, Some(Method::POST));
    assert_eq!(request.path, Some(String::from("/test")));
    assert_eq!(request.headers.iter().into_iter().count(), 1);
    assert_eq!(
        request.headers.iter().into_iter().find(|(k, _)| k.as_str() == "Content-Length"),
        Some((&String::from("Content-Length"), &b"11"[..].to_vec()))
    );
}

#[test]
fn http_request_parse_request_with_invalid_method() {
    let mut request = Request::new();

    _ = request
        .parse(Bytes::from_static(b"INVALID /test HTTP/1.1\r\n\r\n"))
        .is_err();
}

#[test]
fn http_request_parse_request_with_invalid_uri() {
    let mut request = Request::new();

    _ = request
        .parse(Bytes::from_static(b"GET /test!@# HTTP/1.1\r\n\r\n"))
        .is_err();
}

#[test]
fn http_request_parse_request_with_invalid_version() {
    let mut request = Request::new();

    _ = request
        .parse(Bytes::from_static(b"GET /test HTTP/1.0\r\n\r\n"))
        .is_err();
}

fn parsed(input: &'static [u8]) -> Result<Request, RequestError> {
    let mut request = Request::new();
    request.parse(Bytes::from_static(input))?;
    Ok(request)
}

#[test]
fn request_parse_basic_requests() {
    let request = parsed(b"GET /test HTTP/1.1\r\n\r\n").expect("parsing request");

    assert_eq!(request.version, Some(1));
    assert_eq!(request.method, Some(Method::GET));
    assert_eq!(request.path, Some(String::from("/test")));
}

#[test]
fn request_accept_only_newline() {
    let request = parsed(b"GET /test HTTP/1.1\r\n\r\n").expect("parsing request");

    assert_eq!(request.version, Some(1));
    assert_eq!(request.method, Some(Method::GET));
    assert_eq!(request.path, Some(String::from("/test")));
}

#[test]
fn request_do_not_accept_only_cr() {
    parsed(b"GET /test HTTP/1.1\r").expect_err("parsing request");
}

#[test]
fn request_parse_request_with_headers() {
    let request = parsed(
        b"GET /test HTTP/1.1\r\nContent-Type: application/json\r\nAuthorization: Bearer token\r\n\r\n",
    )
    .expect("parsing request");

    assert_eq!(request.version, Some(1));
    assert_eq!(request.method, Some(Method::GET));
    assert_eq!(request.path, Some(String::from("/test")));
    assert_eq!(request.headers.iter().into_iter().count(), 2);
    assert_eq!(
        request.headers.iter().into_iter().find(|(k, _)| k.as_str() == "Content-Type"),
        Some((&String::from("Content-Type"), &b"application/json"[..].to_vec()))
    );
    assert_eq!(
        request.headers.iter().into_iter().find(|(k, _)| k.as_str() == "Authorization"),
        Some((&String::from("Authorization"), &b"Bearer token"[..].to_vec()))
    );
}

#[test]
fn request_parse_request_with_body() {
    let request = parsed(b"POST /test HTTP/1.1\r\nContent-Length: 11\r\n\r\nHello World")
        .expect("parsing request");

    assert_eq!(request.version, Some(1));
    assert_eq!(request.method, Some(Method::POST));
    assert_eq!(request.path, Some(String::from("/test")));
    assert_eq!(request.headers.iter().into_iter().count(), 1);
    assert_eq!(
        request.headers.iter().into_iter().find(|(k, _)| k.as_str() == "Content-Length"),
        Some((&String::from("Content-Length"), &b"11"[..].to_vec()))
    );
}

#[test]
fn request_parse_request_with_invalid_method() {
    _ = parsed(b"INVALID /test HTTP/1.1\r\n\r\n").is_err();
}

#[test]
fn request_parse_request_with_invalid_uri() {
    _ = parsed(b"GET /test!@# HTTP/1.1\r\n\r\n").is_err();
}

#[test]
fn request_parse_request_with_invalid_version() {
    _ = parsed(b"GET /test HTTP/1.0\r\n\r\n").is_err();
}

#[test]
fn new_request_is_empty() {
    let request = Request::new();
    assert_eq!(request.method, None);
    assert_eq!(request.path, None);
    assert_eq!(request.version, None);
    assert!(request.headers.iter().is_empty());
    assert!(request.body.is_empty());
}

#[test]
fn every_method_is_recovered_with_its_path() {
    let cases: [(&'static [u8], Method); 8] = [
        (b"OPTIONS /a/b?c=d HTTP/1.1\r\n\r\n", Method::OPTIONS),
        (b"GET /a/b?c=d HTTP/1.1\r\n\r\n", Method::GET),
        (b"HEAD /a/b?c=d HTTP/1.1\r\n\r\n", Method::HEAD),
        (b"POST /a/b?c=d HTTP/1.1\r\n\r\n", Method::POST),
        (b"PUT /a/b?c=d HTTP/1.1\r\n\r\n", Method::PUT),
        (b"DELETE /a/b?c=d HTTP/1.1\r\n\r\n", Method::DELETE),
        (b"TRACE /a/b?c=d HTTP/1.1\r\n\r\n", Method::TRACE),
        (b"CONNECT /a/b?c=d HTTP/1.1\r\n\r\n", Method::CONNECT),
    ];
    for (input, method) in cases {
        let (request, result) = parse(input);
        assert_eq!(result, Ok(()));
        assert_eq!(request.method, Some(method));
        assert_eq!(request.path, Some(String::from("/a/b?c=d")));
        assert_eq!(request.version, Some(1));
        assert!(request.headers.iter().is_empty());
        assert!(request.body.is_empty());
    }
}

#[test]
fn method_is_matched_in_any_case() {
    let (request, result) = parse(b"gEt / HTTP/1.1\r\n\r\n");
    assert_eq!(result, Ok(()));
    assert_eq!(request.method, Some(Method::GET));
}

#[test]
fn path_is_kept_as_received() {
    let (request, result) = parse(b"GET /A%20b/C HTTP/1.1\r\n\r\n");
    assert_eq!(result, Ok(()));
    assert_eq!(request.path, Some(String::from("/A%20b/C")));
}

#[test]
fn unknown_method_is_a_method_error() {
    let (request, result) = parse(b"INVALID /test HTTP/1.1\r\n\r\n");
    assert_eq!(result, Err(RequestError::Method));
    assert_eq!(request.method, None);
    assert_eq!(request.path, None);
}

#[test]
fn any_is_no_method_of_a_request() {
    let (_, result) = parse(b"ANY /test HTTP/1.1\r\n\r\n");
    assert_eq!(result, Err(RequestError::Method));
}

#[test]
fn method_with_a_separator_is_a_token_error() {
    let (_, result) = parse(b"GE/T /test HTTP/1.1\r\n\r\n");
    assert_eq!(result, Err(RequestError::Token));
}

#[test]
fn method_without_a_space_is_a_token_error() {
    let (_, result) = parse(b"GET");
    assert_eq!(result, Err(RequestError::Token));
    let (_, result) = parse(b"");
    assert_eq!(result, Err(RequestError::Token));
}

#[test]
fn uri_with_a_byte_outside_its_set_is_a_uri_error() {
    let (request, result) = parse(b"GET /te<st HTTP/1.1\r\n\r\n");
    assert_eq!(result, Err(RequestError::URI));
    assert_eq!(request.method, Some(Method::GET));
    assert_eq!(request.path, None);
}

#[test]
fn empty_or_unterminated_uri_is_a_uri_error() {
    let (_, result) = parse(b"GET  HTTP/1.1\r\n\r\n");
    assert_eq!(result, Err(RequestError::URI));
    let (_, result) = parse(b"GET /test");
    assert_eq!(result, Err(RequestError::URI));
}

#[test]
fn other_versions_are_a_version_error() {
    let (request, result) = parse(b"GET /test HTTP/1.0\r\n\r\n");
    assert_eq!(result, Err(RequestError::Version));
    assert_eq!(request.path, Some(String::from("/test")));
    assert_eq!(request.version, None);
    let (_, result) = parse(b"GET /test HTTP");
    assert_eq!(result, Err(RequestError::Version));
    let (_, result) = parse(b"GET /test  HTTP/1.1\r\n\r\n");
    assert_eq!(result, Err(RequestError::Version));
}

#[test]
fn versions_two_and_three_parse() {
    let (request, result) = parse(b"GET /test HTTP/2\r\n\r\n");
    assert_eq!(result, Ok(()));
    assert_eq!(request.version, Some(2));
    let (request, result) = parse(b"GET /test HTTP/3\n\n");
    assert_eq!(result, Ok(()));
    assert_eq!(request.version, Some(3));
}

#[test]
fn bare_newline_ends_a_line() {
    let (request, result) = parse(b"GET /test HTTP/1.1\nHost: a\n\n");
    assert_eq!(result, Ok(()));
    assert_eq!(request.headers.get("Host"), Ok(&b"a".to_vec()));
}

#[test]
fn request_ended_by_cr_alone_is_a_newline_error() {
    let (request, result) = parse(b"GET /test HTTP/1.1\r");
    assert_eq!(result, Err(RequestError::NewLine));
    assert_eq!(request.version, Some(1));
    let (_, result) = parse(b"GET /test HTTP/1.1\rX");
    assert_eq!(result, Err(RequestError::NewLine));
    let (_, result) = parse(b"GET /test HTTP/1.1");
    assert_eq!(result, Err(RequestError::NewLine));
}

#[test]
fn later_header_of_the_same_name_wins() {
    let (request, result) = parse(b"GET / HTTP/1.1\r\nX-A: first\r\nX-B: other\r\nX-A: second\r\n\r\n");
    assert_eq!(result, Ok(()));
    assert_eq!(request.headers.iter().len(), 2);
    assert_eq!(request.headers.get("X-A"), Ok(&b"second".to_vec()));
    assert_eq!(request.headers.get("X-B"), Ok(&b"other".to_vec()));
}

#[test]
fn header_names_are_not_case_folded() {
    let (request, result) = parse(b"GET / HTTP/1.1\r\nhost: a\r\nHost: b\r\n\r\n");
    assert_eq!(result, Ok(()));
    assert_eq!(request.headers.get("host"), Ok(&b"a".to_vec()));
    assert_eq!(request.headers.get("Host"), Ok(&b"b".to_vec()));
    assert_eq!(request.headers.get("HOST"), Err(HeaderError::NotFound));
}

#[test]
fn headers_come_out_in_ascending_order() {
    let (request, result) = parse(b"GET / HTTP/1.1\r\nb: 2\r\nC: 3\r\na: 1\r\n\r\n");
    assert_eq!(result, Ok(()));
    let names: Vec<String> = request.headers.iter().into_iter().map(|(k, _)| k.clone()).collect();
    assert_eq!(names, vec!["C".to_string(), "a".to_string(), "b".to_string()]);
}

#[test]
fn broken_header_ends_the_block_without_an_error() {
    let (request, result) = parse(b"GET / HTTP/1.1\r\nX-A: 1\r\nbroken\r\nX-B: 2\r\n\r\n");
    assert_eq!(result, Ok(()));
    assert_eq!(request.headers.iter().len(), 1);
    assert_eq!(request.headers.get("X-A"), Ok(&b"1".to_vec()));
    let (request, result) = parse(b"GET / HTTP/1.1\r\nX-A:1\r\n\r\n");
    assert_eq!(result, Ok(()));
    assert!(request.headers.iter().is_empty());
}

#[test]
fn header_value_may_hold_tabs_and_high_bytes() {
    let (request, result) = parse(b"GET / HTTP/1.1\r\nX-A: a\tb\xff\r\n\r\n");
    assert_eq!(result, Ok(()));
    assert_eq!(request.headers.get("X-A"), Ok(&b"a\tb\xff".to_vec()));
    assert_eq!(request.headers.get_str("X-A"), Err(HeaderError::InvalidString));
}

#[test]
fn body_has_the_length_the_header_gives() {
    let (request, result) = parse(b"POST /test HTTP/1.1\r\nContent-Length: 11\r\n\r\nHello World");
    assert_eq!(result, Ok(()));
    assert_eq!(request.body, b"Hello World".to_vec());
    let (request, result) = parse(b"POST /test HTTP/1.1\r\nContent-Length: 5\r\n\r\nHello World");
    assert_eq!(result, Ok(()));
    assert_eq!(request.body, b"Hello".to_vec());
    let (request, result) = parse(b"POST /test HTTP/1.1\r\nContent-Length: 0\r\n\r\n");
    assert_eq!(result, Ok(()));
    assert!(request.body.is_empty());
}

#[test]
fn body_shorter_than_announced_is_incomplete() {
    let (request, result) = parse(b"POST /test HTTP/1.1\r\nContent-Length: 11\r\n\r\nHello");
    assert_eq!(result, Err(RequestError::IncompleteBody));
    assert_eq!(request.headers.get("Content-Length"), Ok(&b"11".to_vec()));
    assert!(request.body.is_empty());
}

#[test]
fn body_without_content_length_is_empty() {
    let (request, result) = parse(b"POST /test HTTP/1.1\r\nHost: a\r\n\r\nHello");
    assert_eq!(result, Ok(()));
    assert!(request.body.is_empty());
}

#[test]
fn content_length_must_be_a_number() {
    let (_, result) = parse(b"POST / HTTP/1.1\r\nContent-Length: abc\r\n\r\n");
    assert_eq!(result, Err(RequestError::HeaderContentLength));
    let (_, result) = parse(b"POST / HTTP/1.1\r\nContent-Length: -1\r\n\r\n");
    assert_eq!(result, Err(RequestError::HeaderContentLength));
    let (_, result) = parse(b"POST / HTTP/1.1\r\nContent-Length: \r\n\r\n");
    assert_eq!(result, Err(RequestError::HeaderContentLength));
    let (_, result) = parse(b"POST / HTTP/1.1\r\nContent-Length: 99999999999999999999999999\r\n\r\n");
    assert_eq!(result, Err(RequestError::HeaderContentLength));
    let (request, result) = parse(b"POST / HTTP/1.1\r\nContent-Length: +2\r\n\r\nhi");
    assert_eq!(result, Ok(()));
    assert_eq!(request.body, b"hi".to_vec());
}

#[test]
fn body_needs_the_blank_line() {
    let (_, result) = parse(b"POST / HTTP/1.1\r\nContent-Length: 2\r\nhi");
    assert_eq!(result, Err(RequestError::NewLine));
}

#[test]
fn parse_headers_reads_up_to_the_blank_line() {
    let mut bytes = Bytes::from_static(b"A: 1\r\nB: 2\r\n\r\nrest");
    let mut headers = RequestHeaders::new();
    assert_eq!(Request::parse_headers(&mut bytes, &mut headers), Ok(()));
    assert_eq!(headers.iter().len(), 2);
    assert_eq!(headers.get("A"), Ok(&b"1".to_vec()));
    assert_eq!(headers.get("B"), Ok(&b"2".to_vec()));
    assert_eq!(&bytes[..], b"\r\nrest");
}

#[test]
fn parse_headers_stops_behind_a_broken_header() {
    let mut bytes = Bytes::from_static(b"A: 1\r\nB:x\r\n");
    let mut headers = RequestHeaders::new();
    assert_eq!(Request::parse_headers(&mut bytes, &mut headers), Ok(()));
    assert_eq!(headers.iter().len(), 1);
    assert_eq!(&bytes[..], b"\r\n");
}

#[test]
fn headers_lookup() {
    let mut headers = RequestHeaders::new();
    assert_eq!(headers.get("a"), Err(HeaderError::NotFound));
    assert_eq!(headers.get_str("a"), Err(HeaderError::NotFound));
    headers.insert("a".to_string(), b"1".to_vec());
    headers.insert("a".to_string(), b"2".to_vec());
    assert_eq!(headers.get("a"), Ok(&b"2".to_vec()));
    assert_eq!(headers.get_str("a"), Ok("2".to_string()));
    assert_eq!(headers.iter().len(), 1);
    headers.insert("b".to_string(), vec![0xc3, 0xa9]);
    assert_eq!(headers.get_str("b"), Ok("\u{e9}".to_string()));
    headers.insert("c".to_string(), vec![0xc3]);
    assert_eq!(headers.get_str("c"), Err(HeaderError::InvalidString));
}

#[test]
fn requests_are_cloned_with_their_headers() {
    let (request, result) = parse(b"POST /c HTTP/1.1\r\nb: 2\r\na: 1\r\nContent-Length: 2\r\n\r\nhi");
    assert_eq!(result, Ok(()));
    let copy = request.clone();
    assert_eq!(copy.method, request.method);
    assert_eq!(copy.path, request.path);
    assert_eq!(copy.version, request.version);
    assert_eq!(copy.body, request.body);
    assert_eq!(copy.headers.iter(), request.headers.iter());
    assert_eq!(copy.headers.iter().len(), 3);
    assert_eq!(copy.headers.get("a"), Ok(&b"1".to_vec()));
}

#[test]
fn method_names() {
    assert_eq!(Method::try_from("get"), Ok(Method::GET));
    assert_eq!(Method::try_from("OPTIONS"), Ok(Method::OPTIONS));
    assert_eq!(Method::try_from("Delete"), Ok(Method::DELETE));
    assert_eq!(Method::try_from("ANY"), Err("invalid method"));
    assert_eq!(Method::try_from("OPTION"), Err("invalid method"));
    assert_eq!(Method::try_from(""), Err("invalid method"));
    assert_eq!(Method::from_token(b"connect"), Some(Method::CONNECT));
    assert_eq!(Method::from_token(b"GETS"), None);
    assert_eq!(Method::OPTIONS.to_string(), "OPTIONS");
    assert_eq!(Method::TRACE.to_string(), "TRACE");
    assert_eq!(Method::ANY.to_string(), "ANY");
}

#[test]
fn error_messages() {
    assert_eq!(RequestError::Method.to_string(), "invalid method");
    assert_eq!(RequestError::HeaderName.to_string(), "invalid header name");
    assert_eq!(RequestError::HeaderValue.to_string(), "invalid header value");
    assert_eq!(RequestError::HeaderContentLength.to_string(), "invalid header body length");
    assert_eq!(RequestError::IncompleteBody.to_string(), "incomplete body");
    assert_eq!(RequestError::Status.to_string(), "invalid status");
    assert_eq!(RequestError::Version.to_string(), "invalid version");
    assert_eq!(RequestError::NewLine.to_string(), "expected newline");
    assert_eq!(RequestError::Space.to_string(), "expected space");
    assert_eq!(RequestError::Token.to_string(), "invalid token");
    assert_eq!(RequestError::URI.to_string(), "invalid uri");
    assert_eq!(RequestError::TooManyHeaders.to_string(), "too many headers");
    assert_eq!(HeaderError::NotFound.to_string(), "header not found");
    assert_eq!(HeaderError::InvalidString.to_string(), "header value is not a valid string");
}
