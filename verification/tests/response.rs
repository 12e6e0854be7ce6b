use rhttp::{ContentType, HttpResponse, Response, StatusCode};

#[test]
fn http_response_build_basic_response() {
    let mut response = HttpResponse::new();
    response.write(b"hi");
    response.set_header("x-some-test-header", "some-value");
    assert_eq!(
        response.build(),
        b"HTTP/1.1 200 OK\r\nContent-Length: 2\r\nContent-Type: text/plain\r\nx-some-test-header: some-value\r\n\r\nhi"
    )
}

#[test]
fn response_build_basic_response() {
    let mut response = Response::new();
    response.write(b"hi");
    response.set_header("x-some-test-header", "some-value");
    assert_eq!(
        response.build(),
        b"HTTP/1.1 200 OK\r\nContent-Length: 2\r\nContent-Type: text/plain\r\nx-some-test-header: some-value\r\n\r\nhi"
    )
}

#[test]
fn empty_response() {
    let response = Response::new();
    println!("{}", std::str::from_utf8(&response.build()).unwrap());
    assert_eq!(
        response.build(),
        b"HTTP/1.1 200 OK\r\nContent-Length: 0\r\nContent-Type: text/plain\r\n\r\n"
    )
}

#[test]
fn response_with_different_status_code() {
    let mut response = Response::new();
    response.status_code(StatusCode::NotFound);
    assert_eq!(
        response.build(),
        b"HTTP/1.1 404 Not Found\r\nContent-Length: 0\r\nContent-Type: text/plain\r\n\r\n"
    )
}

#[test]
fn response_with_different_content_type() {
    let mut response = Response::new();
    response.content_type("application/json");
    assert_eq!(
        response.build(),
        b"HTTP/1.1 200 OK\r\nContent-Length: 0\r\nContent-Type: application/json\r\n\r\n"
    )
}

#[test]
fn response_with_custom_headers() {
    let mut response = Response::new();
    response.set_header("x-custom-header", "custom-value");
    assert_eq!(
        response.build(),
        b"HTTP/1.1 200 OK\r\nContent-Length: 0\r\nContent-Type: text/plain\r\nx-custom-header: custom-value\r\n\r\n"
    )
}

#[test]
fn response_with_body_content() {
    let mut response = Response::new();
    response.write(b"hello");
    assert_eq!(
        response.build(),
        b"HTTP/1.1 200 OK\r\nContent-Length: 5\r\nContent-Type: text/plain\r\n\r\nhello"
    )
}

#[test]
fn modify_response_body() {
    let mut response = Response::new();
    response.write(b"hello");
    response.write(b" world");
    assert_eq!(
        response.build(),
        b"HTTP/1.1 200 OK\r\nContent-Length: 11\r\nContent-Type: text/plain\r\n\r\nhello world"
    )
}

#[test]
fn clear_response_body() {
    let mut response = Response::new();
    response.write(b"hello");
    response.clear();
    assert_eq!(
        response.build(),
        b"HTTP/1.1 200 OK\r\nContent-Length: 0\r\nContent-Type: text/plain\r\n\r\n"
    )
}

#[test]
fn content_types() {
    assert_eq!(ContentType::TextPlain.as_str(), "text/plain");
    assert_eq!(ContentType::ApplicationOctetStream.as_str(), "application/octet-stream");
    assert_eq!(ContentType::Unset.as_str(), "");
}

#[test]
fn response_turns_into_its_bytes() {
    let mut response = Response::new();
    response.write(b"hi");
    let bytes: Vec<u8> = response.into();
    assert_eq!(bytes, b"HTTP/1.1 200 OK\r\nContent-Length: 2\r\nContent-Type: text/plain\r\n\r\nhi".to_vec());
}

#[test]
fn default_response_is_a_new_response() {
    assert_eq!(Response::default().build(), Response::new().build());
}

#[test]
fn empty_content_type_is_sent_as_text_plain() {
    let mut response = Response::new();
    response.content_type("");
    assert_eq!(
        response.build(),
        b"HTTP/1.1 200 OK\r\nContent-Length: 0\r\nContent-Type: text/plain\r\n\r\n"
    )
}

#[test]
fn stored_content_length_is_never_sent() {
    let mut response = Response::new();
    response.set_header("Content-Length", "999");
    response.set_header("Content-Type", "image/png");
    response.write(b"abc");
    assert_eq!(
        response.build(),
        b"HTTP/1.1 200 OK\r\nContent-Length: 3\r\nContent-Type: text/plain\r\n\r\nabc"
    )
}

#[test]
fn headers_are_sent_in_ascending_order() {
    let mut response = Response::new();
    response.set_header("b", "2");
    response.set_header("Zeta", "26");
    response.set_header("a", "1");
    response.set_header("Alpha", "0");
    assert_eq!(
        response.build(),
        b"HTTP/1.1 200 OK\r\nAlpha: 0\r\nContent-Length: 0\r\nContent-Type: text/plain\r\nZeta: 26\r\na: 1\r\nb: 2\r\n\r\n"
    )
}

#[test]
fn set_header_says_whether_it_replaced() {
    let mut response = Response::new();
    assert_eq!(response.set_header("x-a", "1"), None);
    assert_eq!(response.set_header("x-b", "1"), None);
    assert_eq!(response.set_header("x-a", "2"), Some(()));
    assert_eq!(
        response.build(),
        b"HTTP/1.1 200 OK\r\nContent-Length: 0\r\nContent-Type: text/plain\r\nx-a: 2\r\nx-b: 1\r\n\r\n"
    )
}

#[test]
fn setters_chain() {
    let mut response = Response::new();
    response.status_code(StatusCode::Created).content_type("text/html");
    response.write(b"<p>made</p>");
    assert_eq!(
        response.build(),
        b"HTTP/1.1 201 Created\r\nContent-Length: 11\r\nContent-Type: text/html\r\n\r\n<p>made</p>"
    )
}

#[test]
fn long_body_has_its_length_in_decimal() {
    let mut response = Response::new();
    response.write(&[b'x'; 1203]);
    let out = response.build();
    let head = b"HTTP/1.1 200 OK\r\nContent-Length: 1203\r\nContent-Type: text/plain\r\n\r\n";
    assert_eq!(&out[..head.len()], &head[..]);
    assert_eq!(out.len(), head.len() + 1203);
}

#[test]
fn status_without_a_reason_phrase() {
    let mut response = Response::new();
    response.status_code(StatusCode::Unknown(799));
    assert_eq!(
        response.build(),
        b"HTTP/1.1 799 \r\nContent-Length: 0\r\nContent-Type: text/plain\r\n\r\n"
    )
}

#[test]
fn round_trip_through_a_client() {
    let mut response = Response::new();
    response.write(b"hi");
    response.set_header("x-test", "v");
    let out = response.build();

    let split = out.windows(4).position(|w| w == b"\r\n\r\n").expect("a blank line");
    let head = std::str::from_utf8(&out[..split]).expect("a text head");
    let body = &out[split + 4..];
    let mut lines = head.split("\r\n");
    let status: Vec<&str> = lines.next().expect("a status line").splitn(3, ' ').collect();
    assert_eq!(status, vec!["HTTP/1.1", "200", "OK"]);
    let headers: Vec<(&str, &str)> = lines.map(|l| l.split_once(": ").expect("a header")).collect();
    assert!(headers.contains(&("Content-Length", "2")));
    assert!(headers.contains(&("x-test", "v")));
    assert_eq!(body, b"hi");
}
