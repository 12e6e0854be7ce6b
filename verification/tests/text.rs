use rhttp::text::{append_bytes, order_bytes, parse_decimal, push_decimal, to_chars, ByteOrder};

#[test]
fn bytes_are_ordered_lexicographically() {
    assert_eq!(order_bytes(b"", b""), ByteOrder::Equal);
    assert_eq!(order_bytes(b"abc", b"abc"), ByteOrder::Equal);
    assert_eq!(order_bytes(b"", b"a"), ByteOrder::Less);
    assert_eq!(order_bytes(b"ab", b"abc"), ByteOrder::Less);
    assert_eq!(order_bytes(b"abc", b"ab"), ByteOrder::Greater);
    assert_eq!(order_bytes(b"abd", b"abc"), ByteOrder::Greater);
    assert_eq!(order_bytes(b"Z", b"a"), ByteOrder::Less);
    assert_eq!(order_bytes(b"b", b"abc"), ByteOrder::Greater);
    assert_eq!(order_bytes(b"\x7f", b"\x80"), ByteOrder::Less);
}

#[test]
fn numbers_are_written_in_decimal() {
    let cases: [(usize, &str); 7] =
        [(0, "0"), (7, "7"), (10, "10"), (99, "99"), (100, "100"), (404, "404"), (65535, "65535")];
    for (n, digits) in cases {
        let mut out = b"n=".to_vec();
        push_decimal(&mut out, n);
        assert_eq!(out, format!("n={}", digits).into_bytes());
    }
    let mut out = Vec::new();
    push_decimal(&mut out, usize::MAX);
    assert_eq!(out, usize::MAX.to_string().into_bytes());
}

#[test]
fn decimal_numbers_are_read() {
    assert_eq!(parse_decimal(b"0"), Some(0));
    assert_eq!(parse_decimal(b"11"), Some(11));
    assert_eq!(parse_decimal(b"007"), Some(7));
    assert_eq!(parse_decimal(b"+42"), Some(42));
    assert_eq!(parse_decimal(usize::MAX.to_string().as_bytes()), Some(usize::MAX));
    assert_eq!(parse_decimal(b""), None);
    assert_eq!(parse_decimal(b"+"), None);
    assert_eq!(parse_decimal(b"-1"), None);
    assert_eq!(parse_decimal(b"++1"), None);
    assert_eq!(parse_decimal(b" 1"), None);
    assert_eq!(parse_decimal(b"1 "), None);
    assert_eq!(parse_decimal(b"12a"), None);
    assert_eq!(parse_decimal(b"1.5"), None);
    assert_eq!(parse_decimal(b"99999999999999999999999999999999"), None);
    let mut over = usize::MAX.to_string().into_bytes();
    over.push(b'0');
    assert_eq!(parse_decimal(&over), None);
}

#[test]
fn written_numbers_are_read_back() {
    for n in [0usize, 1, 9, 10, 11, 255, 1024, 123456789] {
        let mut out = Vec::new();
        push_decimal(&mut out, n);
        assert_eq!(parse_decimal(&out), Some(n));
    }
}

#[test]
fn bytes_are_appended() {
    let mut out = b"ab".to_vec();
    append_bytes(&mut out, b"cd");
    append_bytes(&mut out, b"");
    assert_eq!(out, b"abcd".to_vec());
}

#[test]
fn text_is_taken_apart_into_characters() {
    assert_eq!(to_chars("a/\u{e9}"), vec!['a', '/', '\u{e9}']);
    assert_eq!(to_chars(""), Vec::<char>::new());
}
