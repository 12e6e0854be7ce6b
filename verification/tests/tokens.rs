use rhttp::tokens::{is_header_name_token, is_header_value_token, is_token, is_uri_token};

#[test]
fn token_bytes() {
    for b in b"AZaz09!#$%&'*+-.^_`|~\"".iter() {
        assert!(is_token(*b), "{}", *b as char);
    }
    for b in b"(),/:;<=>?@[\\]{} \t\r\n\x00\x1f\x7f\x80\xff".iter() {
        assert!(!is_token(*b), "{}", *b);
    }
}

#[test]
fn uri_bytes() {
    for b in b"AZaz09!#$%&'*+-.^_`|~/?:@=,;()[]".iter() {
        assert!(is_uri_token(*b), "{}", *b as char);
    }
    for b in b"<> \t\r\n\x00\x7f\x80\xff".iter() {
        assert!(!is_uri_token(*b), "{}", *b);
    }
}

#[test]
fn header_name_bytes() {
    for b in b"AZaz09!#$%&_^`|~/'()*+,-.".iter() {
        assert!(is_header_name_token(*b), "{}", *b as char);
    }
    for b in b":;<=>?@[\\]{}\" \t\r\n\x00\x7f\x80".iter() {
        assert!(!is_header_name_token(*b), "{}", *b);
    }
}

#[test]
fn header_value_bytes() {
    for b in b"\t !#$%&'*+-.^_`|~/:;@[](),?=\x80\xff".iter() {
        assert!(is_header_value_token(*b), "{}", *b as char);
    }
    for b in [0x00u8, 0x1f, 0x7f, b'\r', b'\n'] {
        assert!(!is_header_value_token(b), "{}", b);
    }
}
