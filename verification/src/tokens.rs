//! Byte classes of the HTTP/1.1 grammar.

use vstd::prelude::*;

verus! {

/// The separator bytes `(),/:;<=>?@[\]{}`, which may not occur in a token.
pub open spec fn is_separator(b: u8) -> bool {
    b == 0x28 || b == 0x29 || b == 0x2c || b == 0x2f || (0x3a <= b && b <= 0x40) || (0x5b <= b && b
        <= 0x5d) || b == 0x7b || b == 0x7d
}

/// Token bytes: visible ASCII (`0x21..=0x7e`) other than the separators.
pub open spec fn token_byte(b: u8) -> bool {
    0x21 <= b && b <= 0x7e && !is_separator(b)
}

/// URI bytes: visible ASCII other than `<` and `>`.
pub open spec fn uri_byte(ch: u8) -> bool {
    0x21 <= ch && ch <= 0x7e && ch != 0x3c && ch != 0x3e
}

/// Header name bytes: letters, digits, `!`, `#` to `/`, `^`, `_`, `` ` ``, `|` and `~`.
/// The colon that ends a name is not among them.
pub open spec fn header_name_byte(ch: u8) -> bool {
    ch == 0x21 || (0x23 <= ch && ch <= 0x2f) || (0x30 <= ch && ch <= 0x39) || (0x41 <= ch && ch
        <= 0x5a) || (0x5e <= ch && ch <= 0x7a) || ch == 0x7c || ch == 0x7e
}

/// Header value bytes: horizontal tab and every byte from space up, except DEL.
pub open spec fn header_value_byte(ch: u8) -> bool {
    ch == 0x09 || (0x20 <= ch && ch != 0x7f)
}

/// Determines if a byte may occur in a token such as the request method.
#[verifier::when_used_as_spec(token_byte)]
pub fn is_token(b: u8) -> (r: bool)
    ensures
        r == token_byte(b),
{
    if b < 0x21 || b > 0x7e {
        false
    } else {
        !(b == 0x28 || b == 0x29 || b == 0x2c || b == 0x2f || (0x3a <= b && b <= 0x40) || (0x5b
            <= b && b <= 0x5d) || b == 0x7b || b == 0x7d)
    }
}

/// Determines if a byte may occur in a request URI.
#[verifier::when_used_as_spec(uri_byte)]
pub fn is_uri_token(ch: u8) -> (r: bool)
    ensures
        r == uri_byte(ch),
{
    0x21 <= ch && ch <= 0x7e && ch != 0x3c && ch != 0x3e
}

/// Determines if a byte may occur in a header name.
#[verifier::when_used_as_spec(header_name_byte)]
pub fn is_header_name_token(ch: u8) -> (r: bool)
    ensures
        r == header_name_byte(ch),
{
    ch == 0x21 || (0x23 <= ch && ch <= 0x2f) || (0x30 <= ch && ch <= 0x39) || (0x41 <= ch && ch
        <= 0x5a) || (0x5e <= ch && ch <= 0x7a) || ch == 0x7c || ch == 0x7e
}

/// Determines if a byte may occur in a header value.
#[verifier::when_used_as_spec(header_value_byte)]
pub fn is_header_value_token(ch: u8) -> (r: bool)
    ensures
        r == header_value_byte(ch),
{
    ch == 0x09 || (0x20 <= ch && ch != 0x7f)
}

} // verus!
