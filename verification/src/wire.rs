//! The grammar of a request on the wire, as functions on a byte buffer and a
//! position in it.

use vstd::prelude::*;
use crate::error::RequestError;
use crate::method::Method;
use crate::ordered::{lookup, sorted_insert};
use crate::text::{ascii_chars, decimal_usize, is_ascii_bytes};
use crate::tokens::{
    header_name_byte, header_value_byte, is_header_name_token, is_header_value_token, is_token,
    is_uri_token, token_byte, uri_byte,
};

verus! {

/// The fields that are read byte by byte up to a delimiter.
#[derive(Debug, Clone, Copy, PartialEq, Eq, Structural)]
pub enum Field {
    Method,
    Uri,
    HeaderName,
    HeaderValue,
}

impl Field {
    /// `b` is the delimiter that ends the field: a space after the method and
    /// the URI, a colon after a header name, `\r` or `\n` after a header value.
    pub open spec fn ends(self, b: u8) -> bool {
        match self {
            Field::Method => b == 32,
            Field::Uri => b == 32,
            Field::HeaderName => b == 58,
            Field::HeaderValue => b == 13 || b == 10,
        }
    }

    /// `b` may occur in the field.
    pub open spec fn admits(self, b: u8) -> bool {
        match self {
            Field::Method => token_byte(b),
            Field::Uri => uri_byte(b),
            Field::HeaderName => header_name_byte(b),
            Field::HeaderValue => header_value_byte(b),
        }
    }
}

/// The index of the delimiter that ends the field starting at `i`: the first
/// delimiter from `i` on, provided every byte before it may occur in the field.
pub open spec fn field_end(s: Seq<u8>, field: Field, i: int) -> Option<int>
    decreases s.len() - i,
{
    if i < 0 || i >= s.len() {
        None
    } else if field.ends(s[i]) {
        Some(i)
    } else if !field.admits(s[i]) {
        None
    } else {
        field_end(s, field, i + 1)
    }
}

/// What `field_end` finds: a delimiter in range with only admitted bytes,
/// none of them a delimiter, before it.
pub proof fn lemma_field_end(s: Seq<u8>, field: Field, i: int)
    requires
        0 <= i,
    ensures
        field_end(s, field, i) matches Some(e) ==> {
            &&& i <= e < s.len()
            &&& field.ends(s[e])
            &&& forall|j: int| i <= j < e ==> field.admits(#[trigger] s[j]) && !field.ends(s[j])
        },
    decreases s.len() - i,
{
    if i < s.len() && !field.ends(s[i]) && field.admits(s[i]) {
        lemma_field_end(s, field, i + 1);
    }
}

/// A field that holds only admitted bytes and is followed by its delimiter
/// ends at that delimiter.
pub proof fn lemma_field_end_found(s: Seq<u8>, field: Field, i: int, e: int)
    requires
        0 <= i <= e < s.len(),
        field.ends(s[e]),
        forall|j: int| i <= j < e ==> field.admits(#[trigger] s[j]) && !field.ends(s[j]),
    ensures
        field_end(s, field, i) == Some(e),
    decreases e - i,
{
    if i < e {
        assert(field.admits(s[i]) && !field.ends(s[i]));
        lemma_field_end_found(s, field, i + 1, e);
    }
}

/// Finds the delimiter that ends the field starting at `start`.
pub fn find_field_end(buf: &[u8], field: Field, start: usize) -> (r: Option<usize>)
    ensures
        match r {
            Some(e) => field_end(buf@, field, start as int) == Some(e as int) && start <= e
                < buf.len(),
            None => field_end(buf@, field, start as int) is None,
        },
{
    if start > buf.len() {
        return None;
    }
    let mut i: usize = start;
    while i < buf.len()
        invariant
            start <= i <= buf.len(),
            field_end(buf@, field, start as int) == field_end(buf@, field, i as int),
        decreases buf.len() - i,
    {
        let b = buf[i];
        let (ends, admits) = match field {
            Field::Method => (b == 32, is_token(b)),
            Field::Uri => (b == 32, is_uri_token(b)),
            Field::HeaderName => (b == 58, is_header_name_token(b)),
            Field::HeaderValue => (b == 13 || b == 10, is_header_value_token(b)),
        };
        if ends {
            return Some(i);
        } else if !admits {
            return None;
        }
        i += 1;
    }
    None
}

/// The index after the line terminator at `i`: `\n`, or `\r\n`.
pub open spec fn line_end(s: Seq<u8>, i: int) -> Option<int> {
    if i < 0 || i >= s.len() {
        None
    } else if s[i] == 10 {
        Some(i + 1)
    } else if s[i] == 13 && i + 1 < s.len() && s[i + 1] == 10 {
        Some(i + 2)
    } else {
        None
    }
}

/// Where reading stops when no line terminator stands at `i`: after the byte
/// that was read in place of it, and after the byte that follows a `\r`.
pub open spec fn line_stop(s: Seq<u8>, i: int) -> int {
    if i >= s.len() {
        i
    } else if s[i] == 13 && i + 1 < s.len() {
        i + 2
    } else {
        i + 1
    }
}

/// Reads the line terminator at `i`: `Ok` with the index after it, or `Err`
/// with the index at which reading stopped.
pub fn read_line_end(buf: &[u8], i: usize) -> (r: Result<usize, usize>)
    ensures
        match r {
            Ok(n) => line_end(buf@, i as int) == Some(n as int) && n <= buf.len(),
            Err(at) => line_end(buf@, i as int) is None && at == line_stop(buf@, i as int),
        },
        r matches Err(at) ==> i <= at && (i <= buf.len() ==> at <= buf.len()),
{
    if i >= buf.len() {
        Err(i)
    } else if buf[i] == 10 {
        Ok(i + 1)
    } else if buf[i] == 13 {
        if i + 1 < buf.len() {
            if buf[i + 1] == 10 {
                Ok(i + 2)
            } else {
                Err(i + 2)
            }
        } else {
            Err(i + 1)
        }
    } else {
        Err(i + 1)
    }
}

/// The bytes `HTTP/`.
pub open spec fn http_word() -> Seq<u8> {
    seq![72u8, 84u8, 84u8, 80u8, 47u8]
}

/// `word` stands in `s` at `i`.
pub open spec fn stands_at(s: Seq<u8>, i: int, word: Seq<u8>) -> bool {
    0 <= i && i + word.len() <= s.len() && s.subrange(i, i + word.len()) == word
}

/// The protocol version written at `i`, and the index after it: 1 for
/// `HTTP/1.1`, 2 for `HTTP/2`, 3 for `HTTP/3`.
pub open spec fn version_at(s: Seq<u8>, i: int) -> Option<(u8, int)> {
    if stands_at(s, i, http_word() + seq![49u8, 46u8, 49u8]) {
        Some((1u8, i + 8))
    } else if stands_at(s, i, http_word().push(50u8)) {
        Some((2u8, i + 6))
    } else if stands_at(s, i, http_word().push(51u8)) {
        Some((3u8, i + 6))
    } else {
        None
    }
}

/// Reads the protocol version at `i`.
pub fn read_version(buf: &[u8], i: usize) -> (r: Option<(u8, usize)>)
    ensures
        match r {
            Some((v, n)) => version_at(buf@, i as int) == Some((v, n as int)) && n <= buf.len(),
            None => version_at(buf@, i as int) is None,
        },
{
    let ghost s = buf@;
    let ghost v1 = http_word() + seq![49u8, 46u8, 49u8];
    let ghost v2 = http_word().push(50u8);
    let ghost v3 = http_word().push(51u8);
    if i > buf.len() || buf.len() - i < 6 {
        return None;
    }
    let word = buf[i] == 72 && buf[i + 1] == 84 && buf[i + 2] == 84 && buf[i + 3] == 80 && buf[i
        + 4] == 47;
    if !word {
        proof {
            if stands_at(s, i as int, v1) {
                let w = s.subrange(i as int, i + 8);
                assert(w[0] == v1[0] && w[1] == v1[1] && w[2] == v1[2] && w[3] == v1[3] && w[4]
                    == v1[4]);
            }
            if stands_at(s, i as int, v2) {
                let w = s.subrange(i as int, i + 6);
                assert(w[0] == v2[0] && w[1] == v2[1] && w[2] == v2[2] && w[3] == v2[3] && w[4]
                    == v2[4]);
            }
            if stands_at(s, i as int, v3) {
                let w = s.subrange(i as int, i + 6);
                assert(w[0] == v3[0] && w[1] == v3[1] && w[2] == v3[2] && w[3] == v3[3] && w[4]
                    == v3[4]);
            }
        }
        return None;
    }
    proof {
        if stands_at(s, i as int, v1) {
            let w = s.subrange(i as int, i + 8);
            assert(w[5] == v1[5] && w[6] == v1[6] && w[7] == v1[7]);
        }
        if stands_at(s, i as int, v2) {
            let w = s.subrange(i as int, i + 6);
            assert(w[5] == v2[5]);
        }
        if stands_at(s, i as int, v3) {
            let w = s.subrange(i as int, i + 6);
            assert(w[5] == v3[5]);
        }
    }
    if buf[i + 5] == 49 {
        if buf.len() - i >= 8 && buf[i + 6] == 46 && buf[i + 7] == 49 {
            assert(s.subrange(i as int, i + 8) =~= v1);
            Some((1, i + 8))
        } else {
            None
        }
    } else if buf[i + 5] == 50 {
        assert(s.subrange(i as int, i + 6) =~= v2);
        Some((2, i + 6))
    } else if buf[i + 5] == 51 {
        assert(s.subrange(i as int, i + 6) =~= v3);
        Some((3, i + 6))
    } else {
        None
    }
}

/// What reading one header at some index comes to.
pub enum HeaderStep {
    /// A header `name: value` and its line terminator were read; `next` is
    /// the index after them.
    Parsed { name: Seq<u8>, value: Seq<u8>, next: int },
    /// No header stands there; reading stopped at index `at`.
    Stopped { at: int },
}

/// Reads one header at `i`: a name up to a colon, one space with at least one
/// byte after it, a value up to `\r` or `\n`, and a line terminator.
///
/// Where no name stands at `i` nothing is read, so reading stops at `i`
/// itself: this is how the blank line after the last header ends the block.
/// Past the name, reading stops behind what was read of the broken header.
pub open spec fn header_at(s: Seq<u8>, i: int) -> HeaderStep {
    match field_end(s, Field::HeaderName, i) {
        None => HeaderStep::Stopped { at: i },
        Some(colon) => {
            if colon + 1 >= s.len() {
                HeaderStep::Stopped { at: colon + 1 }
            } else if s[colon + 1] != 32 || colon + 2 >= s.len() {
                HeaderStep::Stopped { at: colon + 2 }
            } else {
                match field_end(s, Field::HeaderValue, colon + 2) {
                    None => HeaderStep::Stopped { at: colon + 2 },
                    Some(end) => match line_end(s, end) {
                        None => HeaderStep::Stopped { at: line_stop(s, end) },
                        Some(next) => HeaderStep::Parsed {
                            name: s.subrange(i, colon),
                            value: s.subrange(colon + 2, end),
                            next,
                        },
                    },
                }
            }
        },
    }
}

/// A header that was read lies within the buffer, ends after `i`, and has an
/// ASCII name.
pub proof fn lemma_header_at(s: Seq<u8>, i: int)
    requires
        0 <= i <= s.len(),
    ensures
        match header_at(s, i) {
            HeaderStep::Parsed { name, value, next } => i < next <= s.len() && is_ascii_bytes(
                name,
            ),
            HeaderStep::Stopped { at } => i <= at <= s.len(),
        },
{
    lemma_field_end(s, Field::HeaderName, i);
    match field_end(s, Field::HeaderName, i) {
        None => {},
        Some(colon) => {
            lemma_field_end(s, Field::HeaderValue, colon + 2);
            let name = s.subrange(i, colon);
            assert forall|j: int| 0 <= j < name.len() implies #[trigger] name[j] < 0x80 by {
                assert(Field::HeaderName.admits(s[i + j]));
            }
        },
    }
}

/// The headers after reading the block that starts at `i` into `headers`, and
/// the index at which reading stopped. Headers are read one after another and
/// stored under their names, a later one in place of an earlier one of the
/// same name, until no further header can be read; that is never an error.
pub open spec fn header_block(s: Seq<u8>, i: int, headers: Seq<(Seq<char>, Seq<u8>)>) -> (
    Seq<(Seq<char>, Seq<u8>)>,
    int,
)
    decreases s.len() - i,
{
    if 0 <= i <= s.len() {
        match header_at(s, i) {
            HeaderStep::Parsed { name, value, next } => {
                proof {
                    lemma_header_at(s, i);
                }
                header_block(s, next, sorted_insert(headers, ascii_chars(name), value))
            },
            HeaderStep::Stopped { at } => (headers, at),
        }
    } else {
        (headers, i)
    }
}

/// The name of the header that gives the length of the body.
pub open spec fn content_length_name() -> Seq<char> {
    "Content-Length"@
}

/// The body that follows the header block, which ended at `i`. Without a
/// `Content-Length` header it is empty and nothing more is read. With one,
/// the header's value is a decimal number `n`, a line terminator stands at
/// `i`, and the body is the `n` bytes after it.
pub open spec fn body_at(s: Seq<u8>, i: int, headers: Seq<(Seq<char>, Seq<u8>)>) -> Result<
    Seq<u8>,
    RequestError,
> {
    match lookup(headers, content_length_name()) {
        None => Ok(Seq::<u8>::empty()),
        Some(value) => match decimal_usize(value) {
            None => Err(RequestError::HeaderContentLength),
            Some(n) => match line_end(s, i) {
                None => Err(RequestError::NewLine),
                Some(start) => if s.len() - start < n {
                    Err(RequestError::IncompleteBody)
                } else {
                    Ok(s.subrange(start, start + n))
                },
            },
        },
    }
}

/// The method at the start of the buffer, and the index after the space that
/// follows it.
pub open spec fn method_at(s: Seq<u8>) -> Result<(Method, int), RequestError> {
    match field_end(s, Field::Method, 0) {
        None => Err(RequestError::Token),
        Some(end) => match Method::named(s.subrange(0, end)) {
            None => Err(RequestError::Method),
            Some(method) => Ok((method, end + 1)),
        },
    }
}

/// The URI at `i`, which is not empty, and the index after the space that
/// follows it.
pub open spec fn uri_at(s: Seq<u8>, i: int) -> Result<(Seq<u8>, int), RequestError> {
    match field_end(s, Field::Uri, i) {
        None => Err(RequestError::URI),
        Some(end) => if end == i {
            Err(RequestError::URI)
        } else {
            Ok((s.subrange(i, end), end + 1))
        },
    }
}

} // verus!
