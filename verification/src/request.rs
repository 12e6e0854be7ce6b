//! Requests, and the parser that reads one from a buffer.

use vstd::prelude::*;
use vstd::slice::*;
use vstd::utf8::*;
use bytes::Bytes;
use crate::buffer::{bytes_advance, bytes_as_slice, bytes_contents};
use crate::error::{HeaderError, RequestError};
use crate::method::Method;
use crate::ordered::{
    keys_ascend, lemma_map_values, lemma_map_values_insert, lookup, map_values, sorted_insert,
    OrderedMap,
};
use crate::text::{ascii_chars, ascii_string, parse_decimal, string_from_utf8};
use crate::wire::{
    body_at, field_end, find_field_end, header_at, header_block, lemma_field_end,
    lemma_header_at, line_end, method_at, read_line_end, read_version, uri_at, version_at, Field,
    HeaderStep,
};

verus! {

/// The headers of a request: names as received, without case folding, and
/// the raw bytes of their values. Of two headers with one name the later
/// stays.
#[derive(Debug, Clone)]
pub struct RequestHeaders {
    headers: OrderedMap<Vec<u8>>,
}

/// The bytes of a value.
pub open spec fn bytes_of() -> spec_fn(Vec<u8>) -> Seq<u8> {
    |v: Vec<u8>| v@
}

impl View for RequestHeaders {
    type V = Seq<(Seq<char>, Seq<u8>)>;

    /// The headers as `(name, value)`, in ascending order of the names.
    closed spec fn view(&self) -> Seq<(Seq<char>, Seq<u8>)> {
        map_values(self.headers@, bytes_of())
    }
}

impl Default for RequestHeaders {
    /// No headers.
    fn default() -> (h: Self)
        ensures
            h@ == Seq::<(Seq<char>, Seq<u8>)>::empty(),
    {
        RequestHeaders::new()
    }
}

impl RequestHeaders {
    /// No headers.
    pub fn new() -> (h: Self)
        ensures
            h@ == Seq::<(Seq<char>, Seq<u8>)>::empty(),
    {
        let h = RequestHeaders { headers: OrderedMap::new() };
        assert(h@ =~= Seq::<(Seq<char>, Seq<u8>)>::empty());
        h
    }

    /// The headers as `(name, value)`, in ascending order of the names, none
    /// of which occurs twice.
    pub fn iter(&self) -> (r: Vec<(&String, &Vec<u8>)>)
        ensures
            r@.len() == self@.len(),
            forall|i: int|
                0 <= i < r@.len() ==> (#[trigger] r@[i]).0@ == self@[i].0 && r@[i].1@
                    == self@[i].1,
            keys_ascend(self@),
    {
        let n = self.headers.len();
        let mut r: Vec<(&String, &Vec<u8>)> = Vec::new();
        let mut i: usize = 0;
        while i < n
            invariant
                i <= n,
                n == self.headers@.len(),
                r@.len() == i,
                forall|j: int|
                    0 <= j < i ==> (#[trigger] r@[j]).0@ == self@[j].0 && r@[j].1@ == self@[j].1,
            decreases n - i,
        {
            match self.headers.entry(i) {
                Some(e) => {
                    r.push(e);
                },
                None => {},
            }
            i += 1;
        }
        proof {
            lemma_map_values(self.headers@, bytes_of(), Seq::empty());
        }
        r
    }

    /// The value of the header `key`, as text.
    pub fn get_str(&self, key: &str) -> (r: Result<String, HeaderError>)
        ensures
            match lookup(self@, key@) {
                None => r == Err::<String, HeaderError>(HeaderError::NotFound),
                Some(v) => if valid_utf8(v) {
                    r matches Ok(s) && s@ == decode_utf8(v)
                } else {
                    r == Err::<String, HeaderError>(HeaderError::InvalidString)
                },
            },
    {
        match self.get(key) {
            Err(e) => Err(e),
            Ok(v) => match string_from_utf8(v.as_slice()) {
                Some(s) => Ok(s),
                None => Err(HeaderError::InvalidString),
            },
        }
    }

    /// The value of the header `key`.
    pub fn get(&self, key: &str) -> (r: Result<&Vec<u8>, HeaderError>)
        ensures
            match lookup(self@, key@) {
                None => r == Err::<&Vec<u8>, HeaderError>(HeaderError::NotFound),
                Some(v) => r matches Ok(found) && found@ == v,
            },
    {
        proof {
            lemma_map_values(self.headers@, bytes_of(), key@);
        }
        match self.headers.get(key) {
            Some(v) => Ok(v),
            None => Err(HeaderError::NotFound),
        }
    }

    /// Stores `value` under `name`, in place of what was stored there.
    pub fn insert(&mut self, name: String, value: Vec<u8>)
        ensures
            final(self)@ == sorted_insert(old(self)@, name@, value@),
    {
        proof {
            lemma_map_values_insert(self.headers@, bytes_of(), name@, value);
        }
        self.headers.insert(name, value);
    }
}

/// A request: what was parsed of it so far, or all of it.
#[derive(Debug, Clone)]
pub struct Request {
    pub method: Option<Method>,
    /// The path as received: neither its case nor its percent-encoding is touched.
    pub path: Option<String>,
    /// 1 for HTTP/1.1, 2 for HTTP/2, 3 for HTTP/3.
    pub version: Option<u8>,
    pub headers: RequestHeaders,
    pub body: Vec<u8>,
}

/// A request as plain values.
pub struct RequestView {
    pub method: Option<Method>,
    pub path: Option<Seq<char>>,
    pub version: Option<u8>,
    pub headers: Seq<(Seq<char>, Seq<u8>)>,
    pub body: Seq<u8>,
}

impl RequestView {
    /// A request of which nothing is known yet.
    pub open spec fn empty() -> RequestView {
        RequestView {
            method: None,
            path: None,
            version: None,
            headers: Seq::empty(),
            body: Seq::empty(),
        }
    }
}

impl View for Request {
    type V = RequestView;

    open spec fn view(&self) -> RequestView {
        RequestView {
            method: self.method,
            path: match self.path {
                Some(p) => Some(p@),
                None => None,
            },
            version: self.version,
            headers: self.headers@,
            body: self.body@,
        }
    }
}

/// What parsing the buffer `s` into the request `before` gives: the request
/// afterwards, and the result. The request line is read first: the method,
/// the URI, the version, a line terminator. Then come the headers, which are
/// added to those the request has, and the body. Each part is stored as soon
/// as it was read, so that on an error the request holds the parts before
/// the one that failed.
pub open spec fn parse_outcome(before: RequestView, s: Seq<u8>) -> (
    RequestView,
    Result<(), RequestError>,
) {
    match method_at(s) {
        Err(e) => (before, Err(e)),
        Ok((method, i1)) => {
            let r1 = RequestView { method: Some(method), ..before };
            match uri_at(s, i1) {
                Err(e) => (r1, Err(e)),
                Ok((uri, i2)) => {
                    let r2 = RequestView { path: Some(ascii_chars(uri)), ..r1 };
                    match version_at(s, i2) {
                        None => (r2, Err(RequestError::Version)),
                        Some((version, i3)) => {
                            let r3 = RequestView { version: Some(version), ..r2 };
                            match line_end(s, i3) {
                                None => (r3, Err(RequestError::NewLine)),
                                Some(i4) => {
                                    let (headers, i5) = header_block(s, i4, before.headers);
                                    let r4 = RequestView { headers, ..r3 };
                                    match body_at(s, i5, headers) {
                                        Err(e) => (r4, Err(e)),
                                        Ok(body) => (RequestView { body, ..r4 }, Ok(())),
                                    }
                                },
                            }
                        },
                    }
                },
            }
        },
    }
}

impl Default for Request {
    /// A request of which nothing is known yet.
    fn default() -> (r: Self)
        ensures
            r@ == RequestView::empty(),
    {
        Request::new()
    }
}

impl Request {
    /// A request of which nothing is known yet.
    pub fn new() -> (r: Self)
        ensures
            r@ == RequestView::empty(),
    {
        Request {
            method: None,
            path: None,
            version: None,
            headers: RequestHeaders::new(),
            body: Vec::new(),
        }
    }

    /// Parses the request in `buf` into `self`.
    pub fn parse(&mut self, buf: Bytes) -> (r: Result<(), RequestError>)
        ensures
            (final(self)@, r) == parse_outcome(old(self)@, bytes_contents(buf)),
    {
        let bytes = bytes_as_slice(&buf);
        let (method, i1) = match Request::parse_token(bytes) {
            Ok(found) => found,
            Err(e) => {
                return Err(e);
            },
        };
        self.method = Some(method);
        let (path, i2) = match Request::parse_uri(bytes, i1) {
            Ok(found) => found,
            Err(e) => {
                return Err(e);
            },
        };
        self.path = Some(path);
        let (version, i3) = match Request::parse_version(bytes, i2) {
            Ok(found) => found,
            Err(e) => {
                return Err(e);
            },
        };
        self.version = Some(version);
        let i4 = match Request::parse_new_line(bytes, i3) {
            Ok(next) => next,
            Err(e) => {
                return Err(e);
            },
        };
        let i5 = Request::read_headers(bytes, i4, &mut self.headers);
        let body = match Request::parse_body(bytes, i5, &self.headers) {
            Ok(body) => body,
            Err(e) => {
                return Err(e);
            },
        };
        self.body = body;
        Ok(())
    }

    /// Reads headers from the front of `bytes` into `headers` until no
    /// further header can be read, and moves `bytes` past what was read.
    /// This never fails.
    pub fn parse_headers(bytes: &mut Bytes, headers: &mut RequestHeaders) -> (r: Result<
        (),
        RequestError,
    >)
        ensures
            r is Ok,
            final(headers)@ == header_block(bytes_contents(*old(bytes)), 0, old(headers)@).0,
            bytes_contents(*final(bytes)) == bytes_contents(*old(bytes)).skip(
                header_block(bytes_contents(*old(bytes)), 0, old(headers)@).1,
            ),
    {
        let read = Request::read_headers(bytes_as_slice(bytes), 0, headers);
        bytes_advance(bytes, read);
        Ok(())
    }

    /// Reads the header block of `buf` that starts at `start` into `headers`.
    /// Returns the index at which reading stopped.
    fn read_headers(buf: &[u8], start: usize, headers: &mut RequestHeaders) -> (end: usize)
        requires
            start <= buf.len(),
        ensures
            (final(headers)@, end as int) == header_block(buf@, start as int, old(headers)@),
            end <= buf.len(),
    {
        let mut i: usize = start;
        loop
            invariant_except_break
                i <= buf.len(),
                header_block(buf@, start as int, old(headers)@) == header_block(
                    buf@,
                    i as int,
                    headers@,
                ),
            ensures
                (headers@, i as int) == header_block(buf@, start as int, old(headers)@),
                i <= buf.len(),
            decreases buf.len() - i,
        {
            proof {
                lemma_header_at(buf@, i as int);
            }
            match Request::parse_header(buf, i) {
                Ok((name, value, next)) => {
                    headers.insert(name, value);
                    i = next;
                },
                Err(at) => {
                    i = at;
                    break ;
                },
            }
        }
        i
    }

    /// Reads one header at `i`: `Ok` with its name, its value and the index
    /// after its line terminator, or `Err` with the index at which reading
    /// stopped.
    fn parse_header(buf: &[u8], i: usize) -> (r: Result<(String, Vec<u8>, usize), usize>)
        requires
            i <= buf.len(),
        ensures
            match r {
                Ok((name, value, next)) => header_at(buf@, i as int) matches HeaderStep::Parsed {
                    name: n,
                    value: v,
                    next: x,
                } && name@ == ascii_chars(n) && value@ == v && next == x,
                Err(at) => header_at(buf@, i as int) == (HeaderStep::Stopped { at: at as int }),
            },
    {
        proof {
            lemma_header_at(buf@, i as int);
        }
        let (name, after_name) = match Request::parse_header_name(buf, i) {
            Ok(found) => found,
            Err(_) => {
                return Err(i);
            },
        };
        let after_space = match Request::parse_space(buf, after_name) {
            Ok(next) => next,
            Err(at) => {
                return Err(at);
            },
        };
        match Request::parse_header_value(buf, after_space) {
            Ok((value, next)) => Ok((name, value, next)),
            Err(at) => Err(at),
        }
    }

    /// Reads a line terminator at `i`.
    fn parse_new_line(buf: &[u8], i: usize) -> (r: Result<usize, RequestError>)
        requires
            i <= buf.len(),
        ensures
            match r {
                Ok(next) => line_end(buf@, i as int) == Some(next as int) && next <= buf.len(),
                Err(e) => line_end(buf@, i as int) is None && e == RequestError::NewLine,
            },
    {
        match read_line_end(buf, i) {
            Ok(next) => Ok(next),
            Err(_) => Err(RequestError::NewLine),
        }
    }

    /// Reads the protocol version at `i`.
    fn parse_version(buf: &[u8], i: usize) -> (r: Result<(u8, usize), RequestError>)
        requires
            i <= buf.len(),
        ensures
            match r {
                Ok((v, next)) => version_at(buf@, i as int) == Some((v, next as int)) && next
                    <= buf.len(),
                Err(e) => version_at(buf@, i as int) is None && e == RequestError::Version,
            },
    {
        match read_version(buf, i) {
            Some(found) => Ok(found),
            None => Err(RequestError::Version),
        }
    }

    /// Reads the URI at `i` and the space after it.
    fn parse_uri(buf: &[u8], i: usize) -> (r: Result<(String, usize), RequestError>)
        requires
            i <= buf.len(),
        ensures
            match r {
                Ok((uri, next)) => uri_at(buf@, i as int) matches Ok((u, x)) && uri@
                    == ascii_chars(u) && next == x && next <= buf.len(),
                Err(e) => uri_at(buf@, i as int) == Err::<(Seq<u8>, int), RequestError>(e),
            },
    {
        proof {
            lemma_field_end(buf@, Field::Uri, i as int);
        }
        match find_field_end(buf, Field::Uri, i) {
            Some(end) => {
                if end == i {
                    Err(RequestError::URI)
                } else {
                    let uri = slice_subrange(buf, i, end);
                    assert forall|j: int| 0 <= j < uri@.len() implies #[trigger] uri@[j]
                        < 0x80 by {
                        assert(Field::Uri.admits(buf@[i + j]));
                    }
                    Ok((ascii_string(uri), end + 1))
                }
            },
            None => Err(RequestError::URI),
        }
    }

    /// Reads the method at the start of the buffer and the space after it.
    fn parse_token(buf: &[u8]) -> (r: Result<(Method, usize), RequestError>)
        ensures
            match r {
                Ok((m, next)) => method_at(buf@) == Ok::<(Method, int), RequestError>(
                    (m, next as int),
                ) && next <= buf.len(),
                Err(e) => method_at(buf@) == Err::<(Method, int), RequestError>(e),
            },
    {
        proof {
            lemma_field_end(buf@, Field::Method, 0);
        }
        match find_field_end(buf, Field::Method, 0) {
            Some(end) => match Method::from_token(slice_subrange(buf, 0, end)) {
                Some(m) => Ok((m, end + 1)),
                None => Err(RequestError::Method),
            },
            None => Err(RequestError::Token),
        }
    }

    /// Reads the space after a header name's colon, which at least one more
    /// byte has to follow: `Ok` with the index after the space, or `Err` with
    /// the index at which reading stopped.
    fn parse_space(buf: &[u8], i: usize) -> (r: Result<usize, usize>)
        requires
            i <= buf.len(),
        ensures
            match r {
                Ok(next) => i + 1 < buf.len() && buf@[i as int] == 32 && next == i + 1,
                Err(at) => at <= buf.len() && if i >= buf.len() {
                    at == i
                } else {
                    (buf@[i as int] != 32 || i + 2 > buf.len()) && at == i + 1
                },
            },
    {
        if i >= buf.len() {
            Err(i)
        } else if buf[i] == 32 && i + 1 < buf.len() {
            Ok(i + 1)
        } else {
            Err(i + 1)
        }
    }

    /// Reads a header name at `i` and the colon after it.
    fn parse_header_name(buf: &[u8], i: usize) -> (r: Result<(String, usize), RequestError>)
        requires
            i <= buf.len(),
        ensures
            match r {
                Ok((name, next)) => field_end(buf@, Field::HeaderName, i as int) matches Some(
                    colon,
                ) && name@ == ascii_chars(buf@.subrange(i as int, colon)) && next == colon + 1
                    && next <= buf.len(),
                Err(e) => field_end(buf@, Field::HeaderName, i as int) is None && e
                    == RequestError::Token,
            },
    {
        proof {
            lemma_field_end(buf@, Field::HeaderName, i as int);
        }
        match find_field_end(buf, Field::HeaderName, i) {
            Some(colon) => {
                let name = slice_subrange(buf, i, colon);
                assert forall|j: int| 0 <= j < name@.len() implies #[trigger] name@[j]
                    < 0x80 by {
                    assert(Field::HeaderName.admits(buf@[i + j]));
                }
                Ok((ascii_string(name), colon + 1))
            },
            None => Err(RequestError::Token),
        }
    }

    /// Reads a header value at `i` and the line terminator after it: `Ok`
    /// with the value and the index after the terminator, or `Err` with the
    /// index at which reading stopped.
    fn parse_header_value(buf: &[u8], i: usize) -> (r: Result<(Vec<u8>, usize), usize>)
        requires
            i <= buf.len(),
        ensures
            match r {
                Ok((value, next)) => field_end(buf@, Field::HeaderValue, i as int) matches Some(
                    end,
                ) && value@ == buf@.subrange(i as int, end) && line_end(buf@, end) == Some(
                    next as int,
                ) && next <= buf.len(),
                Err(at) => at <= buf.len() && match field_end(buf@, Field::HeaderValue, i as int) {
                    None => at == i,
                    Some(end) => line_end(buf@, end) is None && at == crate::wire::line_stop(
                        buf@,
                        end,
                    ),
                },
            },
    {
        proof {
            lemma_field_end(buf@, Field::HeaderValue, i as int);
        }
        match find_field_end(buf, Field::HeaderValue, i) {
            Some(end) => match read_line_end(buf, end) {
                Ok(next) => Ok((slice_to_vec(slice_subrange(buf, i, end)), next)),
                Err(at) => Err(at),
            },
            None => Err(i),
        }
    }

    /// Reads the body that follows the header block, which ended at `i`.
    fn parse_body(buf: &[u8], i: usize, headers: &RequestHeaders) -> (r: Result<
        Vec<u8>,
        RequestError,
    >)
        requires
            i <= buf.len(),
        ensures
            match r {
                Ok(body) => body_at(buf@, i as int, headers@) == Ok::<Seq<u8>, RequestError>(
                    body@,
                ),
                Err(e) => body_at(buf@, i as int, headers@) == Err::<Seq<u8>, RequestError>(e),
            },
    {
        let value = match headers.get("Content-Length") {
            Ok(value) => value,
            Err(_) => {
                return Ok(Vec::new());
            },
        };
        let length = match parse_decimal(value.as_slice()) {
            Some(n) => n,
            None => {
                return Err(RequestError::HeaderContentLength);
            },
        };
        let start = match read_line_end(buf, i) {
            Ok(next) => next,
            Err(_) => {
                return Err(RequestError::NewLine);
            },
        };
        if buf.len() - start < length {
            return Err(RequestError::IncompleteBody);
        }
        Ok(slice_to_vec(slice_subrange(buf, start, start + length)))
    }
}

} // verus!
