//! Responses, and the serializer that writes one out.

use vstd::prelude::*;
use vstd::string::*;
use vstd::utf8::*;
use httpstatus::StatusCode;
use crate::ordered::{
    has_key, keys_ascend, lemma_insert_ascends, lemma_lookup_insert, lemma_map_values,
    lemma_map_values_insert, lookup, map_values, sorted_insert, OrderedMap,
};
use crate::status::{number_of, reason_of, status_number, status_ok, status_reason};
use crate::text::{
    append_bytes, ascii_chars, ascii_string, decimal, is_ascii_bytes, push_decimal,
};

verus! {

/// A response that handlers build up piece by piece.
#[derive(Debug)]
pub struct Response {
    status_code: StatusCode,
    content_type: String,
    headers: OrderedMap<String>,
    body: Vec<u8>,
}

/// The same type, under its longer name.
pub type HttpResponse = Response;

/// Content types that handlers often set.
#[derive(Debug, Clone, Copy, PartialEq, Eq, Structural)]
pub enum ContentType {
    TextPlain,
    ApplicationOctetStream,
    /// No content type.
    Unset,
}

impl ContentType {
    /// The content type as it stands in a header; empty for `Unset`.
    pub open spec fn text(self) -> Seq<char> {
        match self {
            ContentType::TextPlain => "text/plain"@,
            ContentType::ApplicationOctetStream => "application/octet-stream"@,
            ContentType::Unset => ""@,
        }
    }

    /// The content type as it stands in a header; empty for `Unset`.
    pub fn as_str(&self) -> (s: &'static str)
        ensures
            s@ == self.text(),
    {
        match self {
            ContentType::TextPlain => "text/plain",
            ContentType::ApplicationOctetStream => "application/octet-stream",
            ContentType::Unset => "",
        }
    }
}

/// A response as plain values.
pub struct ResponseView {
    /// The number of the status.
    pub code: u16,
    /// The reason phrase of the status.
    pub reason: Seq<char>,
    /// The content type; where it is empty, `text/plain` is sent.
    pub content_type: Seq<char>,
    /// The stored headers as `(name, value)`, in ascending order of the names.
    /// `Content-Type` and `Content-Length` are not stored here: they are made
    /// when the response is written out.
    pub headers: Seq<(Seq<char>, Seq<char>)>,
    pub body: Seq<u8>,
}

impl ResponseView {
    /// `200 OK`, of type `text/plain`, with no headers and an empty body.
    pub open spec fn initial() -> ResponseView {
        ResponseView {
            code: 200,
            reason: "OK"@,
            content_type: "text/plain"@,
            headers: Seq::empty(),
            body: Seq::empty(),
        }
    }
}

/// The UTF-8 bytes of a text.
pub open spec fn text(s: Seq<char>) -> Seq<u8> {
    encode_utf8(s)
}

/// The status line: `HTTP/1.1`, the number, the reason phrase.
pub open spec fn status_line(code: u16, reason: Seq<char>) -> Seq<u8> {
    text("HTTP/1.1 "@) + decimal(code as nat) + text(" "@) + text(reason) + text("\r\n"@)
}

/// One header on the wire: `name: value` and a line terminator.
pub open spec fn header_line(name: Seq<char>, value: Seq<char>) -> Seq<u8> {
    text(name) + text(": "@) + text(value) + text("\r\n"@)
}

/// The lines of `headers`, in their order.
pub open spec fn header_lines(headers: Seq<(Seq<char>, Seq<char>)>) -> Seq<u8>
    decreases headers.len(),
{
    if headers.len() == 0 {
        Seq::<u8>::empty()
    } else {
        header_lines(headers.drop_last()) + header_line(headers.last().0, headers.last().1)
    }
}

/// The content type that is sent: `text/plain` where none is set.
pub open spec fn sent_content_type(content_type: Seq<char>) -> Seq<char> {
    if content_type.len() > 0 {
        content_type
    } else {
        "text/plain"@
    }
}

/// The headers that are sent: the stored ones, with `Content-Type` and
/// `Content-Length` put in their places in the order. Both replace a stored
/// header of their name, and `Content-Length` is always the length of the body.
pub open spec fn sent_headers(r: ResponseView) -> Seq<(Seq<char>, Seq<char>)> {
    sorted_insert(
        sorted_insert(r.headers, "Content-Type"@, sent_content_type(r.content_type)),
        "Content-Length"@,
        ascii_chars(decimal(r.body.len())),
    )
}

/// The response on the wire: the status line, the headers in ascending order
/// of their names, a blank line, the body.
pub open spec fn serialize(r: ResponseView) -> Seq<u8> {
    status_line(r.code, r.reason) + header_lines(sent_headers(r)) + text("\r\n"@) + r.body
}

/// The characters of a text.
pub open spec fn text_of() -> spec_fn(String) -> Seq<char> {
    |v: String| v@
}

/// Entries whose values are texts, as plain values.
pub open spec fn texts(s: Seq<(Seq<char>, String)>) -> Seq<(Seq<char>, Seq<char>)> {
    map_values(s, text_of())
}

/// Whatever is stored, `Content-Length` is sent with the length of the
/// body, `Content-Type` with the content type, and every other header as it
/// is stored.
pub proof fn lemma_sent_headers(r: ResponseView, other: Seq<char>)
    requires
        keys_ascend(r.headers),
        other != "Content-Type"@,
        other != "Content-Length"@,
    ensures
        keys_ascend(sent_headers(r)),
        lookup(sent_headers(r), "Content-Length"@) == Some(ascii_chars(decimal(r.body.len()))),
        lookup(sent_headers(r), "Content-Type"@) == Some(sent_content_type(r.content_type)),
        lookup(sent_headers(r), other) == lookup(r.headers, other),
{
    let typed = sorted_insert(r.headers, "Content-Type"@, sent_content_type(r.content_type));
    let length = ascii_chars(decimal(r.body.len()));
    assert("Content-Type"@ != "Content-Length"@) by {
        reveal_strlit("Content-Type");
        reveal_strlit("Content-Length");
        assert("Content-Type"@.len() != "Content-Length"@.len());
    }
    lemma_insert_ascends(r.headers, "Content-Type"@, sent_content_type(r.content_type));
    lemma_insert_ascends(typed, "Content-Length"@, length);
    lemma_lookup_insert(r.headers, "Content-Type"@, sent_content_type(r.content_type), other);
    lemma_lookup_insert(typed, "Content-Length"@, length, other);
    lemma_lookup_insert(typed, "Content-Length"@, length, "Content-Type"@);
}

/// Decimal digits are ASCII.
pub proof fn lemma_decimal_ascii(n: nat)
    ensures
        is_ascii_bytes(decimal(n)),
        decimal(n).len() > 0,
    decreases n,
{
    if n >= 10 {
        lemma_decimal_ascii(n / 10);
        let d = decimal(n / 10);
        assert forall|i: int| 0 <= i < decimal(n).len() implies #[trigger] decimal(n)[i]
            < 0x80 by {
            if i < d.len() {
                assert(decimal(n)[i] == d[i]);
            }
        }
    }
}

impl View for Response {
    type V = ResponseView;

    closed spec fn view(&self) -> ResponseView {
        ResponseView {
            code: status_number(self.status_code),
            reason: status_reason(self.status_code),
            content_type: self.content_type@,
            headers: texts(self.headers@),
            body: self.body@,
        }
    }
}

impl Default for Response {
    /// `200 OK`, of type `text/plain`, with no headers and an empty body.
    fn default() -> (r: Self)
        ensures
            r@ == ResponseView::initial(),
    {
        Response::new()
    }
}

impl From<Response> for Vec<u8> {
    /// The response written out.
    fn from(builder: Response) -> (out: Vec<u8>)
        ensures
            out@ == serialize(builder@),
    {
        builder.build()
    }
}

/// Nothing is said of `from` through `from_spec`, which would have to name
/// a `Vec` by more than what it holds: `from` states its result itself.
impl vstd::std_specs::convert::FromSpecImpl<Response> for Vec<u8> {
    open spec fn obeys_from_spec() -> bool {
        false
    }

    open spec fn from_spec(v: Response) -> Vec<u8> {
        arbitrary()
    }
}

impl Response {
    /// `200 OK`, of type `text/plain`, with no headers and an empty body.
    pub fn new() -> (r: Self)
        ensures
            r@ == ResponseView::initial(),
    {
        let r = Response {
            status_code: status_ok(),
            content_type: String::from_str("text/plain"),
            headers: OrderedMap::new(),
            body: Vec::new(),
        };
        assert(texts(r.headers@) =~= Seq::<(Seq<char>, Seq<char>)>::empty());
        r
    }

    /// Sets the status.
    pub fn status_code(&mut self, status: StatusCode) -> (ret: &mut Self)
        ensures
            ret@ == (ResponseView {
                code: status_number(status),
                reason: status_reason(status),
                ..old(self)@
            }),
            *final(self) == *final(ret),
    {
        self.status_code = status;
        self
    }

    /// Sets the content type.
    pub fn content_type(&mut self, content_type: &str) -> (ret: &mut Self)
        ensures
            ret@ == (ResponseView { content_type: content_type@, ..old(self)@ }),
            *final(self) == *final(ret),
    {
        self.content_type = String::from_str(content_type);
        self
    }

    /// Appends `src` to the body.
    pub fn write(&mut self, src: &[u8])
        ensures
            final(self)@ == (ResponseView { body: old(self)@.body + src@, ..old(self)@ }),
    {
        append_bytes(&mut self.body, src);
    }

    /// Empties the body.
    pub fn clear(&mut self)
        ensures
            final(self)@ == (ResponseView { body: Seq::empty(), ..old(self)@ }),
    {
        self.body.clear();
    }

    /// Stores the header `key: value`, in place of a stored header of that
    /// name. Returns `Some` where it replaced one.
    pub fn set_header(&mut self, key: &str, value: &str) -> (r: Option<()>)
        ensures
            final(self)@ == (ResponseView {
                headers: sorted_insert(old(self)@.headers, key@, value@),
                ..old(self)@
            }),
            r is Some <==> has_key(old(self)@.headers, key@),
    {
        let name = String::from_str(key);
        let text = String::from_str(value);
        proof {
            lemma_map_values(self.headers@, text_of(), name@);
            lemma_map_values_insert(self.headers@, text_of(), name@, text);
        }
        if self.headers.insert(name, text) {
            Some(())
        } else {
            None
        }
    }

    /// Writes the response out. The names of the stored headers ascend
    /// strictly, so none occurs twice.
    pub fn build(&self) -> (out: Vec<u8>)
        ensures
            out@ == serialize(self@),
            keys_ascend(self@.headers),
    {
        let mut out: Vec<u8> = Vec::new();
        append_bytes(&mut out, "HTTP/1.1 ".as_bytes());
        push_decimal(&mut out, number_of(&self.status_code) as usize);
        append_bytes(&mut out, " ".as_bytes());
        append_bytes(&mut out, reason_of(&self.status_code).as_bytes());
        append_bytes(&mut out, "\r\n".as_bytes());
        assert(out@ =~= status_line(self@.code, self@.reason));

        let content_type = if self.content_type.as_str().is_empty() {
            String::from_str("text/plain")
        } else {
            self.content_type.clone()
        };
        let mut length: Vec<u8> = Vec::new();
        push_decimal(&mut length, self.body.len());
        proof {
            lemma_decimal_ascii(self.body.len() as nat);
            assert(length@ =~= decimal(self.body.len() as nat));
        }
        let length_text = ascii_string(length.as_slice());
        let mut headers = self.headers.duplicate();
        proof {
            lemma_map_values(self.headers@, text_of(), Seq::empty());
        }
        proof {
            lemma_map_values_insert(headers@, text_of(), "Content-Type"@, content_type);
        }
        headers.insert(String::from_str("Content-Type"), content_type);
        proof {
            lemma_map_values_insert(headers@, text_of(), "Content-Length"@, length_text);
        }
        headers.insert(String::from_str("Content-Length"), length_text);
        assert(texts(headers@) == sent_headers(self@));

        let n = headers.len();
        let ghost lines = texts(headers@);
        let ghost head = out@;
        let mut i: usize = 0;
        while i < n
            invariant
                i <= n,
                n == headers@.len(),
                lines == texts(headers@),
                out@ == head + header_lines(lines.take(i as int)),
            decreases n - i,
        {
            match headers.entry(i) {
                Some((name, value)) => {
                    append_bytes(&mut out, name.as_str().as_bytes());
                    append_bytes(&mut out, ": ".as_bytes());
                    append_bytes(&mut out, value.as_str().as_bytes());
                    append_bytes(&mut out, "\r\n".as_bytes());
                },
                None => {},
            }
            proof {
                let upto = lines.take(i + 1);
                assert(upto.drop_last() =~= lines.take(i as int));
                assert(upto.last() == lines[i as int]);
                assert(out@ =~= head + header_lines(upto));
            }
            i += 1;
        }
        assert(lines.take(n as int) =~= lines);
        append_bytes(&mut out, "\r\n".as_bytes());
        append_bytes(&mut out, self.body.as_slice());
        assert(out@ =~= serialize(self@));
        out
    }
}

} // verus!
