//! What the parser makes of every request of a given shape.

use vstd::prelude::*;
use crate::error::RequestError;
use crate::method::{upper_bytes, Method};
use crate::ordered::{keys_ascend, lemma_insert_twice, lemma_lookup_insert, lookup, sorted_insert};
use crate::request::{parse_outcome, RequestView};
use crate::text::{ascii_chars, decimal, decimal_usize, is_digit};
use crate::tokens::{token_byte, uri_byte};
use crate::wire::{
    body_at, content_length_name, field_end, header_at, header_block, http_word,
    lemma_field_end_found, line_end, method_at, stands_at, uri_at, version_at, Field, HeaderStep,
};

verus! {

/// A URI as the parser takes it: not empty, and of URI bytes only.
pub open spec fn is_uri(uri: Seq<u8>) -> bool {
    uri.len() > 0 && forall|i: int| 0 <= i < uri.len() ==> uri_byte(#[trigger] uri[i])
}

/// The bytes `\r\n`.
pub open spec fn crlf() -> Seq<u8> {
    seq![13u8, 10u8]
}

/// The request line `METHOD uri HTTP/1.1`, without its line terminator.
pub open spec fn request_line(method: Method, uri: Seq<u8>) -> Seq<u8> {
    method.name() + seq![32u8] + uri + seq![32u8] + http_word() + seq![49u8, 46u8, 49u8]
}

/// The bytes `Content-Length`.
pub open spec fn content_length_bytes() -> Seq<u8> {
    seq![67u8, 111u8, 110u8, 116u8, 101u8, 110u8, 116u8, 45u8, 76u8, 101u8, 110u8, 103u8, 116u8, 104u8]
}

/// The header line `Content-Length: n`, with its line terminator.
pub open spec fn content_length_line(n: nat) -> Seq<u8> {
    content_length_bytes() + seq![58u8, 32u8] + decimal(n) + crlf()
}

/// A method's own name names it.
pub proof fn lemma_named_own_name(method: Method)
    requires
        method != Method::ANY,
    ensures
        Method::named(method.name()) == Some(method),
        forall|i: int|
            0 <= i < method.name().len() ==> token_byte(#[trigger] method.name()[i])
                && method.name()[i] != 32,
        0 < method.name().len() <= 7,
{
    let name = method.name();
    assert(upper_bytes(name) =~= name);
    assert(Method::OPTIONS.name().len() == 7 && Method::OPTIONS.name()[0] == 79);
    assert(Method::GET.name().len() == 3 && Method::GET.name()[0] == 71);
    assert(Method::HEAD.name().len() == 4 && Method::HEAD.name()[0] == 72);
    assert(Method::POST.name().len() == 4 && Method::POST.name()[0] == 80);
    assert(Method::PUT.name().len() == 3 && Method::PUT.name()[0] == 80);
    assert(Method::DELETE.name().len() == 6);
    assert(Method::TRACE.name().len() == 5);
    assert(Method::CONNECT.name().len() == 7 && Method::CONNECT.name()[0] == 67);
}

/// The request line of a request is read as what it was made of: the method,
/// the URI, and version 1.
pub proof fn lemma_request_line(method: Method, uri: Seq<u8>, rest: Seq<u8>)
    requires
        method != Method::ANY,
        is_uri(uri),
    ensures
        ({
            let s = request_line(method, uri) + rest;
            let n = method.name().len() as int;
            let u = uri.len() as int;
            &&& method_at(s) == Ok::<(Method, int), RequestError>((method, n + 1))
            &&& uri_at(s, n + 1) == Ok::<(Seq<u8>, int), RequestError>((uri, n + u + 2))
            &&& version_at(s, n + u + 2) == Some((1u8, n + u + 10))
            &&& request_line(method, uri).len() == n + u + 10
        }),
{
    let line = request_line(method, uri);
    let s = line + rest;
    let name = method.name();
    let n = name.len() as int;
    let u = uri.len() as int;
    lemma_named_own_name(method);
    assert(line.len() == n + u + 10);
    assert forall|j: int| 0 <= j < n implies #[trigger] s[j] == name[j] by {}
    assert(s[n] == 32);
    assert forall|j: int| 0 <= j < u implies #[trigger] s[n + 1 + j] == uri[j] by {}
    assert(s[n + u + 1] == 32);
    assert forall|j: int| 0 <= j < n implies Field::Method.admits(#[trigger] s[j])
        && !Field::Method.ends(s[j]) by {
        assert(s[j] == name[j]);
    }
    lemma_field_end_found(s, Field::Method, 0, n);
    assert(s.subrange(0, n) =~= name);
    assert forall|j: int| n + 1 <= j < n + 1 + u implies Field::Uri.admits(#[trigger] s[j])
        && !Field::Uri.ends(s[j]) by {
        assert(s[n + 1 + (j - n - 1)] == uri[j - n - 1]);
        assert(uri_byte(uri[j - n - 1]));
    }
    lemma_field_end_found(s, Field::Uri, n + 1, n + 1 + u);
    assert(s.subrange(n + 1, n + 1 + u) =~= uri);
    let word = http_word() + seq![49u8, 46u8, 49u8];
    assert(word.len() == 8);
    assert(s.subrange(n + u + 2, n + u + 2 + 8) =~= word);
    assert(stands_at(s, n + u + 2, word));
}

/// A request that is a request line and a blank line is parsed, and gives
/// exactly the method and the path it was made of.
pub proof fn lemma_parse_request_line(before: RequestView, method: Method, uri: Seq<u8>)
    requires
        method != Method::ANY,
        is_uri(uri),
        lookup(before.headers, content_length_name()) is None,
    ensures
        parse_outcome(before, request_line(method, uri) + crlf() + crlf()) == (
            RequestView {
                method: Some(method),
                path: Some(ascii_chars(uri)),
                version: Some(1u8),
                headers: before.headers,
                body: Seq::empty(),
            },
            Ok::<(), RequestError>(()),
        ),
{
    let rest = crlf() + crlf();
    let line = request_line(method, uri);
    let s = line + rest;
    lemma_request_line(method, uri, rest);
    let l = line.len() as int;
    assert(s[l] == 13 && s[l + 1] == 10 && s[l + 2] == 13);
    assert(line_end(s, l) == Some(l + 2));
    assert(field_end(s, Field::HeaderName, l + 2) is None);
    assert(header_at(s, l + 2) == (HeaderStep::Stopped { at: l + 2 }));
    assert(header_block(s, l + 2, before.headers) == (before.headers, l + 2));
    assert(s == request_line(method, uri) + crlf() + crlf()) by {
        assert(s =~= request_line(method, uri) + crlf() + crlf());
    }
}

/// A request that ends in `\r` behind the request line is not parsed.
pub proof fn lemma_parse_cr_alone(before: RequestView, method: Method, uri: Seq<u8>)
    requires
        method != Method::ANY,
        is_uri(uri),
    ensures
        parse_outcome(before, request_line(method, uri) + seq![13u8]).1 == Err::<
            (),
            RequestError,
        >(RequestError::NewLine),
{
    let line = request_line(method, uri);
    let s = line + seq![13u8];
    lemma_request_line(method, uri, seq![13u8]);
    let l = line.len() as int;
    assert(s[l] == 13 && s.len() == l + 1);
    assert(line_end(s, l) is None);
}

/// Where the line `Content-Length: n` stands at `at`, with a `\r` behind it,
/// the header block that starts there holds that one header and ends behind
/// the line.
pub proof fn lemma_content_length_block(
    s: Seq<u8>,
    at: int,
    n: nat,
    headers: Seq<(Seq<char>, Seq<u8>)>,
)
    requires
        0 <= at,
        at + content_length_line(n).len() < s.len(),
        s.subrange(at, at + content_length_line(n).len()) == content_length_line(n),
        s[at + content_length_line(n).len()] == 13,
    ensures
        header_block(s, at, headers) == (
            sorted_insert(headers, content_length_name(), decimal(n)),
            at + content_length_line(n).len(),
        ),
{
    let line = content_length_line(n);
    let name = content_length_bytes();
    let digits = decimal(n);
    let d = digits.len() as int;
    let next = at + line.len();
    crate::text::lemma_decimal_round_trip(n);
    assert(line.len() == 18 + d);
    assert forall|j: int| 0 <= j < line.len() implies #[trigger] s[at + j] == line[j] by {
        assert(s.subrange(at, at + line.len())[j] == s[at + j]);
    }
    assert forall|j: int| at <= j < at + 14 implies Field::HeaderName.admits(#[trigger] s[j])
        && !Field::HeaderName.ends(s[j]) by {
        assert(s[at + (j - at)] == line[j - at]);
        assert(line[j - at] == name[j - at]);
    }
    assert(s[at + 14] == 58) by {
        assert(line[14] == 58);
    }
    lemma_field_end_found(s, Field::HeaderName, at, at + 14);
    assert(s[at + 15] == 32) by {
        assert(line[15] == 32);
    }
    assert forall|j: int| at + 16 <= j < at + 16 + d implies Field::HeaderValue.admits(
        #[trigger] s[j],
    ) && !Field::HeaderValue.ends(s[j]) by {
        assert(s[at + (j - at)] == line[j - at]);
        assert(line[j - at] == digits[j - at - 16]);
        assert(is_digit(digits[j - at - 16]));
    }
    assert(s[at + 16 + d] == 13 && s[at + 17 + d] == 10) by {
        assert(line[16 + d] == 13 && line[17 + d] == 10);
    }
    lemma_field_end_found(s, Field::HeaderValue, at + 16, at + 16 + d);
    assert(line_end(s, at + 16 + d) == Some(next));
    assert(s.subrange(at, at + 14) =~= name) by {
        assert forall|j: int| 0 <= j < 14 implies s.subrange(at, at + 14)[j] == name[j] by {
            assert(s[at + j] == line[j]);
        }
    }
    assert(s.subrange(at + 16, at + 16 + d) =~= digits) by {
        assert forall|j: int| 0 <= j < d implies s.subrange(at + 16, at + 16 + d)[j]
            == digits[j] by {
            assert(s[at + (16 + j)] == line[16 + j]);
        }
    }
    assert(header_at(s, at) == (HeaderStep::Parsed { name, value: digits, next }));
    assert(ascii_chars(name) =~= content_length_name()) by {
        reveal_strlit("Content-Length");
    }
    assert(field_end(s, Field::HeaderName, next) is None);
    assert(header_at(s, next) == (HeaderStep::Stopped { at: next }));
    let stored = sorted_insert(headers, content_length_name(), digits);
    assert(header_block(s, next, stored) == (stored, next));
    assert(header_block(s, at, headers) == header_block(s, next, stored));
}

/// Where `Content-Length: n` is among the headers and a blank line stands
/// at `at`, the body is the first `n` of the bytes behind the blank line, and
/// incomplete where there are fewer.
pub proof fn lemma_body_at(
    s: Seq<u8>,
    at: int,
    headers: Seq<(Seq<char>, Seq<u8>)>,
    n: nat,
    body: Seq<u8>,
)
    requires
        0 <= at,
        at + 2 + body.len() == s.len(),
        s[at] == 13,
        s[at + 1] == 10,
        s.subrange(at + 2, s.len() as int) == body,
        lookup(headers, content_length_name()) == Some(decimal(n)),
        n <= usize::MAX,
    ensures
        body_at(s, at, headers) == if body.len() < n {
            Err::<Seq<u8>, RequestError>(RequestError::IncompleteBody)
        } else {
            Ok::<Seq<u8>, RequestError>(body.take(n as int))
        },
{
    crate::text::lemma_decimal_round_trip(n);
    assert(decimal_usize(decimal(n)) == Some(n as usize));
    assert(line_end(s, at) == Some(at + 2));
    if body.len() >= n {
        assert(s.subrange(at + 2, at + 2 + n) =~= body.take(n as int));
    }
}

/// A request with the header `Content-Length: n` and a body behind the blank
/// line: where the body has fewer than `n` bytes, parsing fails with
/// `IncompleteBody`, and the headers were stored; else the request's body is
/// the first `n` bytes of it.
pub proof fn lemma_parse_body(
    before: RequestView,
    method: Method,
    uri: Seq<u8>,
    n: nat,
    body: Seq<u8>,
)
    requires
        method != Method::ANY,
        is_uri(uri),
        keys_ascend(before.headers),
        n <= usize::MAX,
    ensures
        ({
            let s = request_line(method, uri) + crlf() + content_length_line(n) + crlf() + body;
            let read = RequestView {
                method: Some(method),
                path: Some(ascii_chars(uri)),
                version: Some(1u8),
                headers: sorted_insert(before.headers, content_length_name(), decimal(n)),
                body: before.body,
            };
            parse_outcome(before, s) == if body.len() < n {
                (read, Err::<(), RequestError>(RequestError::IncompleteBody))
            } else {
                (RequestView { body: body.take(n as int), ..read }, Ok::<(), RequestError>(()))
            }
        }),
{
    let line = request_line(method, uri);
    let header = content_length_line(n);
    let rest = crlf() + header + crlf() + body;
    let s = line + rest;
    let l = line.len() as int;
    let at = l + 2;
    let next = at + header.len();
    let headers = sorted_insert(before.headers, content_length_name(), decimal(n));
    assert(s == line + crlf() + header + crlf() + body) by {
        assert(s =~= line + crlf() + header + crlf() + body);
    }
    assert(method_at(s) is Ok && uri_at(s, method_at(s)->Ok_0.1) is Ok && version_at(
        s,
        uri_at(s, method_at(s)->Ok_0.1)->Ok_0.1,
    ) == Some((1u8, l)) && method_at(s)->Ok_0.0 == method && uri_at(
        s,
        method_at(s)->Ok_0.1,
    )->Ok_0.0 == uri) by {
        lemma_request_line(method, uri, rest);
    }
    assert(line_end(s, l) == Some(at)) by {
        assert(s[l] == 13 && s[l + 1] == 10);
    }
    assert(header_block(s, at, before.headers) == (headers, next)) by {
        assert(s.subrange(at, next) =~= header);
        assert(s[next] == 13);
        lemma_content_length_block(s, at, n, before.headers);
    }
    assert(body_at(s, next, headers) == if body.len() < n {
        Err::<Seq<u8>, RequestError>(RequestError::IncompleteBody)
    } else {
        Ok::<Seq<u8>, RequestError>(body.take(n as int))
    }) by {
        assert(s[next] == 13 && s[next + 1] == 10);
        assert(s.subrange(next + 2, s.len() as int) =~= body);
        lemma_lookup_insert(
            before.headers,
            content_length_name(),
            decimal(n),
            content_length_name(),
        );
        lemma_body_at(s, next, headers, n, body);
    }
}

/// A request that was parsed has a body of the length that its
/// `Content-Length` header gives, and an empty body where it has none.
pub proof fn lemma_body_length(before: RequestView, s: Seq<u8>)
    requires
        parse_outcome(before, s).1 is Ok,
    ensures
        ({
            let request = parse_outcome(before, s).0;
            match lookup(request.headers, content_length_name()) {
                None => request.body.len() == 0,
                Some(value) => decimal_usize(value) == Some(request.body.len() as usize),
            }
        }),
{
    let (_, i1) = method_at(s)->Ok_0;
    let (_, i2) = uri_at(s, i1)->Ok_0;
    let (_, i3) = version_at(s, i2)->Some_0;
    let i4 = line_end(s, i3)->Some_0;
    let (headers, i5) = header_block(s, i4, before.headers);
    assert(body_at(s, i5, headers) is Ok);
    assert(parse_outcome(before, s).0.headers == headers);
}

/// Of two headers of one name that follow each other, the first leaves no
/// trace: the block is read as if only the second stood there.
pub proof fn lemma_header_block_keeps_last(
    s: Seq<u8>,
    i: int,
    headers: Seq<(Seq<char>, Seq<u8>)>,
)
    requires
        0 <= i <= s.len(),
        keys_ascend(headers),
        header_at(s, i) is Parsed,
        header_at(s, header_at(s, i)->next) is Parsed,
        header_at(s, i)->name == header_at(s, header_at(s, i)->next)->name,
    ensures
        ({
            let second = header_at(s, header_at(s, i)->next);
            header_block(s, i, headers) == header_block(
                s,
                second->next,
                sorted_insert(headers, ascii_chars(second->name), second->value),
            )
        }),
{
    let first = header_at(s, i);
    let second = header_at(s, first->next);
    crate::wire::lemma_header_at(s, i);
    crate::wire::lemma_header_at(s, first->next);
    let name = ascii_chars(first->name);
    let one = sorted_insert(headers, name, first->value);
    lemma_insert_twice(headers, name, first->value, second->value);
    assert(header_block(s, i, headers) == header_block(s, first->next, one));
    assert(header_block(s, first->next, one) == header_block(
        s,
        second->next,
        sorted_insert(one, name, second->value),
    ));
}

} // verus!
