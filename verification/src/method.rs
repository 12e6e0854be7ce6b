//! The request methods.

use vstd::prelude::*;
use vstd::string::*;
use vstd::utf8::*;
use vstd::array::*;

verus! {

/// A request method, or `ANY`, which stands for all of them on a route and is
/// never the method of a parsed request.
#[derive(Debug, Clone, Copy, PartialEq, Eq, Structural)]
pub enum Method {
    OPTIONS,
    GET,
    HEAD,
    POST,
    PUT,
    DELETE,
    TRACE,
    CONNECT,
    ANY,
}

/// The upper-case form of an ASCII letter; any other byte as it is.
pub open spec fn upper_byte(b: u8) -> u8 {
    if 97 <= b && b <= 122 {
        (b - 32) as u8
    } else {
        b
    }
}

/// `s` with its ASCII letters in upper case.
pub open spec fn upper_bytes(s: Seq<u8>) -> Seq<u8> {
    Seq::new(s.len(), |i: int| upper_byte(s[i]))
}

impl Method {
    /// The method's name, in ASCII.
    pub open spec fn name(self) -> Seq<u8> {
        match self {
            Method::OPTIONS => seq![79u8, 80u8, 84u8, 73u8, 79u8, 78u8, 83u8],
            Method::GET => seq![71u8, 69u8, 84u8],
            Method::HEAD => seq![72u8, 69u8, 65u8, 68u8],
            Method::POST => seq![80u8, 79u8, 83u8, 84u8],
            Method::PUT => seq![80u8, 85u8, 84u8],
            Method::DELETE => seq![68u8, 69u8, 76u8, 69u8, 84u8, 69u8],
            Method::TRACE => seq![84u8, 82u8, 65u8, 67u8, 69u8],
            Method::CONNECT => seq![67u8, 79u8, 78u8, 78u8, 69u8, 67u8, 84u8],
            Method::ANY => seq![65u8, 78u8, 89u8],
        }
    }

    /// The method that a request names with `token`, in any mix of upper and
    /// lower case. `ANY` is no method of a request.
    pub open spec fn named(token: Seq<u8>) -> Option<Method> {
        let u = upper_bytes(token);
        if u == Method::OPTIONS.name() {
            Some(Method::OPTIONS)
        } else if u == Method::GET.name() {
            Some(Method::GET)
        } else if u == Method::HEAD.name() {
            Some(Method::HEAD)
        } else if u == Method::POST.name() {
            Some(Method::POST)
        } else if u == Method::PUT.name() {
            Some(Method::PUT)
        } else if u == Method::DELETE.name() {
            Some(Method::DELETE)
        } else if u == Method::TRACE.name() {
            Some(Method::TRACE)
        } else if u == Method::CONNECT.name() {
            Some(Method::CONNECT)
        } else {
            None
        }
    }

    /// Whether `token`, put in upper case, spells `name`.
    fn spells(token: &[u8], name: &[u8]) -> (r: bool)
        ensures
            r == (upper_bytes(token@) == name@),
    {
        if token.len() != name.len() {
            return false;
        }
        let mut i: usize = 0;
        while i < token.len()
            invariant
                i <= token.len(),
                token.len() == name.len(),
                forall|j: int| 0 <= j < i ==> upper_bytes(token@)[j] == name@[j],
            decreases token.len() - i,
        {
            let b = token[i];
            let u = if 97 <= b && b <= 122 { b - 32 } else { b };
            if u != name[i] {
                assert(upper_bytes(token@)[i as int] != name@[i as int]);
                return false;
            }
            i += 1;
        }
        assert(upper_bytes(token@) =~= name@);
        true
    }

    /// The method that `token` names, if it names one.
    pub fn from_token(token: &[u8]) -> (r: Option<Method>)
        ensures
            r == Method::named(token@),
    {
        broadcast use group_array_axioms;

        let options: [u8; 7] = [79, 80, 84, 73, 79, 78, 83];
        let get: [u8; 3] = [71, 69, 84];
        let head: [u8; 4] = [72, 69, 65, 68];
        let post: [u8; 4] = [80, 79, 83, 84];
        let put: [u8; 3] = [80, 85, 84];
        let delete: [u8; 6] = [68, 69, 76, 69, 84, 69];
        let trace: [u8; 5] = [84, 82, 65, 67, 69];
        let connect: [u8; 7] = [67, 79, 78, 78, 69, 67, 84];
        assert(options@ =~= Method::OPTIONS.name());
        assert(get@ =~= Method::GET.name());
        assert(head@ =~= Method::HEAD.name());
        assert(post@ =~= Method::POST.name());
        assert(put@ =~= Method::PUT.name());
        assert(delete@ =~= Method::DELETE.name());
        assert(trace@ =~= Method::TRACE.name());
        assert(connect@ =~= Method::CONNECT.name());
        if Method::spells(token, array_as_slice(&options)) {
            Some(Method::OPTIONS)
        } else if Method::spells(token, array_as_slice(&get)) {
            Some(Method::GET)
        } else if Method::spells(token, array_as_slice(&head)) {
            Some(Method::HEAD)
        } else if Method::spells(token, array_as_slice(&post)) {
            Some(Method::POST)
        } else if Method::spells(token, array_as_slice(&put)) {
            Some(Method::PUT)
        } else if Method::spells(token, array_as_slice(&delete)) {
            Some(Method::DELETE)
        } else if Method::spells(token, array_as_slice(&trace)) {
            Some(Method::TRACE)
        } else if Method::spells(token, array_as_slice(&connect)) {
            Some(Method::CONNECT)
        } else {
            None
        }
    }

    /// The method's name, as text.
    pub fn to_string(&self) -> (s: String)
        ensures
            encode_utf8(s@) == self.name(),
    {
        let name: &'static str = match self {
            Method::OPTIONS => "OPTIONS",
            Method::GET => "GET",
            Method::HEAD => "HEAD",
            Method::POST => "POST",
            Method::PUT => "PUT",
            Method::DELETE => "DELETE",
            Method::TRACE => "TRACE",
            Method::CONNECT => "CONNECT",
            Method::ANY => "ANY",
        };
        proof {
            reveal_strlit("OPTIONS");
            reveal_strlit("GET");
            reveal_strlit("HEAD");
            reveal_strlit("POST");
            reveal_strlit("PUT");
            reveal_strlit("DELETE");
            reveal_strlit("TRACE");
            reveal_strlit("CONNECT");
            reveal_strlit("ANY");
            assert(is_ascii_chars(name@));
            is_ascii_chars_encode_utf8(name@);
            assert(encode_utf8(name@) =~= self.name());
        }
        String::from_str(name)
    }
}

impl<'a> TryFrom<&'a str> for Method {
    type Error = &'static str;

    /// The method that the text `value` names, or the error message.
    fn try_from(value: &'a str) -> (r: Result<Method, &'static str>) {
        match Method::from_token(value.as_bytes()) {
            Some(m) => Ok(m),
            None => Err("invalid method"),
        }
    }
}

impl<'a> vstd::std_specs::convert::TryFromSpecImpl<&'a str> for Method {
    open spec fn obeys_try_from_spec() -> bool {
        true
    }

    /// The method that the text names, in any mix of upper and lower case,
    /// or the error message.
    open spec fn try_from_spec(v: &'a str) -> Result<Method, &'static str> {
        match Method::named(encode_utf8(v@)) {
            Some(m) => Ok(m),
            None => Err("invalid method"),
        }
    }
}

} // verus!
