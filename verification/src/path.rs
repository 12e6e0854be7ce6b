//! Matching a request path against a route pattern.
//!
//! Both are split at `/` into segments, which are compared in step. A
//! segment of the pattern is a literal, a capture `:name`, or the wildcard
//! `*`.

use vstd::prelude::*;
use vstd::string::*;
use crate::ordered::{lemma_map_values_insert, map_values, sorted_insert, OrderedMap};
use crate::text::to_chars;

verus! {

/// What a capture segment of a pattern took from a request path.
#[derive(Debug, Clone)]
pub struct RequestPathParams {
    /// The parameter: the name behind the colon of a capture, or `*`.
    pub param: String,
    /// The segment of the request path that stood in its place.
    pub value: String,
}

impl View for RequestPathParams {
    type V = (Seq<char>, Seq<char>);

    /// The parameter and its value.
    open spec fn view(&self) -> (Seq<char>, Seq<char>) {
        (self.param@, self.value@)
    }
}

/// Captures as plain values: under each parameter, the parameter and its value.
pub type Captures = Seq<(Seq<char>, (Seq<char>, Seq<char>))>;

/// The parameter and the value of a capture.
pub open spec fn capture_of() -> spec_fn(RequestPathParams) -> (Seq<char>, Seq<char>) {
    |p: RequestPathParams| p@
}

/// The captures held in a map, as plain values.
pub open spec fn captures_of(s: Seq<(Seq<char>, RequestPathParams)>) -> Captures {
    map_values(s, capture_of())
}

/// A request path that matched a pattern, and what the pattern captured.
#[derive(Debug, Clone)]
pub struct RequestPath {
    pub path: String,
    pub params: OrderedMap<RequestPathParams>,
}

/// The index at which the segment that starts at `i` ends: that of the next
/// `/`, or the length of the text.
pub open spec fn segment_end(s: Seq<char>, i: int) -> int
    decreases s.len() - i,
{
    if i < 0 || i >= s.len() || s[i] == '/' {
        i
    } else {
        segment_end(s, i + 1)
    }
}

/// A segment lies within the text, holds no `/`, and ends at one or at the
/// end of the text.
pub proof fn lemma_segment_end(s: Seq<char>, i: int)
    requires
        0 <= i <= s.len(),
    ensures
        i <= segment_end(s, i) <= s.len(),
        forall|j: int| i <= j < segment_end(s, i) ==> #[trigger] s[j] != '/',
        segment_end(s, i) < s.len() ==> s[segment_end(s, i)] == '/',
    decreases s.len() - i,
{
    if i < s.len() && s[i] != '/' {
        lemma_segment_end(s, i + 1);
    }
}

/// The wildcard segment, `*`.
pub open spec fn wildcard() -> Seq<char> {
    seq!['*']
}

/// `captures` with `value` stored under the parameter `name`.
pub open spec fn capture(captures: Captures, name: Seq<char>, value: Seq<char>) -> Captures {
    sorted_insert(captures, name, (name, value))
}

/// Holds one segment of a request path against one segment of a pattern:
/// the captures afterwards where they match, `None` where they do not.
/// The wildcard and a capture `:name` match any segment and store it, under
/// `*` and under `name`. Any other segment is a literal and matches itself.
pub open spec fn segment_match(pattern: Seq<char>, segment: Seq<char>, captures: Captures)
    -> Option<Captures> {
    if pattern == wildcard() {
        Some(capture(captures, wildcard(), segment))
    } else if pattern.len() > 0 && pattern[0] == ':' {
        Some(capture(captures, pattern.skip(1), segment))
    } else if pattern == segment {
        Some(captures)
    } else {
        None
    }
}

/// Matches the request path from its segment at `pi` against the pattern
/// from its segment at `ri`.
///
/// A wildcard that is the pattern's last segment takes the segment at `pi`
/// and accepts whatever follows it. In every other case the path and the
/// pattern have to run out of segments together.
pub open spec fn match_from(
    path: Seq<char>,
    pi: int,
    route: Seq<char>,
    ri: int,
    captures: Captures,
) -> Option<Captures>
    decreases path.len() - pi,
{
    let pe = segment_end(path, pi);
    let re = segment_end(route, ri);
    let pattern = route.subrange(ri, re);
    if !(0 <= pi <= path.len() && 0 <= ri <= route.len()) {
        None
    } else {
        match segment_match(pattern, path.subrange(pi, pe), captures) {
            None => None,
            Some(next) => {
                if pattern == wildcard() && re >= route.len() && route.last() != '/' {
                    Some(next)
                } else if pe >= path.len() {
                    if re >= route.len() {
                        Some(next)
                    } else {
                        None
                    }
                } else if re >= route.len() {
                    None
                } else {
                    proof {
                        lemma_segment_end(path, pi);
                    }
                    match_from(path, pe + 1, route, re + 1, next)
                }
            },
        }
    }
}

/// What the pattern `route` captures from the request path `path`, or `None`
/// where the path does not match.
pub open spec fn path_match(path: Seq<char>, route: Seq<char>) -> Option<Captures> {
    match_from(path, 0, route, 0, Seq::empty())
}

/// Finds the end of the segment that starts at `i`.
fn find_segment_end(s: &Vec<char>, i: usize) -> (end: usize)
    requires
        i <= s.len(),
    ensures
        end == segment_end(s@, i as int),
        i <= end <= s.len(),
{
    let mut end: usize = i;
    while end < s.len() && s[end] != '/'
        invariant
            i <= end <= s.len(),
            segment_end(s@, i as int) == segment_end(s@, end as int),
        decreases s.len() - end,
    {
        end += 1;
    }
    end
}

/// Whether two ranges of characters hold the same text.
fn same_text(a: &Vec<char>, ai: usize, ae: usize, b: &Vec<char>, bi: usize, be: usize) -> (r: bool)
    requires
        ai <= ae <= a.len(),
        bi <= be <= b.len(),
    ensures
        r == (a@.subrange(ai as int, ae as int) == b@.subrange(bi as int, be as int)),
{
    if ae - ai != be - bi {
        assert(a@.subrange(ai as int, ae as int).len() != b@.subrange(bi as int, be as int).len());
        return false;
    }
    let ghost x = a@.subrange(ai as int, ae as int);
    let ghost y = b@.subrange(bi as int, be as int);
    let n = ae - ai;
    let mut k: usize = 0;
    while k < n
        invariant
            k <= n,
            n == ae - ai,
            n == be - bi,
            ai <= ae <= a.len(),
            bi <= be <= b.len(),
            x == a@.subrange(ai as int, ae as int),
            y == b@.subrange(bi as int, be as int),
            forall|j: int| 0 <= j < k ==> x[j] == y[j],
        decreases n - k,
    {
        if a[ai + k] != b[bi + k] {
            assert(x[k as int] != y[k as int]);
            return false;
        }
        k += 1;
    }
    assert(x =~= y);
    true
}

/// Stores `value` under the parameter `name`.
fn store(params: &mut OrderedMap<RequestPathParams>, name: &str, value: &str)
    ensures
        captures_of(final(params)@) == capture(captures_of(old(params)@), name@, value@),
{
    let entry = RequestPathParams { param: String::from_str(name), value: String::from_str(value) };
    proof {
        lemma_map_values_insert(params@, capture_of(), name@, entry);
    }
    params.insert(String::from_str(name), entry);
}

/// Matches the request path `path` against the pattern `route`.
pub fn match_path(path: &str, route: &str) -> (r: Option<OrderedMap<RequestPathParams>>)
    ensures
        match path_match(path@, route@) {
            Some(captures) => r matches Some(params) && captures_of(params@) == captures,
            None => r is None,
        },
{
    let p = to_chars(path);
    let q = to_chars(route);
    let greedy = q.len() == 0 || q[q.len() - 1] != '/';
    let mut params: OrderedMap<RequestPathParams> = OrderedMap::new();
    assert(captures_of(params@) =~= Seq::empty());
    let mut pi: usize = 0;
    let mut ri: usize = 0;
    loop
        invariant
            p@ == path@,
            q@ == route@,
            pi <= p.len(),
            ri <= q.len(),
            greedy == (q@.len() == 0 || q@.last() != '/'),
            path_match(path@, route@) == match_from(
                path@,
                pi as int,
                route@,
                ri as int,
                captures_of(params@),
            ),
        decreases p.len() - pi,
    {
        let pe = find_segment_end(&p, pi);
        let re = find_segment_end(&q, ri);
        let ghost pattern = q@.subrange(ri as int, re as int);
        let ghost segment = p@.subrange(pi as int, pe as int);
        let is_wildcard = re - ri == 1 && q[ri] == '*';
        proof {
            if is_wildcard {
                assert(pattern =~= wildcard());
            } else if pattern == wildcard() {
                assert(pattern.len() == 1 && pattern[0] == '*');
            }
        }
        if is_wildcard {
            proof {
                reveal_strlit("*");
                assert("*"@ =~= wildcard());
            }
            store(&mut params, "*", path.substring_char(pi, pe));
            if re >= q.len() && greedy {
                return Some(params);
            }
        } else if re > ri && q[ri] == ':' {
            assert(pattern[0] == ':');
            let name = route.substring_char(ri + 1, re);
            assert(name@ =~= pattern.skip(1));
            store(&mut params, name, path.substring_char(pi, pe));
        } else {
            assert(!(pattern.len() > 0 && pattern[0] == ':'));
            if !same_text(&q, ri, re, &p, pi, pe) {
                return None;
            }
        }
        if pe >= p.len() {
            if re >= q.len() {
                return Some(params);
            } else {
                return None;
            }
        } else if re >= q.len() {
            return None;
        }
        pi = pe + 1;
        ri = re + 1;
    }
}

} // verus!
