//! The route table, and the dispatcher that runs the handlers of a request.

use vstd::prelude::*;
use vstd::string::*;
use bytes::Bytes;
use crate::buffer::bytes_contents;
use crate::error::RequestError;
use crate::method::Method;
use crate::path::{captures_of, path_match, Captures, RequestPath};
use crate::request::{parse_outcome, Request, RequestView};
use crate::response::{serialize, Response, ResponseView};
use crate::router::{
    failure_response, find_request_path, not_found_response, request_path, Context, ContextView,
    HandlerFn, Route, Router,
};

verus! {

/// A registration as plain values: the pattern, the method, the handler.
pub type Registration<H> = (Seq<char>, Option<Method>, H);

/// A route with the filter `filter` takes requests of the method `method`:
/// it has no filter, or `ANY`, or that very method.
pub open spec fn method_passes(filter: Option<Method>, method: Option<Method>) -> bool {
    match filter {
        None => true,
        Some(Method::ANY) => true,
        Some(m) => method == Some(m),
    }
}

/// What the route captures from the request, or `None` where its method or
/// its pattern does not match.
pub open spec fn route_match<H>(route: Registration<H>, request: RequestView) -> Option<Captures> {
    if method_passes(route.1, request.method) {
        path_match(request_path(request), route.0)
    } else {
        None
    }
}

/// The routes among the first `n` that match the request, in their order:
/// each with its index and with what it captures.
pub open spec fn matching_upto<H>(routes: Seq<Registration<H>>, request: RequestView, n: int)
    -> Seq<(int, Captures)>
    decreases n,
{
    if n <= 0 {
        Seq::empty()
    } else {
        let before = matching_upto(routes, request, n - 1);
        match route_match(routes[n - 1], request) {
            Some(captures) => before.push((n - 1, captures)),
            None => before,
        }
    }
}

/// All routes that match the request, in the order of their registration.
pub open spec fn matching<H>(routes: Seq<Registration<H>>, request: RequestView) -> Seq<
    (int, Captures),
> {
    matching_upto(routes, request, routes.len() as int)
}

/// The context that the first handler of a request gets, but for its captures.
pub open spec fn initial_context(request: RequestView) -> ContextView {
    ContextView {
        request,
        response: ResponseView::initial(),
        params: Seq::empty(),
        ended: false,
        raw: false,
    }
}

/// `out` is a possible outcome of running the handlers of the matches from
/// the `i`-th on, on the context `cur`, and `failed` says whether one of them
/// failed. Each handler gets the context that the one before it left, with
/// the captures of its own route. The handlers run in the order of the
/// matches until one fails or leaves the context ended; after a failure the
/// response is the fixed failure response.
pub open spec fn chain<H: HandlerFn>(
    routes: Seq<Registration<H>>,
    found: Seq<(int, Captures)>,
    i: int,
    cur: ContextView,
    out: ContextView,
    failed: bool,
) -> bool
    decreases found.len() - i, 1int,
{
    if i < 0 || i >= found.len() {
        out == cur && !failed
    } else {
        let handler = routes[found[i].0].2;
        let before = ContextView { params: found[i].1, ..cur };
        exists|after: ContextView, ok: bool| #[trigger]
            handler.permits(before, after, ok) && settled(routes, found, i, after, ok, out, failed)
    }
}

/// `out` and `failed` are a possible outcome after the handler of the `i`-th
/// match has left the context `after` and succeeded or not: after a failure,
/// `after` with the failure response; where the handler ended the chain or
/// was the last, `after` itself; else an outcome of running the handlers
/// that follow.
pub open spec fn settled<H: HandlerFn>(
    routes: Seq<Registration<H>>,
    found: Seq<(int, Captures)>,
    i: int,
    after: ContextView,
    ok: bool,
    out: ContextView,
    failed: bool,
) -> bool
    decreases found.len() - i, 0int,
{
    if !ok {
        failed && out == after_failure(after)
    } else if after.ended || i + 1 >= found.len() {
        !failed && out == after
    } else {
        chain(routes, found, i + 1, after, out, failed)
    }
}

/// `out` is a possible outcome of dispatching `request`, and `failed` says
/// whether a handler failed: where no route matches, the answer
/// `404 Not Found`; else an outcome of running the handlers of the matching
/// routes.
pub open spec fn dispatched<H: HandlerFn>(
    routes: Seq<Registration<H>>,
    request: RequestView,
    out: ContextView,
    failed: bool,
) -> bool {
    let found = matching(routes, request);
    let start = initial_context(request);
    if found.len() == 0 {
        !failed && out == (ContextView { response: not_found_response(), ..start })
    } else {
        chain(routes, found, 0, start, out, failed)
    }
}

/// `context` after a handler failed on it: with the failure response in
/// place of its response.
pub open spec fn after_failure(context: ContextView) -> ContextView {
    ContextView { response: failure_response(), ..context }
}

/// Where no route matches a request, no handler runs and the response is
/// `404 Not Found`.
pub proof fn lemma_no_match_is_not_found<H: HandlerFn>(
    routes: Seq<Registration<H>>,
    request: RequestView,
    out: ContextView,
    failed: bool,
)
    requires
        matching(routes, request).len() == 0,
        dispatched(routes, request, out, failed),
    ensures
        !failed,
        out.response.code == 404,
        out.response == not_found_response(),
        out.request == request,
        !out.ended,
        !out.raw,
{
}

/// Where a handler failed, the response is the failure response, with the
/// status 500 and the fixed body, whatever the handlers had written.
pub proof fn lemma_failure_is_500<H: HandlerFn>(
    routes: Seq<Registration<H>>,
    found: Seq<(int, Captures)>,
    i: int,
    cur: ContextView,
    out: ContextView,
)
    requires
        chain(routes, found, i, cur, out, true),
    ensures
        out.response == failure_response(),
        out.response.code == 500,
        out.response.body == crate::response::text("internal server error"@),
    decreases found.len() - i,
{
    let handler = routes[found[i].0].2;
    let before = ContextView { params: found[i].1, ..cur };
    let (after, ok) = choose|after: ContextView, ok: bool| #[trigger]
        handler.permits(before, after, ok) && settled(routes, found, i, after, ok, out, true);
    if ok {
        lemma_failure_is_500(routes, found, i + 1, after, out);
    }
}

/// A dispatch in which a handler failed answers `500`, with the fixed body.
pub proof fn lemma_failed_dispatch_is_500<H: HandlerFn>(
    routes: Seq<Registration<H>>,
    request: RequestView,
    out: ContextView,
)
    requires
        dispatched(routes, request, out, true),
    ensures
        out.response == failure_response(),
        out.response.code == 500,
        out.response.body == crate::response::text("internal server error"@),
{
    lemma_failure_is_500(routes, matching(routes, request), 0, initial_context(request), out);
}

/// Where two routes match a request, the handler of the first runs on the
/// initial context with the captures of its route. Where it fails, the
/// outcome is what it left, with the failure response; where it ends the
/// chain, the outcome is what it left, and the second handler does not run.
/// Else the second handler runs on what the first left, with the captures of
/// its own route, and decides the outcome.
pub proof fn lemma_two_handlers<H: HandlerFn>(
    routes: Seq<Registration<H>>,
    request: RequestView,
    out: ContextView,
    failed: bool,
)
    requires
        matching(routes, request).len() == 2,
        dispatched(routes, request, out, failed),
    ensures
        ({
            let found = matching(routes, request);
            let one = routes[found[0].0].2;
            let two = routes[found[1].0].2;
            let start = ContextView { params: found[0].1, ..initial_context(request) };
            exists|first: ContextView, ok: bool| #[trigger]
                one.permits(start, first, ok) && if !ok {
                    failed && out == after_failure(first)
                } else if first.ended {
                    !failed && out == first
                } else {
                    exists|second: ContextView, ok2: bool| #[trigger]
                        two.permits(
                            ContextView { params: found[1].1, ..first },
                            second,
                            ok2,
                        ) && if ok2 {
                            !failed && out == second
                        } else {
                            failed && out == after_failure(second)
                        }
                }
        }),
{
    let found = matching(routes, request);
    let one = routes[found[0].0].2;
    let two = routes[found[1].0].2;
    let start = ContextView { params: found[0].1, ..initial_context(request) };
    let (first, ok) = choose|first: ContextView, ok: bool| #[trigger]
        one.permits(start, first, ok) && settled(routes, found, 0, first, ok, out, failed);
    if ok && !first.ended {
        let middle = ContextView { params: found[1].1, ..first };
        let (second, ok2) = choose|second: ContextView, ok2: bool| #[trigger]
            two.permits(middle, second, ok2) && settled(
                routes,
                found,
                1,
                second,
                ok2,
                out,
                failed,
            );
        assert(two.permits(middle, second, ok2));
    }
    assert(one.permits(start, first, ok));
}

/// The route table: the routes in the order of their registration.
pub struct Server<H> {
    routes: Vec<Route<H>>,
}

impl<H> Default for Server<H> {
    /// A table without routes.
    fn default() -> (s: Self)
        ensures
            s.routes() == Seq::<Registration<H>>::empty(),
    {
        Server::new()
    }
}

impl<H> Server<H> {
    /// The registrations, in their order.
    pub closed spec fn routes(&self) -> Seq<Registration<H>> {
        Seq::new(
            self.routes@.len(),
            |i: int| (self.routes@[i].path@, self.routes@[i].method, self.routes@[i].handler),
        )
    }

    /// A table without routes.
    pub fn new() -> (s: Self)
        ensures
            s.routes() == Seq::<Registration<H>>::empty(),
    {
        let s = Server { routes: Vec::new() };
        assert(s.routes() =~= Seq::<Registration<H>>::empty());
        s
    }

    /// Adds `route` behind the routes that are there.
    pub fn add_route(&mut self, route: Route<H>)
        ensures
            final(self).routes() == old(self).routes().push(
                (route.path@, route.method, route.handler),
            ),
    {
        self.routes.push(route);
        assert(self.routes() =~= old(self).routes().push(
            (route.path@, route.method, route.handler),
        ));
    }

    /// The number of routes.
    pub fn len(&self) -> (n: usize)
        ensures
            n == self.routes().len(),
    {
        self.routes.len()
    }

    /// The routes that match `request`, in the order of their registration:
    /// each with its index in the table, the path, and what it captured.
    pub fn matching_routes(&self, request: &Request) -> (r: Vec<(usize, RequestPath)>)
        ensures
            r@.len() == matching(self.routes(), request@).len(),
            forall|k: int|
                0 <= k < r@.len() ==> {
                    &&& (#[trigger] r@[k]).0 == matching(self.routes(), request@)[k].0
                    &&& r@[k].0 < self.routes().len()
                    &&& r@[k].1.path@ == request_path(request@)
                    &&& captures_of(r@[k].1.params@) == matching(self.routes(), request@)[k].1
                },
    {
        let mut r: Vec<(usize, RequestPath)> = Vec::new();
        let mut i: usize = 0;
        while i < self.routes.len()
            invariant
                i <= self.routes.len(),
                self.routes().len() == self.routes@.len(),
                r@.len() == matching_upto(self.routes(), request@, i as int).len(),
                forall|k: int|
                    0 <= k < r@.len() ==> {
                        &&& (#[trigger] r@[k]).0 == matching_upto(
                            self.routes(),
                            request@,
                            i as int,
                        )[k].0
                        &&& r@[k].0 < self.routes().len()
                        &&& r@[k].1.path@ == request_path(request@)
                        &&& captures_of(r@[k].1.params@) == matching_upto(
                            self.routes(),
                            request@,
                            i as int,
                        )[k].1
                    },
            decreases self.routes.len() - i,
        {
            let route = &self.routes[i];
            assert(self.routes()[i as int] == (route.path@, route.method, route.handler));
            let passes = match route.method {
                None => true,
                Some(Method::ANY) => true,
                Some(m) => match request.method {
                    Some(n) => m == n,
                    None => false,
                },
            };
            if passes {
                match find_request_path(request, route) {
                    Some(found) => {
                        r.push((i, found));
                    },
                    None => {},
                }
            }
            i += 1;
        }
        r
    }
}

impl<H: HandlerFn> Server<H> {
    /// Runs the handlers of the routes that match `request`, one after
    /// another in the order of their registration, on one context, and
    /// returns that context. A handler that fails or ends the chain is the
    /// last to run. Where no route matches, no handler runs and the response
    /// is `404 Not Found`; where a handler failed, it is
    /// `500 Internal Server Error`.
    pub fn dispatch(&self, request: Request) -> (ctx: Context)
        ensures
            exists|failed: bool| dispatched(self.routes(), request@, ctx@, failed),
    {
        let ghost routes = self.routes();
        let ghost found = matching(routes, request@);
        let ghost start = initial_context(request@);
        let mut pending = self.matching_routes(&request);
        let mut ctx = Context::from(request, Response::new());
        if pending.len() == 0 {
            ctx.not_found();
            assert(dispatched(routes, request@, ctx@, false));
            return ctx;
        }
        let n = pending.len();
        let mut stack: Vec<(usize, RequestPath)> = Vec::new();
        while pending.len() > 0
            invariant
                pending@.len() + stack@.len() == n,
                n == found.len(),
                forall|k: int|
                    0 <= k < pending@.len() ==> {
                        &&& (#[trigger] pending@[k]).0 == found[k].0
                        &&& pending@[k].0 < routes.len()
                        &&& captures_of(pending@[k].1.params@) == found[k].1
                    },
                forall|k: int|
                    0 <= k < stack@.len() ==> {
                        &&& (#[trigger] stack@[k]).0 == found[n - 1 - k].0
                        &&& stack@[k].0 < routes.len()
                        &&& captures_of(stack@[k].1.params@) == found[n - 1 - k].1
                    },
            decreases pending.len(),
        {
            match pending.pop() {
                Some(entry) => {
                    stack.push(entry);
                },
                None => {},
            }
        }
        let mut i: usize = 0;
        loop
            invariant_except_break
                routes == self.routes(),
                routes.len() == self.routes@.len(),
                i + stack@.len() == n,
                n == found.len(),
                forall|k: int|
                    0 <= k < stack@.len() ==> {
                        &&& (#[trigger] stack@[k]).0 == found[n - 1 - k].0
                        &&& stack@[k].0 < routes.len()
                        &&& captures_of(stack@[k].1.params@) == found[n - 1 - k].1
                    },
                forall|out: ContextView, failed: bool| #[trigger]
                    chain(routes, found, i as int, ctx@, out, failed) ==> chain(
                        routes,
                        found,
                        0,
                        start,
                        out,
                        failed,
                    ),
                n > 0,
                found == matching(routes, request@),
                start == initial_context(request@),
            ensures
                exists|failed: bool| dispatched(routes, request@, ctx@, failed),
            decreases stack.len(),
        {
            let ghost cur = ctx@;
            let (index, path) = match stack.pop() {
                Some(entry) => entry,
                None => {
                    assert(chain(routes, found, i as int, cur, cur, false));
                    assert(dispatched(routes, request@, ctx@, false));
                    break ;
                },
            };
            assert(index == found[i as int].0);
            ctx.set_params(path.params);
            let ghost before = ctx@;
            let route = &self.routes[index];
            assert(routes[index as int].2 == route.handler);
            let result = route.handler.call(&mut ctx);
            let ghost after = ctx@;
            let ok = result.is_ok();
            assert(route.handler.permits(before, after, ok));
            if !ok {
                ctx.fail();
                assert(settled(routes, found, i as int, after, ok, ctx@, true));
                assert(chain(routes, found, i as int, cur, ctx@, true));
                assert(dispatched(routes, request@, ctx@, true));
                break ;
            }
            if ctx.has_ended() {
                assert(settled(routes, found, i as int, after, ok, ctx@, false));
                assert(chain(routes, found, i as int, cur, ctx@, false));
                assert(dispatched(routes, request@, ctx@, false));
                break ;
            }
            assert forall|out: ContextView, failed: bool| #[trigger]
                chain(routes, found, i + 1, ctx@, out, failed) implies chain(
                routes,
                found,
                0,
                start,
                out,
                failed,
            ) by {
                if i + 1 >= found.len() {
                    assert(out == after && !failed);
                }
                assert(settled(routes, found, i as int, after, ok, out, failed));
                assert(chain(routes, found, i as int, cur, out, failed));
            }
            i += 1;
        }
        ctx
    }
}

/// What the bytes `written` say of a finished context: nothing is written
/// for a context that is raw, and the response is written out for any other.
pub open spec fn answers(out: ContextView, written: Option<Seq<u8>>) -> bool {
    if out.raw {
        written is None
    } else {
        written == Some(serialize(out.response))
    }
}

impl<H: HandlerFn> Server<H> {
    /// Serves the connection on which `buf` was read: parses the request in
    /// it, dispatches it, and gives the bytes to write back. A request that
    /// cannot be parsed is the error; nothing is to be written where a
    /// handler made the context raw.
    pub fn handle_connection(&self, buf: Bytes) -> (r: Result<Option<Vec<u8>>, RequestError>)
        ensures
            match parse_outcome(RequestView::empty(), bytes_contents(buf)) {
                (_, Err(e)) => r == Err::<Option<Vec<u8>>, RequestError>(e),
                (request, Ok(_)) => r is Ok && exists|out: ContextView, failed: bool|
                    #![trigger dispatched(self.routes(), request, out, failed)]
                    dispatched(self.routes(), request, out, failed) && answers(
                        out,
                        match r->Ok_0 {
                            Some(bytes) => Some(bytes@),
                            None => None,
                        },
                    ),
            },
    {
        let mut request = Request::new();
        match request.parse(buf) {
            Ok(()) => {},
            Err(e) => {
                return Err(e);
            },
        }
        let ghost parsed = request@;
        let ctx = self.dispatch(request);
        let ghost failed = choose|failed: bool| dispatched(self.routes(), parsed, ctx@, failed);
        if ctx.is_raw() {
            assert(dispatched(self.routes(), parsed, ctx@, failed) && answers(ctx@, None));
            Ok(None)
        } else {
            let bytes = ctx.written();
            assert(dispatched(self.routes(), parsed, ctx@, failed) && answers(
                ctx@,
                Some(bytes@),
            ));
            Ok(Some(bytes))
        }
    }
}

impl<H> Router<H> for Server<H> {
    open spec fn registered(&self) -> Seq<Registration<H>> {
        self.routes()
    }

    fn handle(&mut self, method: Method, path: &str, handler: H) -> (ret: &mut Self) {
        let route = Route { path: String::from_str(path), method: Some(method), handler };
        self.add_route(route);
        self
    }

    fn any(&mut self, path: &str, handler: H) -> (ret: &mut Self) {
        let route = Route { path: String::from_str(path), method: None, handler };
        self.add_route(route);
        self
    }

    fn get(&mut self, path: &str, handler: H) -> (ret: &mut Self) {
        self.handle(Method::GET, path, handler)
    }

    fn head(&mut self, path: &str, handler: H) -> (ret: &mut Self) {
        self.handle(Method::HEAD, path, handler)
    }

    fn post(&mut self, path: &str, handler: H) -> (ret: &mut Self) {
        self.handle(Method::POST, path, handler)
    }

    fn put(&mut self, path: &str, handler: H) -> (ret: &mut Self) {
        self.handle(Method::PUT, path, handler)
    }

    fn delete(&mut self, path: &str, handler: H) -> (ret: &mut Self) {
        self.handle(Method::DELETE, path, handler)
    }

    fn connect(&mut self, path: &str, handler: H) -> (ret: &mut Self) {
        self.handle(Method::CONNECT, path, handler)
    }

    fn options(&mut self, path: &str, handler: H) -> (ret: &mut Self) {
        self.handle(Method::OPTIONS, path, handler)
    }

    fn trace(&mut self, path: &str, handler: H) -> (ret: &mut Self) {
        self.handle(Method::TRACE, path, handler)
    }
}

} // verus!
