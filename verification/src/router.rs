//! Routes, the handlers registered on them, and the context that the
//! handlers of one request share.

use vstd::prelude::*;
use crate::method::Method;
use crate::ordered::OrderedMap;
use crate::path::{captures_of, match_path, path_match, Captures, RequestPath, RequestPathParams};
use crate::request::{Request, RequestView};
use crate::response::{serialize, text, Response, ResponseView};
use crate::status::{status_internal_server_error, status_not_found};

verus! {

/// What the handlers of one request share: the request, the response in the
/// making, what the route of the running handler captured, and two flags.
#[derive(Debug)]
pub struct Context {
    pub request: Request,
    pub response: Response,
    pub params: OrderedMap<RequestPathParams>,
    ended: bool,
    raw: bool,
}

/// A context as plain values.
pub struct ContextView {
    pub request: RequestView,
    pub response: ResponseView,
    pub params: Captures,
    /// No further handler is to run.
    pub ended: bool,
    /// A handler wrote to the transport itself: the response is not to be
    /// written out.
    pub raw: bool,
}

impl View for Context {
    type V = ContextView;

    closed spec fn view(&self) -> ContextView {
        ContextView {
            request: self.request@,
            response: self.response@,
            params: captures_of(self.params@),
            ended: self.ended,
            raw: self.raw,
        }
    }
}

/// The answer to a request that a handler failed on:
/// `500 Internal Server Error`, with a fixed body. Nothing of what the
/// handlers wrote or set is in it.
pub open spec fn failure_response() -> ResponseView {
    ResponseView {
        code: 500,
        reason: "Internal Server Error"@,
        body: text("internal server error"@),
        ..ResponseView::initial()
    }
}

/// The answer to a request that no route matches: `404 Not Found`, with a
/// fixed body.
pub open spec fn not_found_response() -> ResponseView {
    ResponseView {
        code: 404,
        reason: "Not Found"@,
        body: text("404 Not Found"@),
        ..ResponseView::initial()
    }
}

impl Default for Context {
    /// A context with an empty request and a new response.
    fn default() -> (ctx: Self)
        ensures
            ctx@ == (ContextView {
                request: RequestView::empty(),
                response: ResponseView::initial(),
                params: Seq::empty(),
                ended: false,
                raw: false,
            }),
    {
        Context::new()
    }
}

impl Context {
    /// A context with an empty request and a new response.
    pub fn new() -> (ctx: Self)
        ensures
            ctx@ == (ContextView {
                request: RequestView::empty(),
                response: ResponseView::initial(),
                params: Seq::empty(),
                ended: false,
                raw: false,
            }),
    {
        Context::from(Request::new(), Response::new())
    }

    /// A context for `request`, with `response` as the response in the making.
    pub fn from(request: Request, response: Response) -> (ctx: Self)
        ensures
            ctx@ == (ContextView {
                request: request@,
                response: response@,
                params: Seq::empty(),
                ended: false,
                raw: false,
            }),
    {
        let ctx = Context { request, response, params: OrderedMap::new(), ended: false, raw: false };
        assert(captures_of(ctx.params@) =~= Seq::empty());
        ctx
    }

    /// Says whether the response is to be kept from being written out.
    pub fn set_raw(&mut self, val: bool)
        ensures
            final(self)@ == (ContextView { raw: val, ..old(self)@ }),
    {
        self.raw = val;
    }

    /// Whether the response is to be kept from being written out.
    pub fn is_raw(&self) -> (r: bool)
        ensures
            r == self@.raw,
    {
        self.raw
    }

    /// Ends the chain: no further handler runs.
    pub fn end(&mut self)
        ensures
            final(self)@ == (ContextView { ended: true, ..old(self)@ }),
    {
        self.ended = true
    }

    /// Puts `params` in place of the captures.
    pub fn set_params(&mut self, params: OrderedMap<RequestPathParams>)
        ensures
            final(self)@ == (ContextView { params: captures_of(params@), ..old(self)@ }),
    {
        self.params = params;
    }

    /// Puts the answer to a request that a handler failed on in place of
    /// the response, whatever the handlers wrote or set.
    pub fn fail(&mut self)
        ensures
            final(self)@ == (ContextView { response: failure_response(), ..old(self)@ }),
    {
        let mut response = Response::new();
        response.write("internal server error".as_bytes());
        response.status_code(status_internal_server_error());
        assert(response@.body =~= text("internal server error"@));
        self.response = response;
    }

    /// Puts the answer to a request that no route matches in place of the
    /// response.
    pub fn not_found(&mut self)
        ensures
            final(self)@ == (ContextView { response: not_found_response(), ..old(self)@ }),
    {
        let mut response = Response::new();
        response.write("404 Not Found".as_bytes());
        response.status_code(status_not_found());
        assert(response@.body =~= text("404 Not Found"@));
        self.response = response;
    }

    /// The response, written out.
    pub fn written(&self) -> (out: Vec<u8>)
        ensures
            out@ == serialize(self@.response),
    {
        self.response.build()
    }

    /// Whether the chain has been ended.
    pub fn has_ended(&self) -> (r: bool)
        ensures
            r == self@.ended,
    {
        self.ended
    }
}

/// A handler: it works on the context of a request and succeeds or fails.
pub trait HandlerFn {
    /// What the handler may make of a context: `after` and `ok` are a
    /// possible outcome of a call on `before`. A handler that says nothing
    /// of itself permits everything.
    open spec fn permits(&self, before: ContextView, after: ContextView, ok: bool) -> bool {
        true
    }

    /// Runs the handler on `ctx`. `Err` carries a message for the log.
    fn call(&self, ctx: &mut Context) -> (r: Result<(), String>)
        ensures
            self.permits(old(ctx)@, final(ctx)@, r is Ok),
    ;
}

/// A handler registered for the paths that match a pattern, and for one
/// method or for all.
#[derive(Debug)]
pub struct Route<H> {
    /// The pattern.
    pub path: String,
    /// The method; `None` and `ANY` stand for every method.
    pub method: Option<Method>,
    pub handler: H,
}

/// Registration of handlers. A handler that is registered later runs later.
pub trait Router<F>: Sized {
    /// The patterns, methods and handlers registered so far, in their order.
    spec fn registered(&self) -> Seq<(Seq<char>, Option<Method>, F)>;

    /// Registers `handler` for `method` on the paths that match `path`.
    fn handle(&mut self, method: Method, path: &str, handler: F) -> (ret: &mut Self)
        ensures
            ret.registered() == old(self).registered().push((path@, Some(method), handler)),
            *final(self) == *final(ret),
    ;

    /// Registers `handler` for every method on the paths that match `path`.
    fn any(&mut self, path: &str, handler: F) -> (ret: &mut Self)
        ensures
            ret.registered() == old(self).registered().push((path@, None, handler)),
            *final(self) == *final(ret),
    ;

    /// Registers `handler` for `GET`.
    fn get(&mut self, path: &str, handler: F) -> (ret: &mut Self)
        ensures
            ret.registered() == old(self).registered().push((path@, Some(Method::GET), handler)),
            *final(self) == *final(ret),
    ;

    /// Registers `handler` for `HEAD`.
    fn head(&mut self, path: &str, handler: F) -> (ret: &mut Self)
        ensures
            ret.registered() == old(self).registered().push((path@, Some(Method::HEAD), handler)),
            *final(self) == *final(ret),
    ;

    /// Registers `handler` for `POST`.
    fn post(&mut self, path: &str, handler: F) -> (ret: &mut Self)
        ensures
            ret.registered() == old(self).registered().push((path@, Some(Method::POST), handler)),
            *final(self) == *final(ret),
    ;

    /// Registers `handler` for `PUT`.
    fn put(&mut self, path: &str, handler: F) -> (ret: &mut Self)
        ensures
            ret.registered() == old(self).registered().push((path@, Some(Method::PUT), handler)),
            *final(self) == *final(ret),
    ;

    /// Registers `handler` for `DELETE`.
    fn delete(&mut self, path: &str, handler: F) -> (ret: &mut Self)
        ensures
            ret.registered() == old(self).registered().push(
                (path@, Some(Method::DELETE), handler),
            ),
            *final(self) == *final(ret),
    ;

    /// Registers `handler` for `CONNECT`.
    fn connect(&mut self, path: &str, handler: F) -> (ret: &mut Self)
        ensures
            ret.registered() == old(self).registered().push(
                (path@, Some(Method::CONNECT), handler),
            ),
            *final(self) == *final(ret),
    ;

    /// Registers `handler` for `OPTIONS`.
    fn options(&mut self, path: &str, handler: F) -> (ret: &mut Self)
        ensures
            ret.registered() == old(self).registered().push(
                (path@, Some(Method::OPTIONS), handler),
            ),
            *final(self) == *final(ret),
    ;

    /// Registers `handler` for `TRACE`.
    fn trace(&mut self, path: &str, handler: F) -> (ret: &mut Self)
        ensures
            ret.registered() == old(self).registered().push((path@, Some(Method::TRACE), handler)),
            *final(self) == *final(ret),
    ;
}

/// The path of a request; empty where none was parsed.
pub open spec fn request_path(request: RequestView) -> Seq<char> {
    match request.path {
        Some(p) => p,
        None => Seq::empty(),
    }
}

/// Matches the path of `request` against the pattern of `route`: the path
/// and what the pattern captured, or `None` where the path does not match.
/// The method is not looked at.
pub fn find_request_path<H>(request: &Request, route: &Route<H>) -> (r: Option<RequestPath>)
    ensures
        match path_match(request_path(request@), route.path@) {
            Some(captures) => r matches Some(found) && found.path@ == request_path(request@)
                && captures_of(found.params@) == captures,
            None => r is None,
        },
{
    let path = match &request.path {
        Some(p) => p.clone(),
        None => String::new(),
    };
    match match_path(path.as_str(), route.path.as_str()) {
        Some(params) => Some(RequestPath { path, params }),
        None => None,
    }
}

} // verus!
