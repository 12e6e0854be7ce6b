//! An HTTP/1.1 server core: a byte-level request parser, a response
//! serializer, and a router that runs the handlers registered for a path.

pub mod buffer;
pub mod error;
pub mod laws;
pub mod method;
pub mod ordered;
pub mod path;
pub mod request;
pub mod response;
pub mod router;
pub mod server;
pub mod status;
pub mod text;
pub mod tokens;
pub mod wire;

pub use crate::error::{HeaderError, RequestError};
pub use crate::method::Method;
pub use crate::ordered::OrderedMap;
pub use crate::path::{match_path, RequestPath, RequestPathParams};
pub use crate::request::{Request, RequestHeaders};
pub use crate::response::{ContentType, HttpResponse, Response};
pub use crate::router::{find_request_path, Context, HandlerFn, Route, Router};
pub use crate::server::Server;
pub use httpstatus::{StatusClass, StatusCode};
