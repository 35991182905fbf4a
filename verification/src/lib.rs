//! A minimal HTTP/1.1 request router.
//!
//! Raw request bytes are parsed into a structured `Request` (method, path,
//! query parameters), matched against registered route templates such as
//! `/greet/{name}`, dispatched to a handler, and the handler's `Response`
//! is rendered into the exact wire string the server writes back.
//!
//! The connection handling itself (sockets, the accept loop) is outside this
//! library: callers hand in the raw request text and write out the returned
//! response string.

mod request;
mod response;
mod route;
mod server;
mod strutil;

pub use request::{parse_request_from_http_request_body, HttpMethod, Request, RequestParseError};
pub use response::{
    response_from_outcome, response_from_text, response_into_http_response_string, HttpHeaderName,
    HttpStatusCode, Response,
};
pub use route::{request_matches_route, set_request_params_according_to_match};
pub use server::{Handler, Server};
