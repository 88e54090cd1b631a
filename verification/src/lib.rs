//! A minimal HTTP/1.1 request-processing core: an incremental request
//! parser, a route table with literal and templated paths, a dispatcher
//! with content-negotiation passthrough, and a response serializer.
//!
//! The connection handling itself — accepting sockets, reading bytes,
//! writing the response back — lives outside this crate; the library
//! works on the bytes of one request and produces the exact wire text of
//! one response.

pub mod api;
pub mod handler;
pub mod headers;
pub mod method;
pub mod parser;
pub mod request;
pub mod response;
pub mod router;
pub mod server;
pub mod status;
pub mod strutil;
