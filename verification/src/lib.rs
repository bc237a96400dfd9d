//! A small HTTP/1.1 request server core: request parsing, routing, the
//! built-in handlers and response framing, as pure functions on bytes.

pub mod connection;
pub mod handlers;
pub mod headers;
pub mod request;
pub mod response;
pub mod router;
pub mod text;
