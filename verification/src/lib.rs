//! Request/response codec for a minimal HTTP/1.x server.
//!
//! The crate turns the bytes of one client request into typed values
//! (request line, header fields, query string, body) and turns a typed
//! response back into the exact bytes to write to the connection.  It
//! also contains a from-scratch RFC 1123 date codec used for the `Date`
//! and `Last-Modified` headers.
//!
//! All I/O stays outside the crate: callers read the bytes of a request
//! from their connection and hand them in as plain values.

pub mod error;
pub mod text;
pub mod date;
pub mod request_line;
pub mod content_type;
pub mod query;
pub mod header;
pub mod request;
pub mod response;
