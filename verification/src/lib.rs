//! A minimal HTTP-style request/response library: a request parser, a
//! header map, a byte-exact response formatter, and a fixed route table.
//!
//! The wire protocol is CRLF-delimited ASCII text. All lengths in contracts
//! are counted in characters of the view; for the ASCII protocol in scope
//! this coincides with the byte count.

pub mod headers;
pub mod laws;
pub mod request;
pub mod response;
pub mod router;
pub mod text;
