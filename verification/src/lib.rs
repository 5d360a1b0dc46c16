//! A minimal HTTP/1.1 request pipeline: line framing, request parsing,
//! routing over a fixed route table, response construction and
//! serialization, with gzip content negotiation.
//!
//! The crate holds the protocol logic only. Sockets, threads and the
//! filesystem stay with the caller, which feeds bytes in and carries
//! file contents and response bytes back out.
pub mod bytes;
pub mod framing;
pub mod gzip;
pub mod handler;
pub mod header;
pub mod negotiate;
pub mod request;
pub mod response;
pub mod router;
