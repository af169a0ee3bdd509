//! A small HTTP/1.1 server core: request framing and parsing, routing,
//! gzip negotiation and response serialisation, all over plain bytes.
//! Sockets and files are handled by the caller, which feeds bytes in and
//! carries out the file operations that the connection logic asks for.

pub mod bytes;
pub mod headers;
pub mod request;
pub mod response;
pub mod gzip;
pub mod router;
pub mod connection;
pub mod laws;
