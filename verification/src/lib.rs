//! Core of a small HTTP/1.1 endpoint: a byte-level request parser, a router
//! that picks one of four behaviours by path prefix, and response encoding
//! (plain or gzip).  Socket and file-system access live outside this crate;
//! the functions here are pure decisions from bytes to bytes.

pub mod scan;
pub mod request;
pub mod parse;
pub mod response;
pub mod router;
