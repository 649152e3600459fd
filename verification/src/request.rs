//! The parsed shape of one request, and its mathematical model.

use vstd::prelude::*;
use crate::scan::pair_views;

verus! {

#[derive(Clone, Copy, PartialEq, Eq, Structural, Debug)]
pub enum HttpMethod {
    Get,
    Post,
    Unsupported,
}

#[derive(Clone, Copy, PartialEq, Eq, Structural, Debug)]
pub enum ParseError {
    /// The buffer decoded to no lines at all.
    Empty,
    /// The request line had fewer than two whitespace-separated tokens.
    MalformedRequestLine,
}

/// One request, as read from a connection: method, path taken verbatim,
/// headers in arrival order with names folded to lower case, and the body
/// bytes after the first blank line.
#[derive(Debug)]
pub struct Request {
    pub method: HttpMethod,
    pub path: Vec<u8>,
    pub headers: Vec<(Vec<u8>, Vec<u8>)>,
    pub body: Vec<u8>,
}

/// The mathematical shape of a parsed request.
pub struct ReqModel {
    pub method: HttpMethod,
    pub path: Seq<u8>,
    pub headers: Seq<(Seq<u8>, Seq<u8>)>,
    pub body: Seq<u8>,
}

impl View for Request {
    type V = ReqModel;

    open spec fn view(&self) -> ReqModel {
        ReqModel {
            method: self.method,
            path: self.path@,
            headers: pair_views(self.headers@),
            body: self.body@,
        }
    }
}

} // verus!
