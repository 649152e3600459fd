//! Responses and their exact wire form: a status line, each header as
//! `name: value`, a blank line, then the raw body bytes.

use vstd::prelude::*;
use vstd::string::StringSliceAdditionalSpecFns;
use crate::scan::{CR, LF, SP, append_bytes, crlf, pair_views};
use crate::parse::colon_sp;

verus! {

#[derive(Clone, Copy, PartialEq, Eq, Structural, Debug)]
pub enum StatusCode {
    Okay,
    Created,
    BadRequest,
    NotFound,
    MethodNotAllowed,
    ServerError,
}

/// One response: status, headers in write order, raw body bytes.
#[derive(Debug)]
pub struct Response {
    pub status: StatusCode,
    pub headers: Vec<(Vec<u8>, Vec<u8>)>,
    pub body: Vec<u8>,
}

/// The mathematical shape of a response.
pub struct RespModel {
    pub status: StatusCode,
    pub headers: Seq<(Seq<u8>, Seq<u8>)>,
    pub body: Seq<u8>,
}

impl View for Response {
    type V = RespModel;

    open spec fn view(&self) -> RespModel {
        RespModel {
            status: self.status,
            headers: pair_views(self.headers@),
            body: self.body@,
        }
    }
}

/// A response with the given status and neither headers nor body.
pub open spec fn resp_empty(status: StatusCode) -> RespModel {
    RespModel { status, headers: seq![], body: seq![] }
}

/// The exact status line each code is written as.
pub open spec fn spec_status_line(s: StatusCode) -> Seq<u8> {
    match s {
        StatusCode::Okay => "HTTP/1.1 200 OK".spec_bytes() + crlf(),
        StatusCode::Created => "HTTP/1.1 201 Created".spec_bytes() + crlf(),
        StatusCode::BadRequest => "HTTP/1.1 400 Bad Request".spec_bytes() + crlf(),
        StatusCode::NotFound => "HTTP/1.1 404 Not Found".spec_bytes() + crlf(),
        StatusCode::MethodNotAllowed => "HTTP/1.1 405 Method Not Allowed".spec_bytes() + crlf(),
        StatusCode::ServerError => "HTTP/1.1 500 Internal Server Error".spec_bytes() + crlf(),
    }
}

/// Each header written as `name: value` followed by a line break.
pub open spec fn spec_header_block(hs: Seq<(Seq<u8>, Seq<u8>)>) -> Seq<u8>
    decreases hs.len(),
{
    if hs.len() == 0 {
        seq![]
    } else {
        hs[0].0 + colon_sp() + hs[0].1 + crlf() + spec_header_block(hs.drop_first())
    }
}

/// The wire form: status line, header block, blank line, body.
pub open spec fn spec_response_bytes(r: RespModel) -> Seq<u8> {
    spec_status_line(r.status) + spec_header_block(r.headers) + crlf() + r.body
}

/// Decimal digits of `n`, most significant first.
pub open spec fn dec_of(n: nat) -> Seq<u8>
    decreases n,
{
    if n < 10 {
        seq![(48 + n) as u8]
    } else {
        dec_of(n / 10).push((48 + n % 10) as u8)
    }
}

/// Append the decimal digits of `n`, as `dec_of` describes.
pub fn push_dec(n: u64, out: &mut Vec<u8>)
    ensures
        final(out)@ == old(out)@ + dec_of(n as nat),
    decreases n,
{
    if n < 10 {
        out.push(48 + n as u8);
        proof {
            assert(old(out)@ + dec_of(n as nat) =~= old(out)@.push((48 + n as nat) as u8));
        }
    } else {
        push_dec(n / 10, out);
        out.push(48 + (n % 10) as u8);
        proof {
            assert(old(out)@ + dec_of(n as nat) =~= (old(out)@ + dec_of((n / 10) as nat)).push(
                (48 + (n as nat) % 10) as u8,
            ));
        }
    }
}

/// The decimal form of a length, as a fresh vector.
pub fn dec_bytes(n: u64) -> (v: Vec<u8>)
    ensures
        v@ == dec_of(n as nat),
{
    let mut v: Vec<u8> = Vec::new();
    push_dec(n, &mut v);
    proof {
        assert(Seq::<u8>::empty() + dec_of(n as nat) =~= dec_of(n as nat));
    }
    v
}

/// The status line as exec bytes.
pub fn status_line_bytes(s: StatusCode) -> (v: Vec<u8>)
    ensures
        v@ == spec_status_line(s),
{
    let mut v: Vec<u8> = match s {
        StatusCode::Okay => vstd::slice::slice_to_vec("HTTP/1.1 200 OK".as_bytes()),
        StatusCode::Created => vstd::slice::slice_to_vec("HTTP/1.1 201 Created".as_bytes()),
        StatusCode::BadRequest => vstd::slice::slice_to_vec("HTTP/1.1 400 Bad Request".as_bytes()),
        StatusCode::NotFound => vstd::slice::slice_to_vec("HTTP/1.1 404 Not Found".as_bytes()),
        StatusCode::MethodNotAllowed => vstd::slice::slice_to_vec(
            "HTTP/1.1 405 Method Not Allowed".as_bytes(),
        ),
        StatusCode::ServerError => vstd::slice::slice_to_vec(
            "HTTP/1.1 500 Internal Server Error".as_bytes(),
        ),
    };
    v.push(CR);
    v.push(LF);
    proof {
        assert(v@ =~= spec_status_line(s));
    }
    v
}

/// Append each of `hs[i..]` as `name: value` and a line break.
fn append_header_block(out: &mut Vec<u8>, hs: &[(Vec<u8>, Vec<u8>)], i: usize)
    requires
        i <= hs@.len(),
    ensures
        final(out)@ == old(out)@ + spec_header_block(pair_views(hs@).skip(i as int)),
    decreases hs@.len() - i,
{
    let ghost hv = pair_views(hs@);
    if i == hs.len() {
        proof {
            assert(old(out)@ + spec_header_block(hv.skip(i as int)) =~= old(out)@);
        }
        return;
    }
    let pair = vstd::slice::slice_index_get(hs, i);
    append_bytes(out, pair.0.as_slice());
    out.push(58);
    out.push(SP);
    append_bytes(out, pair.1.as_slice());
    out.push(CR);
    out.push(LF);
    let ghost mid = out@;
    append_header_block(out, hs, i + 1);
    proof {
        assert(hv.skip(i as int)[0] == hv[i as int]);
        assert(hv.skip(i as int).drop_first() =~= hv.skip(i as int + 1));
        assert(mid =~= old(out)@ + hv[i as int].0 + colon_sp() + hv[i as int].1 + crlf());
        assert(out@ =~= old(out)@ + spec_header_block(hv.skip(i as int)));
    }
}

/// Serialize a response to its exact wire bytes.
pub fn response_bytes(r: &Response) -> (v: Vec<u8>)
    ensures
        v@ == spec_response_bytes(r@),
{
    let mut v = status_line_bytes(r.status);
    append_header_block(&mut v, r.headers.as_slice(), 0);
    v.push(CR);
    v.push(LF);
    append_bytes(&mut v, r.body.as_slice());
    proof {
        assert(pair_views(r.headers@).skip(0) =~= pair_views(r.headers@));
        assert(v@ =~= spec_response_bytes(r@));
    }
    v
}

/// A response with only a status line.
pub fn empty_response(status: StatusCode) -> (r: Response)
    ensures
        r@ == resp_empty(status),
{
    let r = Response { status, headers: Vec::new(), body: Vec::new() };
    proof {
        assert(pair_views(r.headers@) =~= resp_empty(status).headers);
        assert(r.body@ =~= resp_empty(status).body);
    }
    r
}

} // verus!
