//! The router: first-match dispatch on the path to one of four behaviours.
//! File-system work is not done here; the decision to read or write a file
//! is returned to the caller, which performs it and maps the outcome back to
//! a response through `file_read_response` / `file_write_response`.

use vstd::prelude::*;
use vstd::string::StringSliceAdditionalSpecFns;
use crate::scan::{
    SLASH, bytes_eq, contains_sub, copy_range, find_byte_from, find_first, has_sub, is_prefix,
    lemma_find_first_at, pair_views, seq_views, starts_with,
};
use crate::request::{HttpMethod, ReqModel, Request};
use crate::response::{Response, RespModel, StatusCode, dec_bytes, dec_of, empty_response,
    resp_empty};

verus! {

/// What the router decides: either a finished response, or a file operation
/// the caller must perform against the configured root.
#[derive(Debug)]
pub enum RouteOutcome {
    Done(Response),
    FileRead(Vec<u8>),
    FileWrite(Vec<u8>, Vec<u8>),
}

/// The mathematical shape of a routing decision.
pub enum OutcomeModel {
    Done(RespModel),
    FileRead(Seq<u8>),
    FileWrite(Seq<u8>, Seq<u8>),
}

impl View for RouteOutcome {
    type V = OutcomeModel;

    open spec fn view(&self) -> OutcomeModel {
        match self {
            RouteOutcome::Done(r) => OutcomeModel::Done(r@),
            RouteOutcome::FileRead(n) => OutcomeModel::FileRead(n@),
            RouteOutcome::FileWrite(n, b) => OutcomeModel::FileWrite(n@, b@),
        }
    }
}

pub open spec fn root_path() -> Seq<u8> {
    "/".spec_bytes()
}

pub open spec fn echo_prefix() -> Seq<u8> {
    "/echo/".spec_bytes()
}

pub open spec fn user_agent_path() -> Seq<u8> {
    "/user-agent".spec_bytes()
}

pub open spec fn files_prefix() -> Seq<u8> {
    "/files/".spec_bytes()
}

pub open spec fn accept_encoding_name() -> Seq<u8> {
    "accept-encoding".spec_bytes()
}

pub open spec fn gzip_lit() -> Seq<u8> {
    "gzip".spec_bytes()
}

pub open spec fn user_agent_name() -> Seq<u8> {
    "user-agent".spec_bytes()
}

pub open spec fn parent_dir() -> Seq<u8> {
    "..".spec_bytes()
}

pub open spec fn content_type_name() -> Seq<u8> {
    "Content-Type".spec_bytes()
}

pub open spec fn content_length_name() -> Seq<u8> {
    "Content-Length".spec_bytes()
}

pub open spec fn content_encoding_name() -> Seq<u8> {
    "Content-Encoding".spec_bytes()
}

pub open spec fn text_plain() -> Seq<u8> {
    "text/plain".spec_bytes()
}

pub open spec fn octet_stream() -> Seq<u8> {
    "application/octet-stream".spec_bytes()
}

/// The `/`-separated segments of a path, empty pieces kept.
pub open spec fn spec_segments(s: Seq<u8>) -> Seq<Seq<u8>>
    decreases s.len(),
{
    let j = find_first(s, SLASH);
    if 0 <= j < s.len() {
        seq![s.take(j)] + spec_segments(s.skip(j + 1))
    } else {
        seq![s]
    }
}

/// The third `/`-separated segment; empty when the path has fewer.
pub open spec fn echo_content(p: Seq<u8>) -> Seq<u8> {
    let segs = spec_segments(p);
    if segs.len() > 2 {
        segs[2]
    } else {
        seq![]
    }
}

/// The final `/`-separated segment.
pub open spec fn file_name_of(p: Seq<u8>) -> Seq<u8> {
    let segs = spec_segments(p);
    segs[segs.len() - 1]
}

/// Some header is named `accept-encoding` with a value mentioning `gzip`.
pub open spec fn wants_gzip(hs: Seq<(Seq<u8>, Seq<u8>)>) -> bool {
    exists|k: int|
        0 <= k < hs.len() && (#[trigger] hs[k]).0 == accept_encoding_name() && has_sub(
            hs[k].1,
            gzip_lit(),
        )
}

/// The value of the first header with the given name.
pub open spec fn header_lookup(hs: Seq<(Seq<u8>, Seq<u8>)>, name: Seq<u8>) -> Option<Seq<u8>>
    decreases hs.len(),
{
    if hs.len() == 0 {
        None
    } else if hs[0].0 == name {
        Some(hs[0].1)
    } else {
        header_lookup(hs.drop_first(), name)
    }
}

/// The gzip encoding of a payload, at the default level.
pub uninterp spec fn gzip_of(s: Seq<u8>) -> Seq<u8>;

/// Relies on flate2's `write::GzEncoder`: compressing into an in-memory
/// buffer cannot fail, and the output at the default level is a function of
/// the payload alone.
#[verifier::external_body]
fn gzip_compress(payload: &[u8]) -> (out: Vec<u8>)
    ensures
        out@ == gzip_of(payload@),
{
    let mut enc = flate2::write::GzEncoder::new(Vec::new(), flate2::Compression::default());
    std::io::Write::write_all(&mut enc, payload).expect("gzip write");
    enc.finish().expect("gzip finish")
}

/// The echo response: the payload plain, or gzip-encoded when asked for.
pub open spec fn spec_echo(req: ReqModel) -> RespModel {
    let c = echo_content(req.path);
    if wants_gzip(req.headers) {
        RespModel {
            status: StatusCode::Okay,
            headers: seq![
                (content_type_name(), text_plain()),
                (content_encoding_name(), gzip_lit()),
                (content_length_name(), dec_of(gzip_of(c).len())),
            ],
            body: gzip_of(c),
        }
    } else {
        RespModel {
            status: StatusCode::Okay,
            headers: seq![
                (content_type_name(), text_plain()),
                (content_length_name(), dec_of(c.len())),
            ],
            body: c,
        }
    }
}

/// The user-agent reflection: the header value, or 400 when absent.
pub open spec fn spec_user_agent(req: ReqModel) -> RespModel {
    match header_lookup(req.headers, user_agent_name()) {
        Some(v) => RespModel {
            status: StatusCode::Okay,
            headers: seq![
                (content_type_name(), text_plain()),
                (content_length_name(), dec_of(v.len())),
            ],
            body: v,
        },
        None => resp_empty(StatusCode::BadRequest),
    }
}

/// The files route.  A name pointing at the parent directory is refused
/// outright, so a request can never escape the configured root; otherwise
/// the method picks a read, a write, or a refusal.
pub open spec fn spec_files(req: ReqModel) -> OutcomeModel {
    let name = file_name_of(req.path);
    if name == parent_dir() {
        OutcomeModel::Done(resp_empty(StatusCode::NotFound))
    } else {
        match req.method {
            HttpMethod::Get => OutcomeModel::FileRead(name),
            HttpMethod::Post => OutcomeModel::FileWrite(name, req.body),
            HttpMethod::Unsupported => OutcomeModel::Done(
                resp_empty(StatusCode::MethodNotAllowed),
            ),
        }
    }
}

/// First-match dispatch over the four routes; anything else is 404.
pub open spec fn spec_route(req: ReqModel) -> OutcomeModel {
    if req.path == root_path() {
        OutcomeModel::Done(resp_empty(StatusCode::Okay))
    } else if is_prefix(echo_prefix(), req.path) {
        OutcomeModel::Done(spec_echo(req))
    } else if req.path == user_agent_path() {
        OutcomeModel::Done(spec_user_agent(req))
    } else if is_prefix(files_prefix(), req.path) {
        spec_files(req)
    } else {
        OutcomeModel::Done(resp_empty(StatusCode::NotFound))
    }
}

/// What a finished file read answers: the bytes, or 404.
pub open spec fn spec_file_read(contents: Option<Seq<u8>>) -> RespModel {
    match contents {
        Some(c) => RespModel {
            status: StatusCode::Okay,
            headers: seq![
                (content_type_name(), octet_stream()),
                (content_length_name(), dec_of(c.len())),
            ],
            body: c,
        },
        None => resp_empty(StatusCode::NotFound),
    }
}

/// What a finished file write answers: 201, or 500.
pub open spec fn spec_file_write(ok: bool) -> RespModel {
    if ok {
        resp_empty(StatusCode::Created)
    } else {
        resp_empty(StatusCode::ServerError)
    }
}

/// Exec split of a path into its `/`-separated segments.
pub fn split_segments(p: &[u8]) -> (r: Vec<Vec<u8>>)
    ensures
        seq_views(r@) == spec_segments(p@),
        r@.len() >= 1,
    decreases p@.len(),
{
    let j = find_byte_from(p, 0, SLASH);
    proof {
        lemma_find_first_at(p@, SLASH, j as int);
    }
    if j == p.len() {
        let piece = copy_range(p, 0, p.len());
        let mut r: Vec<Vec<u8>> = Vec::new();
        r.push(piece);
        proof {
            assert(p@.subrange(0, p@.len() as int) =~= p@);
            assert(seq_views(r@) =~= spec_segments(p@));
        }
        r
    } else {
        let piece = copy_range(p, 0, j);
        let restsl = vstd::slice::slice_subrange(p, j + 1, p.len());
        let rest = split_segments(restsl);
        let ghost pre = rest@;
        let mut r = rest;
        r.insert(0, piece);
        proof {
            assert(restsl@ =~= p@.skip(j as int + 1));
            assert(seq_views(r@) =~= seq![p@.take(j as int)] + seq_views(pre));
            assert(seq_views(r@) =~= spec_segments(p@));
        }
        r
    }
}

/// Does some header ask for gzip encoding?
pub fn accepts_gzip(headers: &Vec<(Vec<u8>, Vec<u8>)>) -> (r: bool)
    ensures
        r == wants_gzip(pair_views(headers@)),
{
    let ghost hv = pair_views(headers@);
    let mut i: usize = 0;
    while i < headers.len()
        invariant
            0 <= i <= headers@.len(),
            hv == pair_views(headers@),
            forall|k: int|
                0 <= k < i ==> !((#[trigger] hv[k]).0 == accept_encoding_name() && has_sub(
                    hv[k].1,
                    gzip_lit(),
                )),
        decreases headers@.len() - i,
    {
        let pair = vstd::slice::slice_index_get(headers.as_slice(), i);
        proof {
            assert(hv[i as int] == (headers@[i as int].0@, headers@[i as int].1@));
        }
        if bytes_eq(pair.0.as_slice(), "accept-encoding".as_bytes()) {
            if contains_sub(pair.1.as_slice(), "gzip".as_bytes()) {
                proof {
                    assert(hv[i as int].0 == accept_encoding_name());
                    assert(has_sub(hv[i as int].1, gzip_lit()));
                }
                return true;
            }
        }
        i = i + 1;
    }
    false
}

/// Find the value of the first header with the given name.
pub fn find_header(headers: &Vec<(Vec<u8>, Vec<u8>)>, name: &[u8]) -> (r: Option<Vec<u8>>)
    ensures
        match r {
            Some(v) => header_lookup(pair_views(headers@), name@) == Some(v@),
            None => header_lookup(pair_views(headers@), name@) is None,
        },
{
    let ghost hv = pair_views(headers@);
    proof {
        assert(hv.skip(0) =~= hv);
    }
    let mut i: usize = 0;
    while i < headers.len()
        invariant
            0 <= i <= headers@.len(),
            hv == pair_views(headers@),
            header_lookup(hv, name@) == header_lookup(hv.skip(i as int), name@),
        decreases headers@.len() - i,
    {
        let pair = vstd::slice::slice_index_get(headers.as_slice(), i);
        proof {
            assert(hv[i as int] == (headers@[i as int].0@, headers@[i as int].1@));
            assert(hv.skip(i as int)[0] == hv[i as int]);
            assert(hv.skip(i as int).drop_first() =~= hv.skip(i as int + 1));
        }
        if bytes_eq(pair.0.as_slice(), name) {
            let v = copy_range(pair.1.as_slice(), 0, pair.1.len());
            proof {
                assert(v@ =~= hv[i as int].1);
            }
            return Some(v);
        }
        i = i + 1;
    }
    proof {
        assert(hv.skip(hv.len() as int) =~= Seq::<(Seq<u8>, Seq<u8>)>::empty());
    }
    None
}

/// The echo route, as `spec_echo` describes.
pub fn handle_echo(req: &Request) -> (r: Response)
    ensures
        r@ == spec_echo(req@),
{
    let segs = split_segments(req.path.as_slice());
    let content: Vec<u8> = if segs.len() > 2 {
        let s2 = vstd::slice::slice_index_get(segs.as_slice(), 2);
        copy_range(s2.as_slice(), 0, s2.len())
    } else {
        Vec::new()
    };
    proof {
        if seq_views(segs@).len() > 2 {
            assert(seq_views(segs@)[2] == segs@[2]@);
        }
        assert(content@ =~= echo_content(req@.path));
    }
    if accepts_gzip(&req.headers) {
        let zipped = gzip_compress(content.as_slice());
        let zlen = zipped.len();
        let mut hs: Vec<(Vec<u8>, Vec<u8>)> = Vec::new();
        hs.push(
            (
                vstd::slice::slice_to_vec("Content-Type".as_bytes()),
                vstd::slice::slice_to_vec("text/plain".as_bytes()),
            ),
        );
        hs.push(
            (
                vstd::slice::slice_to_vec("Content-Encoding".as_bytes()),
                vstd::slice::slice_to_vec("gzip".as_bytes()),
            ),
        );
        hs.push((vstd::slice::slice_to_vec("Content-Length".as_bytes()), dec_bytes(zlen as u64)));
        let r = Response { status: StatusCode::Okay, headers: hs, body: zipped };
        proof {
            assert(pair_views(r.headers@) =~= spec_echo(req@).headers);
        }
        r
    } else {
        let clen = content.len();
        let mut hs: Vec<(Vec<u8>, Vec<u8>)> = Vec::new();
        hs.push(
            (
                vstd::slice::slice_to_vec("Content-Type".as_bytes()),
                vstd::slice::slice_to_vec("text/plain".as_bytes()),
            ),
        );
        hs.push((vstd::slice::slice_to_vec("Content-Length".as_bytes()), dec_bytes(clen as u64)));
        let r = Response { status: StatusCode::Okay, headers: hs, body: content };
        proof {
            assert(pair_views(r.headers@) =~= spec_echo(req@).headers);
        }
        r
    }
}

/// The user-agent route, as `spec_user_agent` describes.
pub fn handle_user_agent(req: &Request) -> (r: Response)
    ensures
        r@ == spec_user_agent(req@),
{
    match find_header(&req.headers, "user-agent".as_bytes()) {
        Some(v) => {
            let vlen = v.len();
            let mut hs: Vec<(Vec<u8>, Vec<u8>)> = Vec::new();
            hs.push(
                (
                    vstd::slice::slice_to_vec("Content-Type".as_bytes()),
                    vstd::slice::slice_to_vec("text/plain".as_bytes()),
                ),
            );
            hs.push(
                (vstd::slice::slice_to_vec("Content-Length".as_bytes()), dec_bytes(vlen as u64)),
            );
            let r = Response { status: StatusCode::Okay, headers: hs, body: v };
            proof {
                assert(pair_views(r.headers@) =~= spec_user_agent(req@).headers);
            }
            r
        },
        None => empty_response(StatusCode::BadRequest),
    }
}

/// The files route, as `spec_files` describes.
pub fn handle_files(req: &Request) -> (r: RouteOutcome)
    ensures
        r@ == spec_files(req@),
{
    let segs = split_segments(req.path.as_slice());
    let last = vstd::slice::slice_index_get(segs.as_slice(), segs.len() - 1);
    let name = copy_range(last.as_slice(), 0, last.len());
    proof {
        assert(seq_views(segs@)[seq_views(segs@).len() - 1] == segs@[segs@.len() - 1]@);
        assert(name@ =~= file_name_of(req@.path));
    }
    if bytes_eq(name.as_slice(), "..".as_bytes()) {
        return RouteOutcome::Done(empty_response(StatusCode::NotFound));
    }
    match req.method {
        HttpMethod::Get => {
            let r = RouteOutcome::FileRead(name);
            proof {
                assert(name@ == file_name_of(req@.path));
                assert(name@ != parent_dir());
                assert(req@.method == HttpMethod::Get);
                assert(r@ == spec_files(req@));
            }
            r
        },
        HttpMethod::Post => {
            let body = copy_range(req.body.as_slice(), 0, req.body.len());
            proof {
                assert(body@ =~= req@.body);
            }
            RouteOutcome::FileWrite(name, body)
        },
        HttpMethod::Unsupported => RouteOutcome::Done(empty_response(StatusCode::MethodNotAllowed)),
    }
}

/// Dispatch a parsed request, as `spec_route` describes.
pub fn handle_request(req: &Request) -> (r: RouteOutcome)
    ensures
        r@ == spec_route(req@),
{
    if bytes_eq(req.path.as_slice(), "/".as_bytes()) {
        RouteOutcome::Done(empty_response(StatusCode::Okay))
    } else if starts_with(req.path.as_slice(), "/echo/".as_bytes()) {
        RouteOutcome::Done(handle_echo(req))
    } else if bytes_eq(req.path.as_slice(), "/user-agent".as_bytes()) {
        RouteOutcome::Done(handle_user_agent(req))
    } else if starts_with(req.path.as_slice(), "/files/".as_bytes()) {
        handle_files(req)
    } else {
        RouteOutcome::Done(empty_response(StatusCode::NotFound))
    }
}

/// Map a finished file read to its response, as `spec_file_read` describes.
pub fn file_read_response(contents: Option<Vec<u8>>) -> (r: Response)
    ensures
        r@ == spec_file_read(
            match contents {
                Some(c) => Some(c@),
                None => None,
            },
        ),
{
    match contents {
        Some(c) => {
            let clen = c.len();
            let mut hs: Vec<(Vec<u8>, Vec<u8>)> = Vec::new();
            hs.push(
                (
                    vstd::slice::slice_to_vec("Content-Type".as_bytes()),
                    vstd::slice::slice_to_vec("application/octet-stream".as_bytes()),
                ),
            );
            hs.push(
                (vstd::slice::slice_to_vec("Content-Length".as_bytes()), dec_bytes(clen as u64)),
            );
            let r = Response { status: StatusCode::Okay, headers: hs, body: c };
            proof {
                assert(pair_views(r.headers@) =~= spec_file_read(Some(r.body@)).headers);
            }
            r
        },
        None => empty_response(StatusCode::NotFound),
    }
}

/// Map a finished file write to its response, as `spec_file_write` describes.
pub fn file_write_response(ok: bool) -> (r: Response)
    ensures
        r@ == spec_file_write(ok),
{
    if ok {
        empty_response(StatusCode::Created)
    } else {
        empty_response(StatusCode::ServerError)
    }
}

/// A path matching none of the four routes is answered 404, whatever the
/// method, headers and body.
pub proof fn lemma_unmatched_path_not_found(req: ReqModel)
    requires
        req.path != root_path(),
        !is_prefix(echo_prefix(), req.path),
        req.path != user_agent_path(),
        !is_prefix(files_prefix(), req.path),
    ensures
        spec_route(req) == OutcomeModel::Done(resp_empty(StatusCode::NotFound)),
{
}

} // verus!
