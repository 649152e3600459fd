//! The request parser: a raw buffer is decoded permissively as text, split
//! into lines at line feeds, the first line read as `method path ...`, the
//! following lines up to the first empty one read as `name: value` headers,
//! and everything after that empty line rejoined as the body.

use vstd::prelude::*;
use vstd::string::StringSliceAdditionalSpecFns;
use crate::scan::{
    CR, LF, SP, append_bytes, bytes_eq, copy_range, crlf, find_byte_from, find_first,
    find_ws_from, first_ws, is_ws, is_ws_byte, lemma_find_first_at, lemma_find_sub_at,
    lemma_first_ws_at, find_sub, find_sub_in, lower, lower_bytes, pair_views, seq_views,
};
use crate::request::{HttpMethod, ParseError, ReqModel, Request};

verus! {

/// One trailing carriage return removed, if present.
pub open spec fn strip_cr(l: Seq<u8>) -> Seq<u8> {
    if l.len() > 0 && l[l.len() - 1] == CR {
        l.drop_last()
    } else {
        l
    }
}

/// The lines of `s`: split at line feeds, with one carriage return dropped
/// from the end of each piece that a line feed closed; a line feed at the
/// very end closes the last line rather than opening an empty one.
pub open spec fn spec_lines(s: Seq<u8>) -> Seq<Seq<u8>>
    decreases s.len(),
{
    if s.len() == 0 {
        seq![]
    } else {
        let j = find_first(s, LF);
        if 0 <= j < s.len() {
            seq![strip_cr(s.take(j))] + spec_lines(s.skip(j + 1))
        } else {
            seq![s]
        }
    }
}

/// Maximal runs of non-whitespace bytes, in order.
pub open spec fn spec_tokens(s: Seq<u8>) -> Seq<Seq<u8>>
    decreases s.len(),
{
    if s.len() == 0 {
        seq![]
    } else if is_ws(s[0]) {
        spec_tokens(s.drop_first())
    } else {
        let j = first_ws(s);
        if 0 < j <= s.len() {
            seq![s.take(j)] + spec_tokens(s.skip(j))
        } else {
            seq![s]
        }
    }
}

/// The literal header separator, a colon followed by a space.
pub open spec fn colon_sp() -> Seq<u8> {
    seq![58u8, SP]
}

/// A header line split at the first `": "`: the name folded to lower case,
/// the value kept verbatim; `None` when the separator is absent.
pub open spec fn spec_split_header(l: Seq<u8>) -> Option<(Seq<u8>, Seq<u8>)> {
    let j = find_sub(l, colon_sp());
    if j >= 0 {
        Some((lower(l.take(j)), l.skip(j + 2)))
    } else {
        None
    }
}

/// The headers read from consecutive lines up to the first empty one; lines
/// without the separator are dropped silently.
pub open spec fn spec_headers_of(rest: Seq<Seq<u8>>) -> Seq<(Seq<u8>, Seq<u8>)>
    decreases rest.len(),
{
    if rest.len() == 0 || rest[0].len() == 0 {
        seq![]
    } else {
        match spec_split_header(rest[0]) {
            Some(h) => seq![h] + spec_headers_of(rest.drop_first()),
            None => spec_headers_of(rest.drop_first()),
        }
    }
}

/// Index of the first empty line; `rest.len()` when there is none.
pub open spec fn first_blank(rest: Seq<Seq<u8>>) -> int
    decreases rest.len(),
{
    if rest.len() == 0 {
        0
    } else if rest[0].len() == 0 {
        0
    } else {
        1 + first_blank(rest.drop_first())
    }
}

/// The pieces rejoined with single line feeds.
pub open spec fn spec_join(ps: Seq<Seq<u8>>) -> Seq<u8>
    decreases ps.len(),
{
    if ps.len() == 0 {
        seq![]
    } else if ps.len() == 1 {
        ps[0]
    } else {
        ps[0] + seq![LF] + spec_join(ps.drop_first())
    }
}

pub open spec fn get_token() -> Seq<u8> {
    "GET".spec_bytes()
}

pub open spec fn post_token() -> Seq<u8> {
    "POST".spec_bytes()
}

/// Exact match on the method token; anything unknown is a legal request
/// with an unsupported method, not a parse failure.
pub open spec fn spec_method(t: Seq<u8>) -> HttpMethod {
    if t == get_token() {
        HttpMethod::Get
    } else if t == post_token() {
        HttpMethod::Post
    } else {
        HttpMethod::Unsupported
    }
}

/// What parsing a decoded text buffer yields.
pub open spec fn spec_parse(s: Seq<u8>) -> Result<ReqModel, ParseError> {
    let ls = spec_lines(s);
    if ls.len() == 0 {
        Err(ParseError::Empty)
    } else {
        let toks = spec_tokens(ls[0]);
        if toks.len() < 2 {
            Err(ParseError::MalformedRequestLine)
        } else {
            let rest = ls.drop_first();
            let fb = first_blank(rest);
            Ok(
                ReqModel {
                    method: spec_method(toks[0]),
                    path: toks[1],
                    headers: spec_headers_of(rest),
                    body: if fb < rest.len() {
                        spec_join(rest.skip(fb + 1))
                    } else {
                        seq![]
                    },
                },
            )
        }
    }
}

/// An exec parse result agrees with the spec-level one.
pub open spec fn parse_agrees(
    r: Result<Request, ParseError>,
    m: Result<ReqModel, ParseError>,
) -> bool {
    match (r, m) {
        (Ok(req), Ok(mm)) => req@ == mm,
        (Err(e), Err(me)) => e == me,
        _ => false,
    }
}

/// Split the text into lines, as `spec_lines` describes.
pub fn split_lines(t: &[u8]) -> (r: Vec<Vec<u8>>)
    ensures
        seq_views(r@) == spec_lines(t@),
    decreases t@.len(),
{
    if t.len() == 0 {
        let r: Vec<Vec<u8>> = Vec::new();
        proof {
            assert(seq_views(r@) =~= spec_lines(t@));
        }
        return r;
    }
    let j = find_byte_from(t, 0, LF);
    proof {
        lemma_find_first_at(t@, LF, j as int);
    }
    if j == t.len() {
        let piece = copy_range(t, 0, t.len());
        let mut r: Vec<Vec<u8>> = Vec::new();
        r.push(piece);
        proof {
            assert(t@.subrange(0, t@.len() as int) =~= t@);
            assert(seq_views(r@) =~= spec_lines(t@));
        }
        r
    } else {
        let mut piece = copy_range(t, 0, j);
        if piece.len() > 0 && piece[piece.len() - 1] == CR {
            piece.pop();
            proof {
                assert(piece@ =~= strip_cr(t@.take(j as int)));
            }
        } else {
            proof {
                assert(piece@ =~= strip_cr(t@.take(j as int)));
            }
        }
        let restsl = vstd::slice::slice_subrange(t, j + 1, t.len());
        let rest = split_lines(restsl);
        let ghost pre = rest@;
        let mut r = rest;
        r.insert(0, piece);
        proof {
            assert(restsl@ =~= t@.skip(j as int + 1));
            assert(seq_views(r@) =~= seq![strip_cr(t@.take(j as int))] + seq_views(pre));
            assert(seq_views(r@) =~= spec_lines(t@));
        }
        r
    }
}

/// Split a line into whitespace-separated tokens, as `spec_tokens` describes.
pub fn tokenize(l: &[u8]) -> (r: Vec<Vec<u8>>)
    ensures
        seq_views(r@) == spec_tokens(l@),
    decreases l@.len(),
{
    if l.len() == 0 {
        let r: Vec<Vec<u8>> = Vec::new();
        proof {
            assert(seq_views(r@) =~= spec_tokens(l@));
        }
        return r;
    }
    if is_ws_byte(l[0]) {
        let restsl = vstd::slice::slice_subrange(l, 1, l.len());
        let r = tokenize(restsl);
        proof {
            assert(restsl@ =~= l@.drop_first());
        }
        r
    } else {
        let j = find_ws_from(l, 0);
        proof {
            lemma_first_ws_at(l@, j as int);
        }
        let piece = copy_range(l, 0, j);
        let restsl = vstd::slice::slice_subrange(l, j, l.len());
        let rest = tokenize(restsl);
        let ghost pre = rest@;
        let mut r = rest;
        r.insert(0, piece);
        proof {
            assert(restsl@ =~= l@.skip(j as int));
            assert(piece@ =~= l@.take(j as int));
            assert(seq_views(r@) =~= seq![l@.take(j as int)] + seq_views(pre));
        }
        r
    }
}

/// The header separator as an exec value.
pub fn colon_sp_bytes() -> (v: Vec<u8>)
    ensures
        v@ == colon_sp(),
{
    let mut v: Vec<u8> = Vec::new();
    v.push(58);
    v.push(SP);
    proof {
        assert(v@ =~= colon_sp());
    }
    v
}

/// Split one header line at the first `": "`, as `spec_split_header`
/// describes.
pub fn split_header(l: &[u8]) -> (r: Option<(Vec<u8>, Vec<u8>)>)
    ensures
        match r {
            Some(h) => spec_split_header(l@) == Some((h.0@, h.1@)),
            None => spec_split_header(l@) is None,
        },
{
    let sepv = colon_sp_bytes();
    match find_sub_in(l, sepv.as_slice()) {
        Some(j) => {
            let llen = l.len();
            let name = lower_bytes(vstd::slice::slice_subrange(l, 0, j));
            let value = copy_range(l, j + 2, llen);
            proof {
                assert(l@.subrange(0, j as int) =~= l@.take(j as int));
                assert(l@.subrange(j as int + 2, l@.len() as int) =~= l@.skip(j as int + 2));
            }
            Some((name, value))
        },
        None => None,
    }
}

/// Collect headers from `lines[i..]` up to the first empty line.
pub fn collect_headers(lines: &[Vec<u8>], i: usize) -> (r: Vec<(Vec<u8>, Vec<u8>)>)
    requires
        i <= lines@.len(),
    ensures
        pair_views(r@) == spec_headers_of(seq_views(lines@).skip(i as int)),
    decreases lines@.len() - i,
{
    let ghost rest = seq_views(lines@).skip(i as int);
    if i == lines.len() {
        let r: Vec<(Vec<u8>, Vec<u8>)> = Vec::new();
        proof {
            assert(pair_views(r@) =~= spec_headers_of(rest));
        }
        return r;
    }
    let li = vstd::slice::slice_index_get(lines, i);
    if li.len() == 0 {
        let r: Vec<(Vec<u8>, Vec<u8>)> = Vec::new();
        proof {
            assert(rest[0] == lines@[i as int]@);
            assert(pair_views(r@) =~= spec_headers_of(rest));
        }
        return r;
    }
    let h = split_header(li.as_slice());
    let tail = collect_headers(lines, i + 1);
    proof {
        assert(rest[0] == lines@[i as int]@);
        assert(rest.drop_first() =~= seq_views(lines@).skip(i as int + 1));
    }
    match h {
        Some(hv) => {
            let ghost h0 = hv.0@;
            let ghost h1 = hv.1@;
            let ghost pre = tail@;
            let mut r = tail;
            r.insert(0, hv);
            proof {
                assert(pair_views(r@) =~= seq![(h0, h1)] + pair_views(pre));
            }
            r
        },
        None => tail,
    }
}

/// Absolute index of the first empty line at or after `i`; `lines.len()`
/// when there is none.
pub fn find_blank(lines: &[Vec<u8>], i: usize) -> (r: usize)
    requires
        i <= lines@.len(),
    ensures
        i <= r <= lines@.len(),
        r - i == first_blank(seq_views(lines@).skip(i as int)),
    decreases lines@.len() - i,
{
    if i == lines.len() {
        return i;
    }
    let li = vstd::slice::slice_index_get(lines, i);
    proof {
        assert(seq_views(lines@).skip(i as int)[0] == lines@[i as int]@);
    }
    if li.len() == 0 {
        return i;
    }
    let r = find_blank(lines, i + 1);
    proof {
        assert(seq_views(lines@).skip(i as int).drop_first() =~= seq_views(lines@).skip(
            i as int + 1,
        ));
    }
    r
}

/// Join `lines[i..]` with single line feeds, as `spec_join` describes.
pub fn join_lines(lines: &[Vec<u8>], i: usize) -> (r: Vec<u8>)
    requires
        i <= lines@.len(),
    ensures
        r@ == spec_join(seq_views(lines@).skip(i as int)),
    decreases lines@.len() - i,
{
    let ghost ps = seq_views(lines@).skip(i as int);
    if i == lines.len() {
        let r: Vec<u8> = Vec::new();
        proof {
            assert(r@ =~= spec_join(ps));
        }
        return r;
    }
    let li = vstd::slice::slice_index_get(lines, i);
    let mut out = copy_range(li.as_slice(), 0, li.len());
    proof {
        assert(ps[0] == lines@[i as int]@);
        assert(out@ =~= ps[0]);
    }
    if i + 1 == lines.len() {
        return out;
    }
    out.push(LF);
    let rest = join_lines(lines, i + 1);
    append_bytes(&mut out, rest.as_slice());
    proof {
        assert(ps.drop_first() =~= seq_views(lines@).skip(i as int + 1));
        assert(out@ =~= ps[0] + seq![LF] + spec_join(ps.drop_first()));
    }
    out
}

/// Map the method token to its enum value, as `spec_method` describes.
pub fn parse_method(t: &[u8]) -> (m: HttpMethod)
    ensures
        m == spec_method(t@),
{
    if bytes_eq(t, "GET".as_bytes()) {
        HttpMethod::Get
    } else if bytes_eq(t, "POST".as_bytes()) {
        HttpMethod::Post
    } else {
        HttpMethod::Unsupported
    }
}

/// Parse an already-decoded text buffer into a request.
pub fn parse_request_text(text: &[u8]) -> (r: Result<Request, ParseError>)
    ensures
        parse_agrees(r, spec_parse(text@)),
{
    let ghost ls = spec_lines(text@);
    let lines = split_lines(text);
    if lines.len() == 0 {
        return Err(ParseError::Empty);
    }
    let l0 = vstd::slice::slice_index_get(lines.as_slice(), 0);
    proof {
        assert(seq_views(lines@)[0] == lines@[0]@);
    }
    let tokens = tokenize(l0.as_slice());
    if tokens.len() < 2 {
        return Err(ParseError::MalformedRequestLine);
    }
    let t0 = vstd::slice::slice_index_get(tokens.as_slice(), 0);
    let t1 = vstd::slice::slice_index_get(tokens.as_slice(), 1);
    proof {
        assert(seq_views(tokens@)[0] == tokens@[0]@);
        assert(seq_views(tokens@)[1] == tokens@[1]@);
    }
    let method = parse_method(t0.as_slice());
    let path = copy_range(t1.as_slice(), 0, t1.len());
    let headers = collect_headers(lines.as_slice(), 1);
    let blank = find_blank(lines.as_slice(), 1);
    let body: Vec<u8> = if blank < lines.len() {
        join_lines(lines.as_slice(), blank + 1)
    } else {
        Vec::new()
    };
    proof {
        let rest = ls.drop_first();
        assert(rest =~= seq_views(lines@).skip(1));
        assert(path@ =~= tokens@[1]@);
        let fb = first_blank(rest);
        assert(fb == blank - 1);
        if fb < rest.len() {
            assert(rest.skip(fb + 1) =~= seq_views(lines@).skip(blank as int + 1));
        }
    }
    Ok(Request { method, path, headers, body })
}

/// What `String::from_utf8_lossy` makes of a byte buffer, taken back as
/// bytes: a function of the buffer alone.
pub uninterp spec fn lossy_of(s: Seq<u8>) -> Seq<u8>;

/// Relies on std's `String::from_utf8_lossy`: the result depends on the
/// buffer alone; well-formed sequences are kept and invalid ones become
/// replacement characters.
#[verifier::external_body]
fn lossy_decode(buffer: &[u8]) -> (t: Vec<u8>)
    ensures
        t@ == lossy_of(buffer@),
{
    String::from_utf8_lossy(buffer).into_owned().into_bytes()
}

/// Parse one raw buffer read from a connection: decode it permissively as
/// text, then split it into request line, headers and body.
pub fn parse_request(buffer: &[u8]) -> (r: Result<Request, ParseError>)
    ensures
        parse_agrees(r, spec_parse(lossy_of(buffer@))),
{
    let text = lossy_decode(buffer);
    parse_request_text(text.as_slice())
}

/// A request-line token as a client writes one: nonempty, no whitespace.
pub open spec fn wf_token(t: Seq<u8>) -> bool {
    t.len() > 0 && forall|i: int| 0 <= i < t.len() ==> !is_ws(#[trigger] t[i])
}

/// A header pair as a client writes one: no line feed on either side, and
/// no colon in the name, so the line splits back exactly at the name's end.
pub open spec fn wf_header(h: (Seq<u8>, Seq<u8>)) -> bool {
    (forall|i: int| 0 <= i < h.0.len() ==> #[trigger] h.0[i] != 58 && h.0[i] != LF)
        && (forall|i: int| 0 <= i < h.1.len() ==> #[trigger] h.1[i] != LF)
}

/// One header line on the wire, before its line break.
pub open spec fn render_header(h: (Seq<u8>, Seq<u8>)) -> Seq<u8> {
    h.0 + colon_sp() + h.1
}

/// The rendered header lines, one per header.
pub open spec fn header_lines(hs: Seq<(Seq<u8>, Seq<u8>)>) -> Seq<Seq<u8>> {
    Seq::new(hs.len(), |i: int| render_header(hs[i]))
}

/// The header block on the wire, each line closed by a line break.
pub open spec fn render_headers(hs: Seq<(Seq<u8>, Seq<u8>)>) -> Seq<u8>
    decreases hs.len(),
{
    if hs.len() == 0 {
        seq![]
    } else {
        render_header(hs[0]) + crlf() + render_headers(hs.drop_first())
    }
}

/// A whole well-formed request on the wire: request line, header lines, and
/// the blank line that closes the header section.
pub open spec fn render_request(m: Seq<u8>, p: Seq<u8>, hs: Seq<(Seq<u8>, Seq<u8>)>) -> Seq<u8> {
    m + seq![SP] + p + crlf() + render_headers(hs) + crlf()
}

/// A piece without line feeds, closed by one line break, is one line.
proof fn lemma_lines_cons(piece: Seq<u8>, rest: Seq<u8>)
    requires
        forall|i: int| 0 <= i < piece.len() ==> #[trigger] piece[i] != LF,
    ensures
        spec_lines(piece + crlf() + rest) == seq![piece] + spec_lines(rest),
{
    let s = piece + crlf() + rest;
    assert forall|k: int| 0 <= k < piece.len() + 1 implies s[k] != LF by {
        if k < piece.len() {
            assert(s[k] == piece[k]);
        } else {
            assert(s[k] == CR);
        }
    }
    assert(s[piece.len() as int + 1] == LF);
    lemma_find_first_at(s, LF, piece.len() as int + 1);
    assert(s.take(piece.len() as int + 1) =~= piece + seq![CR]);
    assert(strip_cr(piece + seq![CR]) =~= piece);
    assert(s.skip(piece.len() as int + 2) =~= rest);
    assert(spec_lines(s) =~= seq![piece] + spec_lines(rest));
}

/// The rendered header block parses back into its lines, plus the final
/// empty line.
proof fn lemma_lines_of_headers(hs: Seq<(Seq<u8>, Seq<u8>)>)
    requires
        forall|k: int| 0 <= k < hs.len() ==> wf_header(#[trigger] hs[k]),
    ensures
        spec_lines(render_headers(hs) + crlf()) == header_lines(hs) + seq![Seq::<u8>::empty()],
    decreases hs.len(),
{
    if hs.len() == 0 {
        assert(render_headers(hs) + crlf() =~= Seq::<u8>::empty() + crlf() + Seq::<u8>::empty());
        lemma_lines_cons(Seq::<u8>::empty(), Seq::<u8>::empty());
        assert(spec_lines(Seq::<u8>::empty()) =~= Seq::<Seq<u8>>::empty());
        assert(spec_lines(render_headers(hs) + crlf()) =~= header_lines(hs) + seq![
            Seq::<u8>::empty(),
        ]);
    } else {
        let h = hs[0];
        let line = render_header(h);
        assert(wf_header(h));
        assert forall|i: int| 0 <= i < line.len() implies #[trigger] line[i] != LF by {
            if i < h.0.len() {
                assert(line[i] == h.0[i]);
            } else if i < h.0.len() + 2 {
                assert(line[i] == colon_sp()[i - h.0.len()]);
            } else {
                assert(line[i] == h.1[i - h.0.len() - 2]);
            }
        }
        assert(render_headers(hs) + crlf() =~= line + crlf() + (render_headers(hs.drop_first())
            + crlf()));
        lemma_lines_cons(line, render_headers(hs.drop_first()) + crlf());
        lemma_lines_of_headers(hs.drop_first());
        assert(spec_lines(render_headers(hs) + crlf()) =~= header_lines(hs) + seq![
            Seq::<u8>::empty(),
        ]);
    }
}

/// A request line of two well-formed tokens parses back into exactly them.
proof fn lemma_tokens_two(m: Seq<u8>, p: Seq<u8>)
    requires
        wf_token(m),
        wf_token(p),
    ensures
        spec_tokens(m + seq![SP] + p) == seq![m, p],
{
    let s = m + seq![SP] + p;
    assert forall|k: int| 0 <= k < m.len() implies !is_ws(s[k]) by {
        assert(s[k] == m[k]);
    }
    assert(is_ws(s[m.len() as int]));
    lemma_first_ws_at(s, m.len() as int);
    assert(s[0] == m[0]);
    assert(s.take(m.len() as int) =~= m);
    let s2 = s.skip(m.len() as int);
    assert(spec_tokens(s) == seq![m] + spec_tokens(s2));
    assert(s2 =~= seq![SP] + p);
    assert(is_ws(s2[0]));
    assert(s2.drop_first() =~= p);
    assert(spec_tokens(s2) == spec_tokens(p));
    lemma_first_ws_at(p, p.len() as int);
    assert(!is_ws(p[0]));
    assert(p.take(p.len() as int) =~= p);
    assert(p.skip(p.len() as int) =~= Seq::<u8>::empty());
    assert(spec_tokens(p) == seq![p] + spec_tokens(Seq::<u8>::empty()));
    assert(spec_tokens(s) =~= seq![m, p]);
}

/// A rendered header line splits back at the name's end.
proof fn lemma_split_header_line(h: (Seq<u8>, Seq<u8>))
    requires
        wf_header(h),
    ensures
        spec_split_header(render_header(h)) == Some((lower(h.0), h.1)),
{
    let l = render_header(h);
    assert(l.subrange(h.0.len() as int, h.0.len() as int + colon_sp().len() as int)
        =~= colon_sp());
    assert forall|j: int| 0 <= j < h.0.len() implies (#[trigger] l.subrange(
        j,
        j + colon_sp().len() as int,
    )) != colon_sp() by {
        assert(l.subrange(j, j + colon_sp().len() as int)[0] == l[j]);
        assert(l[j] == h.0[j]);
        assert(h.0[j] != 58);
        assert(colon_sp()[0] == 58);
    }
    lemma_find_sub_at(l, colon_sp(), h.0.len() as int);
    assert(l.take(h.0.len() as int) =~= h.0);
    assert(l.skip(h.0.len() as int + 2) =~= h.1);
}

/// The header lines followed by the blank line collect back into the
/// headers, names folded; and the blank line is the first empty one.
proof fn lemma_headers_of_rendered(hs: Seq<(Seq<u8>, Seq<u8>)>)
    requires
        forall|k: int| 0 <= k < hs.len() ==> wf_header(#[trigger] hs[k]),
    ensures
        spec_headers_of(header_lines(hs) + seq![Seq::<u8>::empty()]) == Seq::new(
            hs.len(),
            |i: int| (lower(hs[i].0), hs[i].1),
        ),
        first_blank(header_lines(hs) + seq![Seq::<u8>::empty()]) == hs.len(),
    decreases hs.len(),
{
    let rest = header_lines(hs) + seq![Seq::<u8>::empty()];
    if hs.len() == 0 {
        assert(rest[0].len() == 0);
        assert(spec_headers_of(rest) =~= Seq::new(hs.len(), |i: int| (lower(hs[i].0), hs[i].1)));
    } else {
        assert(rest[0] == render_header(hs[0]));
        assert(rest[0].len() >= 2);
        lemma_split_header_line(hs[0]);
        assert(rest.drop_first() =~= header_lines(hs.drop_first()) + seq![Seq::<u8>::empty()]);
        lemma_headers_of_rendered(hs.drop_first());
        assert(spec_headers_of(rest) =~= Seq::new(hs.len(), |i: int| (lower(hs[i].0), hs[i].1)));
        assert(first_blank(rest) == hs.len());
    }
}

/// Parsing a well-formed request recovers it exactly: the method token and
/// the path come back as written, and every header with a literal `": "`
/// separator comes back in order, only its name folded to lower case; the
/// body is empty.
pub proof fn lemma_parse_well_formed(m: Seq<u8>, p: Seq<u8>, hs: Seq<(Seq<u8>, Seq<u8>)>)
    requires
        wf_token(m),
        wf_token(p),
        hs.len() >= 1,
        forall|k: int| 0 <= k < hs.len() ==> wf_header(#[trigger] hs[k]),
    ensures
        spec_parse(render_request(m, p, hs)) == Ok::<ReqModel, ParseError>(
            ReqModel {
                method: spec_method(m),
                path: p,
                headers: Seq::new(hs.len(), |i: int| (lower(hs[i].0), hs[i].1)),
                body: Seq::<u8>::empty(),
            },
        ),
{
    let s = render_request(m, p, hs);
    let reqline = m + seq![SP] + p;
    assert forall|i: int| 0 <= i < reqline.len() implies #[trigger] reqline[i] != LF by {
        if i < m.len() {
            assert(reqline[i] == m[i]);
        } else if i == m.len() {
            assert(reqline[i] == SP);
        } else {
            assert(reqline[i] == p[i - m.len() - 1]);
        }
    }
    assert(s =~= reqline + crlf() + (render_headers(hs) + crlf()));
    lemma_lines_cons(reqline, render_headers(hs) + crlf());
    lemma_lines_of_headers(hs);
    let ls = spec_lines(s);
    assert(ls == seq![reqline] + (header_lines(hs) + seq![Seq::<u8>::empty()]));
    assert(ls.len() == hs.len() + 2);
    assert(ls[0] == reqline);
    lemma_tokens_two(m, p);
    let toks = spec_tokens(ls[0]);
    assert(toks == seq![m, p]);
    let rest = ls.drop_first();
    assert(rest =~= header_lines(hs) + seq![Seq::<u8>::empty()]);
    lemma_headers_of_rendered(hs);
    let fb = first_blank(rest);
    assert(fb == hs.len() && fb < rest.len());
    assert(rest.skip(fb + 1) =~= Seq::<Seq<u8>>::empty());
    assert(spec_join(rest.skip(fb + 1)) == Seq::<u8>::empty());
    assert(spec_parse(s) == Ok::<ReqModel, ParseError>(
        ReqModel {
            method: spec_method(m),
            path: p,
            headers: Seq::new(hs.len(), |i: int| (lower(hs[i].0), hs[i].1)),
            body: Seq::<u8>::empty(),
        },
    ));
}

/// Tokens are maximal nonempty runs, so none of them is empty.
proof fn lemma_tokens_nonempty(s: Seq<u8>)
    ensures
        forall|i: int| 0 <= i < spec_tokens(s).len() ==> (#[trigger] spec_tokens(s)[i]).len() > 0,
    decreases s.len(),
{
    if s.len() == 0 {
    } else if is_ws(s[0]) {
        lemma_tokens_nonempty(s.drop_first());
        assert forall|i: int| 0 <= i < spec_tokens(s).len() implies (#[trigger] spec_tokens(
            s,
        )[i]).len() > 0 by {
            assert(spec_tokens(s)[i] == spec_tokens(s.drop_first())[i]);
        }
    } else {
        let j = first_ws(s);
        if 0 < j <= s.len() {
            lemma_tokens_nonempty(s.skip(j));
            assert forall|i: int| 0 <= i < spec_tokens(s).len() implies (#[trigger] spec_tokens(
                s,
            )[i]).len() > 0 by {
                if i > 0 {
                    assert(spec_tokens(s)[i] == spec_tokens(s.skip(j))[i - 1]);
                } else {
                    assert(spec_tokens(s)[0] == s.take(j));
                }
            }
        }
    }
}

/// A successfully parsed request always carries a nonempty path.
pub proof fn lemma_parse_path_nonempty(s: Seq<u8>)
    ensures
        match spec_parse(s) {
            Ok(req) => req.path.len() > 0,
            Err(_) => true,
        },
{
    let ls = spec_lines(s);
    if ls.len() > 0 {
        lemma_tokens_nonempty(ls[0]);
    }
}

} // verus!
