use httpcore::parse::{parse_request, parse_request_text};
use httpcore::request::{HttpMethod, ParseError};

#[test]
fn parse_basic_get() {
    let req = parse_request(b"GET / HTTP/1.1\r\nHost: localhost\r\n\r\n").unwrap();
    assert_eq!(req.method, HttpMethod::Get);
    assert_eq!(req.path, b"/".to_vec());
    assert_eq!(req.headers, vec![(b"host".to_vec(), b"localhost".to_vec())]);
    assert_eq!(req.body, Vec::<u8>::new());
}

#[test]
fn parse_post_method() {
    let req = parse_request(b"POST /files/a HTTP/1.1\r\n\r\n").unwrap();
    assert_eq!(req.method, HttpMethod::Post);
    assert_eq!(req.path, b"/files/a".to_vec());
}

#[test]
fn parse_lowercases_names_only() {
    let req = parse_request(b"GET / HTTP/1.1\r\nUser-Agent: CurL/7.0\r\n\r\n").unwrap();
    assert_eq!(req.headers, vec![(b"user-agent".to_vec(), b"CurL/7.0".to_vec())]);
}

#[test]
fn parse_empty_buffer() {
    assert_eq!(parse_request(b"").unwrap_err(), ParseError::Empty);
}

#[test]
fn parse_one_token_request_line() {
    assert_eq!(parse_request(b"GET").unwrap_err(), ParseError::MalformedRequestLine);
}

#[test]
fn parse_blank_request_line() {
    assert_eq!(parse_request(b"\r\n\r\n").unwrap_err(), ParseError::MalformedRequestLine);
}

#[test]
fn parse_two_tokens_suffice() {
    let req = parse_request(b"GET /\r\n\r\n").unwrap();
    assert_eq!(req.method, HttpMethod::Get);
    assert_eq!(req.path, b"/".to_vec());
}

#[test]
fn parse_unknown_method_is_unsupported() {
    let req = parse_request(b"DELETE /x HTTP/1.1\r\n\r\n").unwrap();
    assert_eq!(req.method, HttpMethod::Unsupported);
    assert_eq!(req.path, b"/x".to_vec());
}

#[test]
fn parse_method_is_case_sensitive() {
    let req = parse_request(b"get / HTTP/1.1\r\n\r\n").unwrap();
    assert_eq!(req.method, HttpMethod::Unsupported);
}

#[test]
fn parse_drops_lines_without_separator() {
    let req = parse_request(b"GET / HTTP/1.1\r\nweird-line\r\nGood: yes\r\n\r\n").unwrap();
    assert_eq!(req.headers, vec![(b"good".to_vec(), b"yes".to_vec())]);
}

#[test]
fn parse_keeps_duplicate_headers_in_order() {
    let req = parse_request(b"GET / HTTP/1.1\r\nA: 1\r\nA: 2\r\n\r\n").unwrap();
    assert_eq!(
        req.headers,
        vec![(b"a".to_vec(), b"1".to_vec()), (b"a".to_vec(), b"2".to_vec())]
    );
}

#[test]
fn parse_value_splits_at_first_separator() {
    let req = parse_request(b"GET / HTTP/1.1\r\nA: x: y\r\n\r\n").unwrap();
    assert_eq!(req.headers, vec![(b"a".to_vec(), b"x: y".to_vec())]);
}

#[test]
fn parse_body_joins_lines_with_line_feeds() {
    let req = parse_request(b"POST /files/a HTTP/1.1\r\n\r\nhello\r\nworld").unwrap();
    assert_eq!(req.body, b"hello\nworld".to_vec());
}

#[test]
fn parse_headers_stop_at_blank_line() {
    let req = parse_request(b"POST /files/a HTTP/1.1\r\nA: 1\r\n\r\nB: 2").unwrap();
    assert_eq!(req.headers, vec![(b"a".to_vec(), b"1".to_vec())]);
    assert_eq!(req.body, b"B: 2".to_vec());
}

#[test]
fn parse_no_blank_line_means_empty_body() {
    let req = parse_request(b"GET / HTTP/1.1\r\nA: b").unwrap();
    assert_eq!(req.headers, vec![(b"a".to_vec(), b"b".to_vec())]);
    assert_eq!(req.body, Vec::<u8>::new());
}

#[test]
fn parse_replaces_invalid_utf8() {
    let req = parse_request(b"GET /\xFF HTTP/1.1\r\n\r\n").unwrap();
    assert_eq!(req.path, b"/\xEF\xBF\xBD".to_vec());
}

#[test]
fn parse_bare_line_feeds_accepted() {
    let req = parse_request(b"GET / HTTP/1.1\nHost: x\n\nbody").unwrap();
    assert_eq!(req.headers, vec![(b"host".to_vec(), b"x".to_vec())]);
    assert_eq!(req.body, b"body".to_vec());
}

#[test]
fn parse_text_matches_decoded_parse() {
    let req = parse_request_text(b"GET /echo/x HTTP/1.1\r\nA: b\r\n\r\n").unwrap();
    assert_eq!(req.method, HttpMethod::Get);
    assert_eq!(req.path, b"/echo/x".to_vec());
    assert_eq!(req.headers, vec![(b"a".to_vec(), b"b".to_vec())]);
}

#[test]
fn parse_text_empty_buffer() {
    assert_eq!(parse_request_text(b"").unwrap_err(), ParseError::Empty);
}
