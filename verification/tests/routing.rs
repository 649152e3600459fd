use std::io::Read;

use flate2::read::GzDecoder;
use httpcore::parse::parse_request;
use httpcore::request::{HttpMethod, Request};
use httpcore::response::{Response, StatusCode, response_bytes};
use httpcore::router::{RouteOutcome, file_read_response, file_write_response, handle_request};

fn req(method: HttpMethod, path: &[u8]) -> Request {
    Request { method, path: path.to_vec(), headers: vec![], body: vec![] }
}

fn done(outcome: RouteOutcome) -> Response {
    match outcome {
        RouteOutcome::Done(r) => r,
        _ => panic!("expected a finished response"),
    }
}

#[test]
fn root_answers_200_empty() {
    let r = done(handle_request(&req(HttpMethod::Get, b"/")));
    assert_eq!(r.status, StatusCode::Okay);
    assert_eq!(r.headers, vec![]);
    assert_eq!(r.body, Vec::<u8>::new());
    assert_eq!(response_bytes(&r), b"HTTP/1.1 200 OK\r\n\r\n".to_vec());
}

#[test]
fn echo_plain_round_trip() {
    let r = done(handle_request(&req(HttpMethod::Get, b"/echo/hello")));
    assert_eq!(r.status, StatusCode::Okay);
    assert_eq!(r.body, b"hello".to_vec());
    assert_eq!(
        r.headers,
        vec![
            (b"Content-Type".to_vec(), b"text/plain".to_vec()),
            (b"Content-Length".to_vec(), b"5".to_vec()),
        ]
    );
    assert_eq!(
        response_bytes(&r),
        b"HTTP/1.1 200 OK\r\nContent-Type: text/plain\r\nContent-Length: 5\r\n\r\nhello".to_vec()
    );
}

#[test]
fn echo_gzip_round_trip() {
    let parsed =
        parse_request(b"GET /echo/hello HTTP/1.1\r\nAccept-Encoding: gzip\r\n\r\n").unwrap();
    let r = done(handle_request(&parsed));
    assert_eq!(r.status, StatusCode::Okay);
    assert!(r.headers.contains(&(b"Content-Encoding".to_vec(), b"gzip".to_vec())));
    let expected_len = format!("{}", r.body.len()).into_bytes();
    assert!(r.headers.contains(&(b"Content-Length".to_vec(), expected_len)));
    let mut decoder = GzDecoder::new(r.body.as_slice());
    let mut unzipped = Vec::new();
    decoder.read_to_end(&mut unzipped).unwrap();
    assert_eq!(unzipped, b"hello".to_vec());
}

#[test]
fn echo_gzip_among_other_codings() {
    let mut request = req(HttpMethod::Get, b"/echo/abc");
    request.headers.push((b"accept-encoding".to_vec(), b"deflate, gzip".to_vec()));
    let r = done(handle_request(&request));
    assert!(r.headers.contains(&(b"Content-Encoding".to_vec(), b"gzip".to_vec())));
}

#[test]
fn echo_other_coding_stays_plain() {
    let mut request = req(HttpMethod::Get, b"/echo/abc");
    request.headers.push((b"accept-encoding".to_vec(), b"deflate".to_vec()));
    let r = done(handle_request(&request));
    assert_eq!(r.body, b"abc".to_vec());
    assert!(!r.headers.contains(&(b"Content-Encoding".to_vec(), b"gzip".to_vec())));
}

#[test]
fn echo_empty_segment() {
    let r = done(handle_request(&req(HttpMethod::Get, b"/echo/")));
    assert_eq!(r.body, Vec::<u8>::new());
    assert!(r.headers.contains(&(b"Content-Length".to_vec(), b"0".to_vec())));
}

#[test]
fn echo_takes_third_segment_only() {
    let r = done(handle_request(&req(HttpMethod::Get, b"/echo/a/b")));
    assert_eq!(r.body, b"a".to_vec());
}

#[test]
fn user_agent_reflection() {
    let parsed = parse_request(
        b"GET /user-agent HTTP/1.1\r\nHost: x\r\nUser-Agent: test-client/1.0\r\n\r\n",
    )
    .unwrap();
    let r = done(handle_request(&parsed));
    assert_eq!(r.status, StatusCode::Okay);
    assert_eq!(r.body, b"test-client/1.0".to_vec());
    assert_eq!(
        response_bytes(&r),
        b"HTTP/1.1 200 OK\r\nContent-Type: text/plain\r\nContent-Length: 15\r\n\r\ntest-client/1.0"
            .to_vec()
    );
}

#[test]
fn user_agent_missing_is_400() {
    let r = done(handle_request(&req(HttpMethod::Get, b"/user-agent")));
    assert_eq!(r.status, StatusCode::BadRequest);
    assert_eq!(r.body, Vec::<u8>::new());
    assert_eq!(response_bytes(&r), b"HTTP/1.1 400 Bad Request\r\n\r\n".to_vec());
}

#[test]
fn user_agent_takes_first_match() {
    let mut request = req(HttpMethod::Get, b"/user-agent");
    request.headers.push((b"user-agent".to_vec(), b"one".to_vec()));
    request.headers.push((b"user-agent".to_vec(), b"two".to_vec()));
    let r = done(handle_request(&request));
    assert_eq!(r.body, b"one".to_vec());
}

#[test]
fn files_get_asks_for_a_read() {
    match handle_request(&req(HttpMethod::Get, b"/files/sample.txt")) {
        RouteOutcome::FileRead(name) => assert_eq!(name, b"sample.txt".to_vec()),
        _ => panic!("expected a file read"),
    }
}

#[test]
fn files_post_asks_for_a_write() {
    let mut request = req(HttpMethod::Post, b"/files/sample.txt");
    request.body = b"abc".to_vec();
    match handle_request(&request) {
        RouteOutcome::FileWrite(name, contents) => {
            assert_eq!(name, b"sample.txt".to_vec());
            assert_eq!(contents, b"abc".to_vec());
        },
        _ => panic!("expected a file write"),
    }
}

#[test]
fn files_write_then_read() {
    let mut store: Option<(Vec<u8>, Vec<u8>)> = None;

    let mut post = req(HttpMethod::Post, b"/files/sample.txt");
    post.body = b"abc".to_vec();
    let write_reply = match handle_request(&post) {
        RouteOutcome::FileWrite(name, contents) => {
            store = Some((name, contents));
            file_write_response(true)
        },
        _ => panic!("expected a file write"),
    };
    assert_eq!(write_reply.status, StatusCode::Created);
    assert_eq!(response_bytes(&write_reply), b"HTTP/1.1 201 Created\r\n\r\n".to_vec());

    let read_reply = match handle_request(&req(HttpMethod::Get, b"/files/sample.txt")) {
        RouteOutcome::FileRead(name) => {
            let found = match &store {
                Some((stored, contents)) if *stored == name => Some(contents.clone()),
                _ => None,
            };
            file_read_response(found)
        },
        _ => panic!("expected a file read"),
    };
    assert_eq!(read_reply.status, StatusCode::Okay);
    assert_eq!(read_reply.body, b"abc".to_vec());
    assert_eq!(
        response_bytes(&read_reply),
        b"HTTP/1.1 200 OK\r\nContent-Type: application/octet-stream\r\nContent-Length: 3\r\n\r\nabc"
            .to_vec()
    );
}

#[test]
fn files_missing_is_404() {
    let r = file_read_response(None);
    assert_eq!(r.status, StatusCode::NotFound);
    assert_eq!(r.body, Vec::<u8>::new());
    assert_eq!(response_bytes(&r), b"HTTP/1.1 404 Not Found\r\n\r\n".to_vec());
}

#[test]
fn files_write_failure_is_500() {
    let r = file_write_response(false);
    assert_eq!(r.status, StatusCode::ServerError);
    assert_eq!(response_bytes(&r), b"HTTP/1.1 500 Internal Server Error\r\n\r\n".to_vec());
}

#[test]
fn files_other_method_is_405() {
    let r = done(handle_request(&req(HttpMethod::Unsupported, b"/files/sample.txt")));
    assert_eq!(r.status, StatusCode::MethodNotAllowed);
    assert_eq!(response_bytes(&r), b"HTTP/1.1 405 Method Not Allowed\r\n\r\n".to_vec());
}

#[test]
fn files_parent_directory_is_refused() {
    let r = done(handle_request(&req(HttpMethod::Get, b"/files/..")));
    assert_eq!(r.status, StatusCode::NotFound);
    let w = done(handle_request(&req(HttpMethod::Post, b"/files/..")));
    assert_eq!(w.status, StatusCode::NotFound);
}

#[test]
fn unmatched_paths_are_404_for_every_method() {
    for path in [b"/nope".as_slice(), b"/echoes", b"/echo", b"/files", b"/user-agent2", b"//"] {
        for method in [HttpMethod::Get, HttpMethod::Post, HttpMethod::Unsupported] {
            let r = done(handle_request(&req(method, path)));
            assert_eq!(r.status, StatusCode::NotFound);
            assert_eq!(r.body, Vec::<u8>::new());
            assert_eq!(response_bytes(&r), b"HTTP/1.1 404 Not Found\r\n\r\n".to_vec());
        }
    }
}

#[test]
fn content_length_is_decimal() {
    let r = file_read_response(Some(vec![0u8; 1024]));
    assert!(r.headers.contains(&(b"Content-Length".to_vec(), b"1024".to_vec())));
}
