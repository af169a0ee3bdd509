use std::io::Read;

use http_server::bytes::{equals_ignore_case, trim_bytes};
use http_server::connection::{
    declared_length, file_read_reply, file_write_reply, next_step, next_step_at_end, parse_number,
    Connection, Step,
};
use http_server::headers::Headers;
use http_server::request::{parse_head, parse_header_line, parse_request_line};
use http_server::response::{decimal_bytes, Response, Status};
use http_server::router::{dispatch, lists_gzip, Action};

fn act(buf: &[u8], configured: bool) -> (Action, usize) {
    match next_step(buf, configured) {
        Step::Act(a, n) => (a, n),
        Step::NeedMore => panic!("needs more input"),
        Step::Close => panic!("closes"),
    }
}

fn reply(buf: &[u8], configured: bool) -> Response {
    match act(buf, configured).0 {
        Action::Reply(r) => r,
        _ => panic!("not a reply"),
    }
}

fn wire(buf: &[u8], configured: bool) -> Vec<u8> {
    reply(buf, configured).to_bytes()
}

fn header<'a>(r: &'a Response, name: &str) -> Option<&'a Vec<u8>> {
    r.headers.get(name.as_bytes())
}

#[test]
fn root_is_ok_without_body() {
    assert_eq!(wire(b"GET / HTTP/1.1\r\nHost: localhost\r\n\r\n", false), b"HTTP/1.1 200 OK\r\n\r\n".to_vec());
}

#[test]
fn echo_without_gzip_returns_text() {
    let out = wire(b"GET /echo/abc HTTP/1.1\r\n\r\n", false);
    assert_eq!(out, b"HTTP/1.1 200 OK\r\nContent-Type: text/plain\r\nContent-Length: 3\r\n\r\nabc".to_vec());
}

#[test]
fn echo_with_other_encodings_is_not_compressed() {
    let r = reply(b"GET /echo/hello HTTP/1.1\r\nAccept-Encoding: deflate, gzip-x\r\n\r\n", false);
    assert_eq!(r.body, b"hello".to_vec());
    assert!(header(&r, "Content-Encoding").is_none());
    assert_eq!(header(&r, "Content-Length"), Some(&b"5".to_vec()));
}

#[test]
fn echo_empty_text() {
    let out = wire(b"GET /echo/ HTTP/1.1\r\n\r\n", false);
    assert_eq!(out, b"HTTP/1.1 200 OK\r\nContent-Type: text/plain\r\nContent-Length: 0\r\n\r\n".to_vec());
}

#[test]
fn echo_with_gzip_decompresses_to_text() {
    let r = reply(b"GET /echo/abc HTTP/1.1\r\nAccept-Encoding: deflate, gzip , br\r\n\r\n", false);
    assert_eq!(header(&r, "Content-Encoding"), Some(&b"gzip".to_vec()));
    assert_eq!(header(&r, "content-length"), Some(&r.body.len().to_string().into_bytes()));
    assert_ne!(r.body, b"abc".to_vec());
    let mut d = flate2::read::GzDecoder::new(r.body.as_slice());
    let mut text = Vec::new();
    d.read_to_end(&mut text).unwrap();
    assert_eq!(text, b"abc".to_vec());
    let out = r.to_bytes();
    assert!(out.starts_with(b"HTTP/1.1 200 OK\r\nContent-Type: text/plain\r\nContent-Encoding: gzip\r\nContent-Length: "));
    assert!(out.ends_with(&r.body));
}

#[test]
fn user_agent_is_echoed() {
    let out = wire(b"GET /user-agent HTTP/1.1\r\nuser-agent:  foo/1.0 \r\n\r\n", false);
    assert_eq!(out, b"HTTP/1.1 200 OK\r\nContent-Type: text/plain\r\nContent-Length: 7\r\n\r\nfoo/1.0".to_vec());
}

#[test]
fn user_agent_missing_is_bad_request() {
    assert_eq!(wire(b"GET /user-agent HTTP/1.1\r\n\r\n", false), b"HTTP/1.1 400 Bad Request\r\n\r\n".to_vec());
}

#[test]
fn file_upload_then_download_round_trip() {
    let upload = b"POST /files/report.txt HTTP/1.1\r\nContent-Length: 5\r\n\r\nhello";
    match act(upload, true) {
        (Action::WriteFile(name, body), n) => {
            assert_eq!(name, b"report.txt".to_vec());
            assert_eq!(body, b"hello".to_vec());
            assert_eq!(n, upload.len());
        }
        _ => panic!("expected a write"),
    }
    assert_eq!(file_write_reply(true).to_bytes(), b"HTTP/1.1 201 Created\r\n\r\n".to_vec());
    match act(b"GET /files/report.txt HTTP/1.1\r\n\r\n", true) {
        (Action::ReadFile(name), _) => assert_eq!(name, b"report.txt".to_vec()),
        _ => panic!("expected a read"),
    }
    let r = file_read_reply(Some(b"hello".to_vec()));
    assert_eq!(
        r.to_bytes(),
        b"HTTP/1.1 200 OK\r\nContent-Type: application/octet-stream\r\nContent-Length: 5\r\n\r\nhello".to_vec()
    );
}

#[test]
fn failed_write_is_server_error() {
    assert_eq!(file_write_reply(false).to_bytes(), b"HTTP/1.1 500 Internal Server Error\r\n\r\n".to_vec());
}

#[test]
fn traversal_is_bad_request_for_get() {
    assert_eq!(wire(b"GET /files/../etc/passwd HTTP/1.1\r\n\r\n", true), b"HTTP/1.1 400 Bad Request\r\n\r\n".to_vec());
    assert_eq!(wire(b"GET /files/a..b HTTP/1.1\r\n\r\n", false), b"HTTP/1.1 400 Bad Request\r\n\r\n".to_vec());
}

#[test]
fn traversal_is_bad_request_for_post_and_body_is_drained() {
    let req = b"POST /files/../x HTTP/1.1\r\nContent-Length: 3\r\n\r\nabcGET / HTTP/1.1\r\n\r\n";
    let (a, n) = act(req, true);
    match a {
        Action::Reply(r) => assert_eq!(r.status, Status::BadRequest),
        _ => panic!("expected a reply"),
    }
    assert_eq!(n, req.len() - b"GET / HTTP/1.1\r\n\r\n".len());
}

#[test]
fn missing_file_is_not_found() {
    match act(b"GET /files/missing.txt HTTP/1.1\r\n\r\n", true) {
        (Action::ReadFile(name), _) => assert_eq!(name, b"missing.txt".to_vec()),
        _ => panic!("expected a read"),
    }
    assert_eq!(file_read_reply(None).to_bytes(), b"HTTP/1.1 404 Not Found\r\n\r\n".to_vec());
}

#[test]
fn no_base_directory_is_server_error() {
    assert_eq!(
        wire(b"GET /files/anything HTTP/1.1\r\n\r\n", false),
        b"HTTP/1.1 500 Internal Server Error\r\n\r\n".to_vec()
    );
    assert_eq!(
        wire(b"POST /files/anything HTTP/1.1\r\nContent-Length: 0\r\n\r\n", false),
        b"HTTP/1.1 500 Internal Server Error\r\n\r\n".to_vec()
    );
}

#[test]
fn two_requests_on_one_connection_answered_in_order() {
    let mut c = Connection::new(false);
    c.receive(b"GET /echo/one HTTP/1.1\r\n\r\nGET /echo/two HTTP/1.1\r\n\r\n");
    let mut bodies = Vec::new();
    for _ in 0..2 {
        match c.advance() {
            Step::Act(Action::Reply(r), _) => bodies.push(r.body),
            _ => panic!("expected a reply"),
        }
    }
    assert_eq!(bodies, vec![b"one".to_vec(), b"two".to_vec()]);
    assert!(c.pending.is_empty());
    assert!(matches!(c.advance(), Step::NeedMore));
}

#[test]
fn connection_close_closes_without_answer() {
    let mut c = Connection::new(false);
    c.receive(b"GET / HTTP/1.1\r\nConnection: Close\r\n\r\nGET / HTTP/1.1\r\n\r\n");
    assert!(matches!(c.advance(), Step::Close));
}

#[test]
fn unknown_path_is_not_found_and_unknown_method_not_allowed() {
    assert_eq!(wire(b"GET /nonexistent HTTP/1.1\r\n\r\n", false), b"HTTP/1.1 404 Not Found\r\n\r\n".to_vec());
    assert_eq!(wire(b"PUT /anything HTTP/1.1\r\n\r\n", false), b"HTTP/1.1 405 Method Not Allowed\r\n\r\n".to_vec());
    assert_eq!(wire(b"POST /other HTTP/1.1\r\n\r\n", false), b"HTTP/1.1 404 Not Found\r\n\r\n".to_vec());
}

#[test]
fn malformed_request_line_closes() {
    assert!(matches!(next_step(b"GARBAGE\r\n\r\n", false), Step::Close));
    assert!(matches!(next_step(b"\r\n\r\n", false), Step::Close));
}

#[test]
fn partial_input_needs_more() {
    assert!(matches!(next_step(b"", false), Step::NeedMore));
    assert!(matches!(next_step(b"GET / HTTP/1.1\r\nHost: x\r\n", false), Step::NeedMore));
    assert!(matches!(
        next_step(b"POST /files/a HTTP/1.1\r\nContent-Length: 10\r\n\r\nabc", true),
        Step::NeedMore
    ));
}

#[test]
fn header_lines_and_lookup() {
    let (n, v) = parse_header_line(b"  Accept-Encoding :  gzip, br  ").unwrap();
    assert_eq!((n, v), (b"Accept-Encoding".to_vec(), b"gzip, br".to_vec()));
    assert_eq!(parse_header_line(b"no colon here"), None);
    let mut hs = Headers::new();
    hs.insert(b"X-A".to_vec(), b"1".to_vec());
    hs.insert(b"x-a".to_vec(), b"2".to_vec());
    assert_eq!(hs.get(b"X-a"), Some(&b"2".to_vec()));
    assert_eq!(hs.get(b"X-B"), None);
    assert_eq!(hs.len(), 2);
}

#[test]
fn malformed_header_lines_are_skipped() {
    let (line, hs, end) = parse_head(b"GET / HTTP/1.1\r\nbogus\r\nHost: h\r\n\r\nrest").unwrap();
    assert_eq!(line, b"GET / HTTP/1.1".to_vec());
    assert_eq!(hs.len(), 1);
    assert_eq!(end, 34);
}

#[test]
fn request_line_tokens() {
    assert_eq!(
        parse_request_line(b"  GET   /x  HTTP/1.1\r"),
        Some((b"GET".to_vec(), b"/x".to_vec()))
    );
    assert_eq!(parse_request_line(b"GET"), None);
}

#[test]
fn numbers_parse_like_usize() {
    assert_eq!(parse_number(b"42"), Some(42));
    assert_eq!(parse_number(b"+7"), Some(7));
    assert_eq!(parse_number(b""), None);
    assert_eq!(parse_number(b"+"), None);
    assert_eq!(parse_number(b"-1"), None);
    assert_eq!(parse_number(b"1x"), None);
    assert_eq!(parse_number(b"99999999999999999999999"), None);
    assert_eq!(parse_number(usize::MAX.to_string().as_bytes()), Some(usize::MAX));
}

#[test]
fn declared_length_defaults_to_zero() {
    let mut hs = Headers::new();
    assert_eq!(declared_length(&hs), 0);
    hs.insert(b"content-length".to_vec(), b"abc".to_vec());
    assert_eq!(declared_length(&hs), 0);
    hs.insert(b"Content-Length".to_vec(), b"12".to_vec());
    assert_eq!(declared_length(&hs), 12);
}

#[test]
fn gzip_token_lists() {
    assert!(lists_gzip(b"gzip"));
    assert!(lists_gzip(b" br ,gzip "));
    assert!(!lists_gzip(b"gzipx, deflate"));
    assert!(!lists_gzip(b""));
}

#[test]
fn small_helpers() {
    assert_eq!(decimal_bytes(0), b"0".to_vec());
    assert_eq!(decimal_bytes(1234), b"1234".to_vec());
    assert_eq!(trim_bytes(b" \t a b \r\n"), b"a b".to_vec());
    assert!(equals_ignore_case(b"Close", b"cLOSE"));
    assert!(!equals_ignore_case(b"close", b"closed"));
}

#[test]
fn dispatch_routes_directly() {
    let hs = Headers::new();
    match dispatch(b"GET", b"/", &hs, Vec::new(), false) {
        Action::Reply(r) => assert_eq!(r.status, Status::Success),
        _ => panic!("expected a reply"),
    }
    match dispatch(b"DELETE", b"/", &hs, Vec::new(), false) {
        Action::Reply(r) => assert_eq!(r.status, Status::MethodNotAllowed),
        _ => panic!("expected a reply"),
    }
}

#[test]
fn request_line_drops_its_terminator() {
    let (line, hs, _) = parse_head(
        b"GET / HTTP/1.1\r\nHost: localhost:4221\r\nBadLine\r\nUser-Agent:  curl/7.64.1 \r\n\r\n",
    )
    .unwrap();
    assert_eq!(line, b"GET / HTTP/1.1".to_vec());
    assert_eq!(hs.get(b"host"), Some(&b"localhost:4221".to_vec()));
    assert_eq!(hs.get(b"User-Agent"), Some(&b"curl/7.64.1".to_vec()));
    assert_eq!(hs.len(), 2);
}

#[test]
fn end_of_input_with_nothing_left_closes() {
    assert!(matches!(next_step_at_end(b"", false), Step::Close));
}

#[test]
fn end_of_input_answers_a_cut_head() {
    let buf = b"GET /user-agent HTTP/1.1\r\nUser-Agent: x/1\r\n";
    match next_step_at_end(buf, false) {
        Step::Act(Action::Reply(r), n) => {
            assert_eq!(r.body, b"x/1".to_vec());
            assert_eq!(n, buf.len());
        }
        _ => panic!("expected a reply"),
    }
    match next_step_at_end(b"GET /echo/hi HTTP/1.1", false) {
        Step::Act(Action::Reply(r), _) => assert_eq!(r.body, b"hi".to_vec()),
        _ => panic!("expected a reply"),
    }
}

#[test]
fn end_of_input_with_short_body_closes() {
    let buf = b"POST /files/a HTTP/1.1\r\nContent-Length: 10\r\n\r\nabc";
    assert!(matches!(next_step_at_end(buf, true), Step::Close));
}

#[test]
fn k_requests_then_end_get_k_answers() {
    let mut c = Connection::new(false);
    c.receive(b"GET / HTTP/1.1\r\n\r\nGET /echo/x HTTP/1.1\r\nAccept-Encoding: gzip\r\n\r\n");
    let mut answers = 0;
    loop {
        match c.advance_at_end() {
            Step::Act(Action::Reply(_), _) => answers += 1,
            Step::Close => break,
            _ => panic!("unexpected step"),
        }
    }
    assert_eq!(answers, 2);
}
