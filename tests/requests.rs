use tiny_server::connection::{respond, READ_CAPACITY};
use tiny_server::http::{parse_request, ParseError, Response};
use tiny_server::router::route;

fn text_of(bytes: &[u8]) -> String {
    String::from_utf8(bytes.to_vec()).unwrap()
}

#[test]
fn parse_reads_three_fields() {
    let req = parse_request(b"GET /index.html HTTP/1.1\r\nHost: x\r\n\r\n").ok().unwrap();
    assert_eq!(req.method, "GET");
    assert_eq!(req.path, "/index.html");
    assert_eq!(req.version, "HTTP/1.1");
}

#[test]
fn parse_without_line_break_takes_everything() {
    let req = parse_request(b"POST /a HTTP/1.0").ok().unwrap();
    assert_eq!(req.method, "POST");
    assert_eq!(req.path, "/a");
    assert_eq!(req.version, "HTTP/1.0");
}

#[test]
fn parse_version_keeps_further_spaces() {
    let req = parse_request(b"GET / HTTP/1.1 extra words\r\n").ok().unwrap();
    assert_eq!(req.version, "HTTP/1.1 extra words");
}

#[test]
fn parse_keeps_multibyte_text() {
    let req = parse_request("GET /caf\u{e9} V\u{2603}\r\n".as_bytes()).ok().unwrap();
    assert_eq!(req.path, "/caf\u{e9}");
    assert_eq!(req.version, "V\u{2603}");
}

#[test]
fn parse_rejects_invalid_utf8() {
    assert_eq!(parse_request(&[0x47, 0xff, 0x20, 0x2f]).err(), Some(ParseError::InvalidUtf8));
}

#[test]
fn parse_rejects_two_fields() {
    assert_eq!(parse_request(b"GET /\r\n").err(), Some(ParseError::MalformedRequestLine));
}

#[test]
fn parse_rejects_one_field() {
    assert_eq!(parse_request(b"GET\r\n").err(), Some(ParseError::MalformedRequestLine));
}

#[test]
fn parse_of_nothing_is_empty() {
    assert_eq!(parse_request(b"").err(), Some(ParseError::Empty));
}

#[test]
fn parse_of_blank_first_line_is_empty() {
    assert_eq!(parse_request(b"\r\nGET / HTTP/1.1\r\n").err(), Some(ParseError::Empty));
}

#[test]
fn parse_rejects_empty_field() {
    assert_eq!(parse_request(b"GET  HTTP/1.1\r\n").err(), Some(ParseError::Empty));
    assert_eq!(parse_request(b" / HTTP/1.1\r\n").err(), Some(ParseError::Empty));
    assert_eq!(parse_request(b"GET / \r\n").err(), Some(ParseError::Empty));
}

#[test]
fn response_new_keeps_its_parts() {
    let r = Response::new(201, "Created", "done");
    assert_eq!(r.status, 201);
    assert_eq!(r.reason, "Created");
    assert_eq!(r.body, "done");
}

#[test]
fn response_bytes_are_exact() {
    let r = Response::new(200, "OK", "Hello, World!");
    assert_eq!(
        text_of(&r.to_bytes()),
        "HTTP/1.1 200 OK\r\nContent-Type: text/plain; charset=utf-8\r\nContent-Length: 13\r\nConnection: close\r\n\r\nHello, World!"
    );
}

#[test]
fn response_length_counts_bytes() {
    let r = Response::new(404, "Not Found", "\u{e9}t\u{e9}");
    let text = text_of(&r.to_bytes());
    assert!(text.starts_with("HTTP/1.1 404 Not Found\r\n"));
    assert!(text.contains("\r\nContent-Length: 5\r\n"));
    assert!(text.ends_with("\r\n\r\n\u{e9}t\u{e9}"));
}

#[test]
fn response_with_empty_body() {
    let r = Response::new(7, "X", "");
    assert_eq!(
        text_of(&r.to_bytes()),
        "HTTP/1.1 7 X\r\nContent-Type: text/plain; charset=utf-8\r\nContent-Length: 0\r\nConnection: close\r\n\r\n"
    );
}

#[test]
fn route_serves_root_and_health() {
    let root = route(&parse_request(b"GET / HTTP/1.1").ok().unwrap());
    assert_eq!((root.status, root.reason, root.body.as_str()), (200, "OK", "Hello, World!"));
    let health = route(&parse_request(b"GET /health HTTP/1.1").ok().unwrap());
    assert_eq!((health.status, health.reason, health.body.as_str()), (200, "OK", "OK"));
}

#[test]
fn route_answers_other_requests_not_found() {
    let r = route(&parse_request(b"POST / HTTP/1.1").ok().unwrap());
    assert_eq!((r.status, r.reason, r.body.as_str()), (404, "Not Found", "Not Found"));
    let r = route(&parse_request(b"GET /Health HTTP/1.1").ok().unwrap());
    assert_eq!(r.status, 404);
}

#[test]
fn silent_connection_gets_no_reply() {
    assert!(respond(&[]).is_none());
}

#[test]
fn root_request_is_greeted() {
    let text = text_of(&respond(b"GET / HTTP/1.1\r\nHost: localhost\r\n\r\n").unwrap());
    assert!(text.starts_with("HTTP/1.1 200 OK\r\n"));
    assert!(text.contains("\r\nContent-Length: 13\r\n"));
    assert!(text.ends_with("\r\n\r\nHello, World!"));
}

#[test]
fn root_request_with_other_version_is_greeted() {
    let text = text_of(&respond(b"GET / HTTP/1.0").unwrap());
    assert!(text.starts_with("HTTP/1.1 200 OK\r\n"));
    assert!(text.ends_with("Hello, World!"));
}

#[test]
fn unknown_route_is_not_found() {
    let text = text_of(&respond(b"POST /missing HTTP/1.1\r\n\r\n").unwrap());
    assert!(text.starts_with("HTTP/1.1 404 Not Found\r\n"));
    assert!(text.ends_with("\r\n\r\nNot Found"));
}

#[test]
fn invalid_text_is_internal_error() {
    let text = text_of(&respond(&[0xc3, 0x28, 0x20, 0x2f, 0x20, 0x56]).unwrap());
    assert!(text.starts_with("HTTP/1.1 500 Internal Server Error\r\n"));
    assert!(text.contains("\r\nContent-Length: 21\r\n"));
}

#[test]
fn short_request_line_is_internal_error() {
    let text = text_of(&respond(b"GET /\r\n\r\n").unwrap());
    assert!(text.starts_with("HTTP/1.1 500 Internal Server Error\r\n"));
    assert!(text.ends_with("\r\n\r\nInternal Server Error"));
}

#[test]
fn read_capacity_is_eight_kilobytes() {
    assert_eq!(READ_CAPACITY, 8192);
}
