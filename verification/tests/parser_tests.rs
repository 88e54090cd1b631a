use minihttp::headers::HeaderMap;
use minihttp::method::HttpRequestMethod;
use minihttp::parser::{body_bytes_missing, headers_complete, ParseError, Parser};
use minihttp::router::HttpRouter;

fn parse(content: &str) -> Result<minihttp::request::HttpRequest, ParseError> {
    let router: HttpRouter<u32> = HttpRouter::new();
    Parser::new().parse_http_request(content, &router)
}

#[test]
fn request_line_fields() {
    let req = parse("GET /index.html HTTP/1.1\r\nHost: here\r\n\r\n").unwrap();
    assert!(matches!(req.method, HttpRequestMethod::GET));
    assert_eq!(req.target, "/index.html");
    assert_eq!(req.version, "HTTP/1.1");
}

#[test]
fn trailing_slashes_stripped_from_target() {
    let req = parse("GET /files/ HTTP/1.1\r\n\r\n").unwrap();
    assert_eq!(req.target, "/files");
    let req = parse("GET / HTTP/1.1\r\n\r\n").unwrap();
    assert_eq!(req.target, "/");
}

#[test]
fn unknown_method_is_invalid() {
    assert!(matches!(parse("FLY / HTTP/1.1\r\n\r\n"), Err(ParseError::InvalidMethod)));
}

#[test]
fn empty_content_is_malformed() {
    assert!(matches!(parse(""), Err(ParseError::MalformedRequest)));
    assert!(matches!(
        parse("\r\n\r\nGET / HTTP/1.1"),
        Err(ParseError::MalformedRequest)
    ));
}

#[test]
fn all_known_methods_parse() {
    for (tok, m) in [
        ("GET", HttpRequestMethod::GET),
        ("POST", HttpRequestMethod::POST),
        ("PUT", HttpRequestMethod::PUT),
        ("PATCH", HttpRequestMethod::PATCH),
        ("HEAD", HttpRequestMethod::HEAD),
        ("OPTIONS", HttpRequestMethod::OPTIONS),
        ("DELETE", HttpRequestMethod::DELETE),
        ("CONNECT", HttpRequestMethod::CONNECT),
        ("TRACE", HttpRequestMethod::TRACE),
    ] {
        let content = format!("{} / HTTP/1.1\r\n\r\n", tok);
        let req = parse(&content).unwrap();
        assert_eq!(req.method, m);
    }
}

#[test]
fn headers_split_on_first_colon() {
    let req = parse("GET / HTTP/1.1\r\nHost: example\r\nTime: 10:30:00\r\n\r\n").unwrap();
    assert_eq!(req.headers.get("Host").unwrap(), " example");
    // everything after the first colon belongs to the value
    assert_eq!(req.headers.get("Time").unwrap(), " 10:30:00");
}

#[test]
fn malformed_header_lines_dropped() {
    let req = parse("GET / HTTP/1.1\r\nno-colon-here\r\n: novalue\r\nnokey:\r\nGood: yes\r\n\r\n")
        .unwrap();
    assert!(req.headers.get("no-colon-here").is_none());
    assert!(req.headers.get("").is_none());
    assert!(req.headers.get("nokey").is_none());
    assert_eq!(req.headers.get("Good").unwrap(), " yes");
}

#[test]
fn duplicate_headers_last_write_wins() {
    let req = parse("GET / HTTP/1.1\r\nX: 1\r\nX: 2\r\n\r\n").unwrap();
    assert_eq!(req.headers.get("X").unwrap(), " 2");
}

#[test]
fn body_read_when_content_length_declared() {
    let req = parse("POST /files/a.txt HTTP/1.1\r\nContent-Length: 5\r\n\r\nhello").unwrap();
    assert_eq!(req.body, "hello");
}

#[test]
fn body_empty_without_content_length() {
    let req = parse("POST /files/a.txt HTTP/1.1\r\n\r\nhello").unwrap();
    assert_eq!(req.body, "");
}

#[test]
fn body_empty_with_unreadable_content_length() {
    let req = parse("POST /a HTTP/1.1\r\nContent-Length: soon\r\n\r\nhello").unwrap();
    assert_eq!(req.body, "");
    let req = parse("POST /a HTTP/1.1\r\nContent-Length: 99999999999999\r\n\r\nhello").unwrap();
    assert_eq!(req.body, "");
}

#[test]
fn content_without_delimiter_still_parses() {
    // a peer that closes before sending the blank line still yields a
    // request, with an empty body
    let req = parse("GET /echo/abc HTTP/1.1\r\nHost: here").unwrap();
    assert!(matches!(req.method, HttpRequestMethod::GET));
    assert_eq!(req.target, "/echo/abc");
    assert_eq!(req.headers.get("Host").unwrap(), " here");
    assert_eq!(req.body, "");
}

#[test]
fn request_line_with_missing_parts() {
    let req = parse("GET\r\n\r\n").unwrap();
    assert_eq!(req.target, "");
    assert_eq!(req.version, "");
}

#[test]
fn path_params_extracted_during_parse() {
    let mut router: HttpRouter<u32> = HttpRouter::new();
    router.get("/echo/{str}", 1);
    let req = Parser::new()
        .parse_http_request("GET /echo/abc HTTP/1.1\r\n\r\n", &router)
        .unwrap();
    assert_eq!(req.path_params.get("str").unwrap(), "abc");
}

#[test]
fn header_block_completeness_over_bytes() {
    assert!(!headers_complete(b""));
    assert!(!headers_complete(b"GET / HTTP/1.1\r\n"));
    assert!(headers_complete(b"GET / HTTP/1.1\r\n\r\n"));
    assert!(headers_complete(b"x\r\n\r\ny"));
}

#[test]
fn missing_body_bytes_computed_from_content_length() {
    let buf = b"POST /a HTTP/1.1\r\nContent-Length: 5\r\n\r\nhe".to_vec();
    assert_eq!(body_bytes_missing(&buf), 3);
    let done = b"POST /a HTTP/1.1\r\nContent-Length: 5\r\n\r\nhello".to_vec();
    assert_eq!(body_bytes_missing(&done), 0);
    let none = b"GET /a HTTP/1.1\r\n\r\n".to_vec();
    assert_eq!(body_bytes_missing(&none), 0);
}

#[test]
fn header_map_insert_and_get() {
    let mut m = HeaderMap::new();
    assert_eq!(m.len(), 0);
    m.insert("A".to_string(), "1".to_string());
    m.insert("B".to_string(), "2".to_string());
    m.insert("A".to_string(), "3".to_string());
    assert_eq!(m.len(), 2);
    assert_eq!(m.get("A").unwrap(), "3");
    assert_eq!(m.get("B").unwrap(), "2");
    assert!(m.get("C").is_none());
    // replacement keeps the original position
    assert_eq!(m.key_at(0), "A");
    assert_eq!(m.value_at(0), "3");
}
