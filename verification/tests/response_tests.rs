use minihttp::response::{serialize_response, HttpResponse, HttpResponseBuilderError};
use minihttp::status::StatusCode;

#[test]
fn serialization_exact_with_body() {
    let resp = HttpResponse::builder()
        .status_code(StatusCode::Okay)
        .body("abc".to_string())
        .header("Content-Type", "text/plain")
        .build();
    assert_eq!(
        serialize_response(&resp),
        "HTTP/1.1 200 OK\r\nContent-Type: text/plain\r\nContent-Length: 3\r\n\r\nabc"
    );
}

#[test]
fn content_length_matches_body_byte_length() {
    let resp = HttpResponse::builder()
        .status_code(StatusCode::Okay)
        .body("hello world".to_string())
        .build();
    let wire = serialize_response(&resp);
    assert!(wire.contains("Content-Length: 11\r\n"));
    // a body of multi-byte characters is counted in bytes, not characters
    let resp = HttpResponse::builder()
        .status_code(StatusCode::Okay)
        .body("héllo".to_string())
        .build();
    let wire = serialize_response(&resp);
    assert!(wire.contains("Content-Length: 6\r\n"));
}

#[test]
fn empty_body_has_no_content_length() {
    let resp = HttpResponse::builder().status_code(StatusCode::Okay).build();
    let wire = serialize_response(&resp);
    assert_eq!(wire, "HTTP/1.1 200 OK\r\n\r\n");
    assert!(!wire.contains("Content-Length"));
}

#[test]
fn internal_error_serializes_bare() {
    let resp = HttpResponse::builder()
        .body("should vanish".to_string())
        .header("X-Extra", "should vanish too")
        .status_code(StatusCode::InternalServerError)
        .build();
    assert_eq!(serialize_response(&resp), "HTTP/1.1 500 Internal Server Error\r\n\r\n");
}

#[test]
fn missing_status_becomes_internal_error() {
    let resp = HttpResponse::builder().body("zzz".to_string()).build();
    assert_eq!(resp.status_code, 500);
    assert_eq!(serialize_response(&resp), "HTTP/1.1 500 Internal Server Error\r\n\r\n");
}

#[test]
fn status_reasons() {
    for (st, code, reason) in [
        (StatusCode::Okay, 200, "OK"),
        (StatusCode::Created, 201, "Created"),
        (StatusCode::BadRequest, 400, "Bad Request"),
        (StatusCode::NotFound, 404, "Not Found"),
        (StatusCode::InternalServerError, 500, "Internal Server Error"),
    ] {
        assert_eq!(st.code(), code);
        assert_eq!(st.reason(), reason);
    }
}

#[test]
fn builder_accumulates_fields() {
    let resp = HttpResponse::builder()
        .protocol("HTTP/1.0".to_string())
        .status_code(StatusCode::Created)
        .json("{}".to_string())
        .build();
    assert_eq!(resp.protocol, "HTTP/1.0");
    assert_eq!(resp.status_code, 201);
    assert_eq!(resp.reason, "Created");
    assert_eq!(resp.body, "{}");
    assert_eq!(resp.headers.get("Content-Type").unwrap(), "application/json");
}

#[test]
fn plain_text_sets_content_type() {
    let resp = HttpResponse::builder()
        .status_code(StatusCode::Okay)
        .plain_text("hi".to_string())
        .build();
    assert_eq!(resp.headers.get("Content-Type").unwrap(), "text/plain");
    assert_eq!(resp.body, "hi");
}

#[test]
fn file_body_from_bytes() {
    let resp = HttpResponse::builder()
        .status_code(StatusCode::Okay)
        .file(b"hello".to_vec())
        .build();
    assert_eq!(resp.body, "hello");
    assert_eq!(resp.headers.get("Content-Type").unwrap(), "application/octet-stream");
    // bytes that are not text leave the body empty
    let resp = HttpResponse::builder()
        .status_code(StatusCode::Okay)
        .file(vec![0xff, 0xfe, 0x00])
        .build();
    assert_eq!(resp.body, "");
}

#[test]
fn builder_copy_reads_back() {
    let b = HttpResponse::builder()
        .status_code(StatusCode::Okay)
        .body("x".to_string())
        .header("A", "1");
    let copy = b.get();
    let r1 = b.build();
    let r2 = copy.build();
    assert_eq!(serialize_response(&r1), serialize_response(&r2));
}

#[test]
fn builder_error_text() {
    let err = HttpResponseBuilderError { message: "no status".to_string() };
    assert_eq!(err.text(), "Cannot build HttpResponse: no status");
}

#[test]
fn duplicate_header_overwrites_in_place() {
    let resp = HttpResponse::builder()
        .status_code(StatusCode::Okay)
        .header("A", "1")
        .header("B", "2")
        .header("A", "3")
        .build();
    assert_eq!(
        serialize_response(&resp),
        "HTTP/1.1 200 OK\r\nA: 3\r\nB: 2\r\n\r\n"
    );
}
