use std::cell::RefCell;
use std::collections::HashMap;
use std::sync::Arc;

use minihttp::api::{file_response, file_write_response, get_str, index, user_agent};
use minihttp::handler::HttpRequestHandler;
use minihttp::request::HttpRequest;
use minihttp::response::HttpResponse;
use minihttp::router::HttpRouter;
use minihttp::server::Context;

type Handler = fn(HttpRequest, &Context) -> HttpResponse;

fn invoke(h: &Handler, req: HttpRequest, ctx: &Context) -> HttpResponse {
    h(req, ctx)
}

fn app_handler() -> HttpRequestHandler<Handler> {
    let mut router: HttpRouter<Handler> = HttpRouter::new();
    router.get("/", index);
    router.get("/user-agent", user_agent);
    router.get("/echo/{str}", get_str);
    HttpRequestHandler::new(Arc::new(router))
}

fn run(handler: &HttpRequestHandler<Handler>, raw: &[u8]) -> String {
    handler.handle_incoming_request(&raw.to_vec(), &Context { workdir: String::new() }, invoke)
}

#[test]
fn echo_without_accept_encoding() {
    let handler = app_handler();
    let out = run(&handler, b"GET /echo/abc HTTP/1.1\r\n\r\n");
    assert_eq!(
        out,
        "HTTP/1.1 200 OK\r\nContent-Type: text/plain\r\nContent-Length: 3\r\n\r\nabc"
    );
    assert!(!out.contains("Content-Encoding"));
}

#[test]
fn echo_with_accept_encoding_gzip() {
    let handler = app_handler();
    let out = run(&handler, b"GET /echo/abc HTTP/1.1\r\nAccept-Encoding: gzip\r\n\r\n");
    assert_eq!(
        out,
        "HTTP/1.1 200 OK\r\nContent-Type: text/plain\r\nContent-Encoding: gzip\r\nContent-Length: 3\r\n\r\nabc"
    );
}

#[test]
fn unsupported_encoding_not_advertised() {
    let handler = app_handler();
    let out = run(&handler, b"GET /echo/abc HTTP/1.1\r\nAccept-Encoding: br\r\n\r\n");
    assert!(!out.contains("Content-Encoding"));
}

#[test]
fn first_supported_candidate_wins() {
    let handler = app_handler();
    let out = run(&handler, b"GET /echo/abc HTTP/1.1\r\nAccept-Encoding: br, gzip, deflate\r\n\r\n");
    assert!(out.contains("Content-Encoding: gzip\r\n"));
}

#[test]
fn added_encoding_scheme_is_supported() {
    let mut handler = app_handler();
    handler.add_encoding_scheme("br");
    let out = run(&handler, b"GET /echo/abc HTTP/1.1\r\nAccept-Encoding: br\r\n\r\n");
    assert!(out.contains("Content-Encoding: br\r\n"));
}

#[test]
fn unknown_method_yields_bare_400() {
    let handler = app_handler();
    let out = run(&handler, b"FLY /echo/abc HTTP/1.1\r\n\r\n");
    assert_eq!(out, "HTTP/1.1 400 Bad Request\r\n\r\n");
}

#[test]
fn bytes_that_are_not_text_yield_bare_400() {
    let handler = app_handler();
    let out = run(&handler, &[0xff, 0xfe, 0x47, 0x45, 0x54]);
    assert_eq!(out, "HTTP/1.1 400 Bad Request\r\n\r\n");
}

#[test]
fn unbound_route_yields_bare_404() {
    let handler = app_handler();
    let out = run(&handler, b"GET /missing HTTP/1.1\r\n\r\n");
    assert_eq!(out, "HTTP/1.1 404 Not Found\r\n\r\n");
    // a known path with an unbound method is also a 404
    let out = run(&handler, b"POST /echo/abc HTTP/1.1\r\n\r\n");
    assert_eq!(out, "HTTP/1.1 404 Not Found\r\n\r\n");
}

#[test]
fn index_route_is_empty_200() {
    let handler = app_handler();
    let out = run(&handler, b"GET / HTTP/1.1\r\n\r\n");
    assert_eq!(out, "HTTP/1.1 200 OK\r\n\r\n");
}

#[test]
fn user_agent_route_echoes_raw_value() {
    let handler = app_handler();
    let out = run(&handler, b"GET /user-agent HTTP/1.1\r\nUser-Agent: curl/7\r\n\r\n");
    // the value is echoed as received, leading space included
    assert_eq!(
        out,
        "HTTP/1.1 200 OK\r\nContent-Type: text/plain\r\nContent-Length: 7\r\n\r\n curl/7"
    );
}

#[test]
fn user_agent_route_without_header_is_400() {
    let handler = app_handler();
    let out = run(&handler, b"GET /user-agent HTTP/1.1\r\n\r\n");
    assert_eq!(out, "HTTP/1.1 400 Bad Request\r\n\r\n");
}

#[test]
fn trailing_slash_on_request_still_routes() {
    let handler = app_handler();
    let out = run(&handler, b"GET /echo/abc/ HTTP/1.1\r\n\r\n");
    assert!(out.starts_with("HTTP/1.1 200 OK\r\n"));
}

// A pair of handlers over an in-memory working directory, for the file
// round trip. The store stands in for the directory the real file
// handlers read and write.
#[derive(Clone, Copy)]
enum FileOp {
    Read,
    Write,
}

fn file_handler_over(
    store: &RefCell<HashMap<String, String>>,
) -> impl Fn(&FileOp, HttpRequest, &Context) -> HttpResponse + '_ {
    move |op: &FileOp, req: HttpRequest, _ctx: &Context| -> HttpResponse {
        let name = match req.path_params.get("filename") {
            Some(n) => n.clone(),
            None => return file_response(None),
        };
        match op {
            FileOp::Read => match store.borrow().get(&name) {
                Some(content) => file_response(Some(content.as_bytes().to_vec())),
                None => file_response(None),
            },
            FileOp::Write => {
                store.borrow_mut().insert(name, req.body.clone());
                file_write_response(true)
            }
        }
    }
}

#[test]
fn file_write_then_read_round_trip() {
    let mut router: HttpRouter<FileOp> = HttpRouter::new();
    router.get("/files/{filename}", FileOp::Read);
    router.post("/files/{filename}", FileOp::Write);
    let handler = HttpRequestHandler::new(Arc::new(router));
    let store = RefCell::new(HashMap::new());
    let ctx = Context { workdir: String::new() };

    let post = b"POST /files/test.txt HTTP/1.1\r\nContent-Length: 5\r\n\r\nhello".to_vec();
    let out = handler.handle_incoming_request(&post, &ctx, file_handler_over(&store));
    assert_eq!(
        out,
        "HTTP/1.1 201 Created\r\nContent-Type: application/octet-stream\r\n\r\n"
    );

    let get = b"GET /files/test.txt HTTP/1.1\r\n\r\n".to_vec();
    let out = handler.handle_incoming_request(&get, &ctx, file_handler_over(&store));
    assert_eq!(
        out,
        "HTTP/1.1 200 OK\r\nContent-Type: application/octet-stream\r\nContent-Length: 5\r\n\r\nhello"
    );
}

#[test]
fn missing_file_yields_bare_404() {
    let mut router: HttpRouter<FileOp> = HttpRouter::new();
    router.get("/files/{filename}", FileOp::Read);
    let handler = HttpRequestHandler::new(Arc::new(router));
    let store = RefCell::new(HashMap::new());
    let ctx = Context { workdir: String::new() };
    let get = b"GET /files/missing.txt HTTP/1.1\r\n\r\n".to_vec();
    let out = handler.handle_incoming_request(&get, &ctx, file_handler_over(&store));
    assert_eq!(out, "HTTP/1.1 404 Not Found\r\n\r\n");
}

#[test]
fn serializer_method_on_the_dispatcher() {
    let handler = app_handler();
    let resp = HttpResponse::builder()
        .status_code(minihttp::status::StatusCode::Okay)
        .body("ok".to_string())
        .build();
    assert_eq!(
        handler.get_response_str(&resp),
        "HTTP/1.1 200 OK\r\nContent-Length: 2\r\n\r\nok"
    );
}
