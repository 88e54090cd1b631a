//! The application handlers that need no file system: the index page, the
//! `User-Agent` echo, and the path-parameter echo; and the pure response
//! builders the file handlers use once their I/O is done.

use vstd::prelude::*;

verus! {

use vstd::utf8::valid_utf8;
use vstd::utf8::decode_utf8;
use crate::handler::bad_request_response;
use crate::handler::not_found_response;
use crate::handler::spec_bare_response;
use crate::headers::spec_get;
use crate::headers::spec_insert;
use crate::request::HttpRequest;
use crate::response::HttpResponse;
use crate::server::Context;
use crate::status::StatusCode;
use crate::strutil::spec_trim;
use crate::strutil::trim;
use crate::strutil::str_eq;

/// An empty 200 response.
pub fn index(_req: HttpRequest, _ctx: &Context) -> (r: HttpResponse)
    ensures
        spec_bare_response(r, StatusCode::Okay),
{
    HttpResponse::builder().status_code(StatusCode::Okay).build()
}

/// Echo the request's `User-Agent` header as plain text, exactly as
/// received; a request without one is answered with a bare 400.
pub fn user_agent(req: HttpRequest, _ctx: &Context) -> (r: HttpResponse)
    ensures
        match spec_get(req.headers@, "User-Agent"@) {
            Option::None => spec_bare_response(r, StatusCode::BadRequest),
            Option::Some(ua) => {
                &&& r.protocol@ == "HTTP/1.1"@
                &&& r.status_code == 200
                &&& r.reason@ == "OK"@
                &&& r.body@ == ua
                &&& r.headers@ == spec_insert(
                    Seq::empty(),
                    "Content-Type"@,
                    "text/plain"@,
                )
            },
        },
{
    let body = match req.headers.get("User-Agent") {
        Option::None => {
            return bad_request_response();
        },
        Option::Some(ua) => ua.clone(),
    };
    HttpResponse::builder().status_code(StatusCode::Okay).body(body).header(
        "Content-Type",
        "text/plain",
    ).build()
}

/// Echo the `str` path parameter, trimmed, as plain text. When the raw
/// `Accept-Encoding` value is exactly `gzip` the handler itself also
/// advertises it; a request without the parameter is answered with 400.
pub fn get_str(req: HttpRequest, _ctx: &Context) -> (r: HttpResponse)
    ensures
        match spec_get(req.path_params@, "str"@) {
            Option::None => spec_bare_response(r, StatusCode::BadRequest),
            Option::Some(v) => {
                let gz = spec_get(req.headers@, "Accept-Encoding"@) == Option::Some("gzip"@);
                &&& r.protocol@ == "HTTP/1.1"@
                &&& r.status_code == 200
                &&& r.reason@ == "OK"@
                &&& r.body@ == spec_trim(v)
                &&& r.headers@ == (if gz {
                    spec_insert(
                        spec_insert(Seq::empty(), "Content-Type"@, "text/plain"@),
                        "Content-Encoding"@,
                        "gzip"@,
                    )
                } else {
                    spec_insert(Seq::empty(), "Content-Type"@, "text/plain"@)
                })
            },
        },
{
    let body = match req.path_params.get("str") {
        Option::None => {
            return bad_request_response();
        },
        Option::Some(p) => trim(p.as_str()),
    };
    let gz = match req.headers.get("Accept-Encoding") {
        Option::None => false,
        Option::Some(v) => str_eq(v.as_str(), "gzip"),
    };
    let b = HttpResponse::builder().status_code(StatusCode::Okay).body(body).header(
        "Content-Type",
        "text/plain",
    );
    if gz {
        b.header("Content-Encoding", "gzip").build()
    } else {
        b.build()
    }
}

/// The response for a file read: the bytes as the body when the read
/// succeeded (decoded as text, empty if they are not text), marked as a
/// byte stream; a bare 404 when it failed.
pub fn file_response(content: Option<Vec<u8>>) -> (r: HttpResponse)
    ensures
        match content {
            Option::Some(bytes) => {
                &&& r.protocol@ == "HTTP/1.1"@
                &&& r.status_code == 200
                &&& r.reason@ == "OK"@
                &&& r.body@ == (if valid_utf8(bytes@) {
                    decode_utf8(bytes@)
                } else {
                    Seq::<char>::empty()
                })
                &&& r.headers@ == spec_insert(
                    Seq::empty(),
                    "Content-Type"@,
                    "application/octet-stream"@,
                )
            },
            Option::None => spec_bare_response(r, StatusCode::NotFound),
        },
{
    match content {
        Option::Some(bytes) => HttpResponse::builder().status_code(StatusCode::Okay).file(
            bytes,
        ).build(),
        Option::None => not_found_response(),
    }
}

/// The response for a file write: an empty 201 marked as a byte stream
/// when the write succeeded, a bare 404 when it failed.
pub fn file_write_response(ok: bool) -> (r: HttpResponse)
    ensures
        ok ==> {
            &&& r.protocol@ == "HTTP/1.1"@
            &&& r.status_code == 201
            &&& r.reason@ == "Created"@
            &&& r.body@ == Seq::<char>::empty()
            &&& r.headers@ == spec_insert(
                Seq::empty(),
                "Content-Type"@,
                "application/octet-stream"@,
            )
        },
        !ok ==> spec_bare_response(r, StatusCode::NotFound),
{
    if ok {
        HttpResponse::builder().status_code(StatusCode::Created).header(
            "Content-Type",
            "application/octet-stream",
        ).build()
    } else {
        not_found_response()
    }
}

} // verus!
