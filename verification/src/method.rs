//! The HTTP request methods, a closed enumeration with an `UNKNOWN`
//! sentinel for unparseable method tokens.

use vstd::prelude::*;

verus! {

use crate::strutil::str_eq;

#[derive(Clone, Copy, PartialEq, Eq, Structural, Debug)]
pub enum HttpRequestMethod {
    GET,
    POST,
    PUT,
    PATCH,
    HEAD,
    OPTIONS,
    DELETE,
    CONNECT,
    TRACE,
    UNKNOWN,
}

/// The method a request-line token denotes; `UNKNOWN` for any other token.
pub open spec fn spec_method_of(tok: Seq<char>) -> HttpRequestMethod {
    if tok == "GET"@ {
        HttpRequestMethod::GET
    } else if tok == "POST"@ {
        HttpRequestMethod::POST
    } else if tok == "PUT"@ {
        HttpRequestMethod::PUT
    } else if tok == "PATCH"@ {
        HttpRequestMethod::PATCH
    } else if tok == "HEAD"@ {
        HttpRequestMethod::HEAD
    } else if tok == "OPTIONS"@ {
        HttpRequestMethod::OPTIONS
    } else if tok == "DELETE"@ {
        HttpRequestMethod::DELETE
    } else if tok == "CONNECT"@ {
        HttpRequestMethod::CONNECT
    } else if tok == "TRACE"@ {
        HttpRequestMethod::TRACE
    } else {
        HttpRequestMethod::UNKNOWN
    }
}

pub fn method_of(tok: &str) -> (r: HttpRequestMethod)
    ensures
        r == spec_method_of(tok@),
{
    if str_eq(tok, "GET") {
        HttpRequestMethod::GET
    } else if str_eq(tok, "POST") {
        HttpRequestMethod::POST
    } else if str_eq(tok, "PUT") {
        HttpRequestMethod::PUT
    } else if str_eq(tok, "PATCH") {
        HttpRequestMethod::PATCH
    } else if str_eq(tok, "HEAD") {
        HttpRequestMethod::HEAD
    } else if str_eq(tok, "OPTIONS") {
        HttpRequestMethod::OPTIONS
    } else if str_eq(tok, "DELETE") {
        HttpRequestMethod::DELETE
    } else if str_eq(tok, "CONNECT") {
        HttpRequestMethod::CONNECT
    } else if str_eq(tok, "TRACE") {
        HttpRequestMethod::TRACE
    } else {
        HttpRequestMethod::UNKNOWN
    }
}

} // verus!
