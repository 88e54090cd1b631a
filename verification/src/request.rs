//! The structured request a successful parse produces.

use vstd::prelude::*;

verus! {

use crate::headers::HeaderMap;
use crate::method::HttpRequestMethod;

/// An immutable request value: built once by the parser, consumed by the
/// dispatcher and the handler it invokes.
pub struct HttpRequest {
    pub method: HttpRequestMethod,
    pub target: String,
    pub version: String,
    pub body: String,
    pub path_params: HeaderMap,
    pub headers: HeaderMap,
}

/// The parsed first line of a request: method, target, version.
pub struct RequestLine(pub HttpRequestMethod, pub String, pub String);

impl HttpRequest {
    pub fn new(
        method: HttpRequestMethod,
        target: String,
        version: String,
        body: String,
        path_params: HeaderMap,
        headers: HeaderMap,
    ) -> (r: HttpRequest)
        ensures
            r.method == method,
            r.target == target,
            r.version == version,
            r.body == body,
            r.path_params == path_params,
            r.headers == headers,
    {
        HttpRequest { method, target, version, headers, body, path_params }
    }
}

} // verus!
