//! The dispatcher: parse, resolve the route, invoke the handler, inject
//! the negotiated `Content-Encoding` header, and serialize the response.
//! Negotiation is a header echo only: the body is never transformed.

use vstd::prelude::*;

verus! {

use std::sync::Arc;
use vstd::utf8::valid_utf8;
use vstd::utf8::decode_utf8;
use crate::headers::HeaderMap;
use crate::headers::spec_get;
use crate::headers::spec_insert;
use crate::method::HttpRequestMethod;
use crate::parser::Parser;
use crate::parser::decode_bytes;
use crate::parser::spec_parse_ok;
use crate::parser::spec_parsed_request;
use crate::parser::spec_req_line_of;
use crate::request::HttpRequest;
use crate::response::HttpResponse;
use crate::response::serialize_response;
use crate::response::spec_serialize;
use crate::router::HttpRouter;
use crate::router::spec_lookup;
use crate::server::Context;
use crate::status::StatusCode;
use crate::strutil::split_char;
use crate::strutil::split_char_exec;
use crate::strutil::strs_view;
use crate::strutil::spec_trim;
use crate::strutil::trim;
use crate::strutil::str_eq;

/// A well-formed bare response: the given status, no headers, no body.
pub open spec fn spec_bare_response(r: HttpResponse, status: StatusCode) -> bool {
    &&& r.protocol@ == "HTTP/1.1"@
    &&& r.status_code == status.spec_code()
    &&& r.reason@ == status.spec_reason()
    &&& r.body@ == Seq::<char>::empty()
    &&& r.headers@ == Seq::<(Seq<char>, Seq<char>)>::empty()
}

/// The response to any request that cannot be parsed.
pub fn bad_request_response() -> (r: HttpResponse)
    ensures
        spec_bare_response(r, StatusCode::BadRequest),
{
    HttpResponse::builder().status_code(StatusCode::BadRequest).build()
}

/// The response when no route is bound for the method and target.
pub fn not_found_response() -> (r: HttpResponse)
    ensures
        spec_bare_response(r, StatusCode::NotFound),
{
    HttpResponse::builder().status_code(StatusCode::NotFound).build()
}

// ---------- content negotiation ----------

/// The offered encodings: the `Accept-Encoding` value split on commas,
/// each candidate trimmed.
pub open spec fn spec_candidates(accept: Seq<char>) -> Seq<Seq<char>> {
    split_char(accept, ',').map_values(|c: Seq<char>| spec_trim(c))
}

pub open spec fn spec_scheme_listed(schemes: Seq<Seq<char>>, c: Seq<char>) -> bool {
    exists|j: int| 0 <= j < schemes.len() && schemes[j] == c
}

/// The first offered candidate the server supports.
pub open spec fn spec_first_supported(cands: Seq<Seq<char>>, schemes: Seq<Seq<char>>) -> Option<
    Seq<char>,
>
    decreases cands.len(),
{
    if cands.len() == 0 {
        Option::None
    } else if spec_scheme_listed(schemes, cands[0]) {
        Option::Some(cands[0])
    } else {
        spec_first_supported(cands.drop_first(), schemes)
    }
}

/// The encoding the response will advertise, if any: the first supported
/// candidate of the request's `Accept-Encoding` header.
pub open spec fn spec_chosen_encoding(
    req_headers: Seq<(Seq<char>, Seq<char>)>,
    schemes: Seq<Seq<char>>,
) -> Option<Seq<char>> {
    match spec_get(req_headers, "Accept-Encoding"@) {
        Option::None => Option::None,
        Option::Some(v) => spec_first_supported(spec_candidates(v), schemes),
    }
}

/// How the delivered response relates to what the handler returned:
/// status, reason, protocol and body unchanged; headers unchanged too,
/// except that a negotiated encoding sets `Content-Encoding`.
pub open spec fn spec_negotiated(
    req_headers: Seq<(Seq<char>, Seq<char>)>,
    schemes: Seq<Seq<char>>,
    handed: HttpResponse,
    delivered: HttpResponse,
) -> bool {
    &&& delivered.protocol == handed.protocol
    &&& delivered.status_code == handed.status_code
    &&& delivered.reason == handed.reason
    &&& delivered.body == handed.body
    &&& match spec_chosen_encoding(req_headers, schemes) {
        Option::None => delivered.headers@ == handed.headers@,
        Option::Some(s) => delivered.headers@ == spec_insert(
            handed.headers@,
            "Content-Encoding"@,
            s,
        ),
    }
}

proof fn lemma_first_supported_snoc(cands: Seq<Seq<char>>, x: Seq<char>, schemes: Seq<Seq<char>>)
    ensures
        spec_first_supported(cands.push(x), schemes) == (match spec_first_supported(
            cands,
            schemes,
        ) {
            Option::Some(s) => Option::Some(s),
            Option::None => {
                if spec_scheme_listed(schemes, x) {
                    Option::Some(x)
                } else {
                    Option::<Seq<char>>::None
                }
            },
        }),
    decreases cands.len(),
{
    if cands.len() == 0 {
        assert(cands.push(x)[0] == x);
        assert(cands.push(x).drop_first() =~= Seq::<Seq<char>>::empty());
        assert(spec_first_supported(cands, schemes) == Option::<Seq<char>>::None);
        if spec_scheme_listed(schemes, x) {
            assert(spec_first_supported(cands.push(x), schemes) == Option::Some(x));
        } else {
            assert(spec_first_supported(cands.push(x).drop_first(), schemes) == Option::<
                Seq<char>,
            >::None);
            assert(spec_first_supported(cands.push(x), schemes) == Option::<Seq<char>>::None);
        }
    } else {
        assert(cands.push(x)[0] == cands[0]);
        assert(cands.push(x).drop_first() =~= cands.drop_first().push(x));
        lemma_first_supported_snoc(cands.drop_first(), x, schemes);
    }
}

// ---------- the dispatcher ----------

pub struct HttpRequestHandler<H> {
    pub logging_enabled: bool,
    pub router: Arc<HttpRouter<H>>,
    pub encoding_schemes: Vec<String>,
}

impl<H> HttpRequestHandler<H> {
    /// The supported scheme names.
    pub open spec fn spec_schemes(&self) -> Seq<Seq<char>> {
        strs_view(self.encoding_schemes@)
    }

    pub fn new(router: Arc<HttpRouter<H>>) -> (r: HttpRequestHandler<H>)
        ensures
            r.router == router,
            !r.logging_enabled,
            r.spec_schemes() == seq!["gzip"@],
    {
        let mut schemes: Vec<String> = Vec::new();
        schemes.push("gzip".to_owned());
        let r = HttpRequestHandler { logging_enabled: false, router, encoding_schemes: schemes };
        proof {
            assert(r.spec_schemes() =~= seq!["gzip"@]);
        }
        r
    }

    /// Add a supported scheme name, once.
    pub fn add_encoding_scheme(&mut self, scheme: &str)
        ensures
            final(self).router == old(self).router,
            final(self).logging_enabled == old(self).logging_enabled,
            final(self).spec_schemes() == (if spec_scheme_listed(
                old(self).spec_schemes(),
                scheme@,
            ) {
                old(self).spec_schemes()
            } else {
                old(self).spec_schemes().push(scheme@)
            }),
    {
        let ghost orig = *old(self);
        let n = self.encoding_schemes.len();
        let mut i: usize = 0;
        while i < n
            invariant
                *self == orig,
                orig == *old(self),
                n == self.encoding_schemes@.len(),
                i <= n,
                forall|j: int| 0 <= j < i ==> self.spec_schemes()[j] != scheme@,
            decreases n - i,
        {
            if str_eq(self.encoding_schemes[i].as_str(), scheme) {
                proof {
                    assert(self.spec_schemes()[i as int] == scheme@);
                }
                return ;
            }
            proof {
                assert(self.spec_schemes()[i as int] == self.encoding_schemes@[i as int]@);
            }
            i += 1;
        }
        proof {
            assert(!spec_scheme_listed(self.spec_schemes(), scheme@));
        }
        self.encoding_schemes.push(scheme.to_owned());
        proof {
            assert(self.spec_schemes() =~= orig.spec_schemes().push(scheme@));
        }
    }

    fn scheme_listed(&self, c: &str) -> (r: bool)
        ensures
            r == spec_scheme_listed(self.spec_schemes(), c@),
    {
        let n = self.encoding_schemes.len();
        let mut i: usize = 0;
        while i < n
            invariant
                n == self.encoding_schemes@.len(),
                i <= n,
                forall|j: int| 0 <= j < i ==> self.spec_schemes()[j] != c@,
            decreases n - i,
        {
            if str_eq(self.encoding_schemes[i].as_str(), c) {
                proof {
                    assert(self.spec_schemes()[i as int] == c@);
                }
                return true;
            }
            proof {
                assert(self.spec_schemes()[i as int] == self.encoding_schemes@[i as int]@);
            }
            i += 1;
        }
        false
    }

    /// The encoding to advertise for a request, if the request offers one
    /// the server supports.
    fn choose_encoding(&self, req_headers: &HeaderMap) -> (r: Option<String>)
        ensures
            match spec_chosen_encoding(req_headers@, self.spec_schemes()) {
                Option::None => r is None,
                Option::Some(s) => r matches Option::Some(rs) && rs@ == s,
            },
    {
        let accept = match req_headers.get("Accept-Encoding") {
            Option::None => {
                return None;
            },
            Option::Some(v) => v.clone(),
        };
        let raw = split_char_exec(accept.as_str(), ',');
        let ghost cands = spec_candidates(accept@);
        proof {
            assert(cands.take(0) =~= Seq::<Seq<char>>::empty());
        }
        let n = raw.len();
        let mut i: usize = 0;
        while i < n
            invariant
                n == raw@.len(),
                strs_view(raw@) == split_char(accept@, ','),
                cands == spec_candidates(accept@),
                spec_get(req_headers@, "Accept-Encoding"@) == Option::Some(accept@),
                i <= n,
                cands.len() == n,
                spec_first_supported(cands.take(i as int), self.spec_schemes())
                    == Option::<Seq<char>>::None,
            decreases n - i,
        {
            let t = trim(raw[i].as_str());
            proof {
                assert(strs_view(raw@)[i as int] == raw@[i as int]@);
                assert(cands[i as int] == spec_trim(raw@[i as int]@));
                assert(cands.take(i + 1) =~= cands.take(i as int).push(cands[i as int]));
                lemma_first_supported_snoc(cands.take(i as int), cands[i as int], self.spec_schemes());
            }
            if self.scheme_listed(t.as_str()) {
                proof {
                    lemma_first_supported_take(cands, i + 1, self.spec_schemes());
                }
                return Some(t);
            }
            i += 1;
        }
        proof {
            assert(cands.take(n as int) =~= cands);
        }
        None
    }

    /// One request, start to finish: decode the bytes, parse, resolve the
    /// route, invoke its handler, inject the negotiated encoding header,
    /// and serialize. Every failure becomes a well-formed response: bytes
    /// that are not text or do not parse yield 400, an unbound route 404.
    pub fn handle_incoming_request<F: Fn(&H, HttpRequest, &Context) -> HttpResponse>(
        &self,
        raw: &Vec<u8>,
        ctx: &Context,
        invoke: F,
    ) -> (out: String)
        requires
            self.router.wf(),
            forall|h: &H, req: HttpRequest, c: &Context| call_requires(invoke, (h, req, c)),
        ensures
            ({
                let text = decode_utf8(raw@);
                let rl = spec_req_line_of(text);
                if !valid_utf8(raw@) || !spec_parse_ok(text) {
                    exists|resp: HttpResponse|
                        spec_bare_response(resp, StatusCode::BadRequest) && out@
                            == #[trigger] spec_serialize(&resp)
                } else {
                    match spec_lookup(self.router.routes@, rl.0, rl.1) {
                        Option::None => exists|resp: HttpResponse|
                            spec_bare_response(resp, StatusCode::NotFound) && out@
                                == #[trigger] spec_serialize(&resp),
                        Option::Some(h) => exists|req: HttpRequest, hr: HttpResponse, resp:
                            HttpResponse|
                            #![trigger call_ensures(invoke, (&h, req, ctx), hr), spec_serialize(&resp)]
                            {
                                &&& spec_parsed_request(req, text, self.router.routes@)
                                &&& call_ensures(invoke, (&h, req, ctx), hr)
                                &&& spec_negotiated(req.headers@, self.spec_schemes(), hr, resp)
                                &&& out@ == spec_serialize(&resp)
                            },
                    }
                }
            }),
    {
        let text = match decode_bytes(raw) {
            Option::None => {
                let resp = bad_request_response();
                return serialize_response(&resp);
            },
            Option::Some(t) => t,
        };
        let parser = Parser::new();
        let req = match parser.parse_http_request(text.as_str(), &*self.router) {
            Result::Err(_) => {
                let resp = bad_request_response();
                return serialize_response(&resp);
            },
            Result::Ok(req) => req,
        };
        let handler = match (&*self.router).get_handler(&req) {
            Option::None => {
                let resp = not_found_response();
                return serialize_response(&resp);
            },
            Option::Some(h) => h,
        };
        let chosen = self.choose_encoding(&req.headers);
        let ghost greq = req;
        let mut delivered = invoke(handler, req, ctx);
        let ghost handed = delivered;
        match chosen {
            Option::Some(s) => {
                delivered.headers.insert("Content-Encoding".to_owned(), s);
            },
            Option::None => {},
        }
        proof {
            assert(spec_negotiated(greq.headers@, self.spec_schemes(), handed, delivered));
        }
        serialize_response(&delivered)
    }

    /// Render a response into its exact wire text.
    pub fn get_response_str(&self, response: &HttpResponse) -> (out: String)
        ensures
            out@ == spec_serialize(response),
    {
        serialize_response(response)
    }

    pub fn enable_logging(&mut self)
        ensures
            final(self).logging_enabled,
    {
        self.logging_enabled = true;
    }

    pub fn disable_logging(&mut self)
        ensures
            !final(self).logging_enabled,
    {
        self.logging_enabled = false;
    }

    pub fn logging_enabled(&self) -> (r: bool)
        ensures
            r == self.logging_enabled,
    {
        self.logging_enabled
    }
}

proof fn lemma_first_supported_take(cands: Seq<Seq<char>>, i: int, schemes: Seq<Seq<char>>)
    requires
        0 < i <= cands.len(),
        spec_first_supported(cands.take(i), schemes) is Some,
    ensures
        spec_first_supported(cands, schemes) == spec_first_supported(cands.take(i), schemes),
    decreases cands.len() - i,
{
    if i < cands.len() {
        assert(cands.take(i + 1) =~= cands.take(i).push(cands[i]));
        lemma_first_supported_snoc(cands.take(i), cands[i], schemes);
        lemma_first_supported_take(cands, i + 1, schemes);
    } else {
        assert(cands.take(i) =~= cands);
    }
}

/// A registered literal route answers through its own handler, with the
/// handler's status and body delivered unchanged: whatever else the table
/// holds, lookup resolves to the bound handler, and negotiation only ever
/// touches the `Content-Encoding` header.
pub proof fn theorem_literal_route_answers<H>(
    r: &HttpRouter<H>,
    i: int,
    target: Seq<char>,
    m: HttpRequestMethod,
    h: H,
    req_headers: Seq<(Seq<char>, Seq<char>)>,
    schemes: Seq<Seq<char>>,
    handed: HttpResponse,
    delivered: HttpResponse,
)
    requires
        r.wf(),
        0 <= i < r.routes@.len(),
        crate::router::spec_key_literal_matches(r.routes@[i].0, target),
        crate::router::spec_method_get(r.routes@[i].1.handlers@, m) == Option::Some(h),
        spec_negotiated(req_headers, schemes, handed, delivered),
    ensures
        spec_lookup(r.routes@, m, target) == Option::Some(h),
        delivered.status_code == handed.status_code,
        delivered.body == handed.body,
        delivered.reason == handed.reason,
{
    crate::router::theorem_literal_route_resolved(r, i, target, m, h);
}

} // verus!
