//! The request parser: from the accumulated text of one request to a
//! structured `HttpRequest`, or a parse failure the dispatcher turns into
//! a 400 response.

use vstd::prelude::*;

verus! {

use vstd::string::StrSliceExecFns;
use crate::headers::HeaderMap;
use crate::headers::spec_get;
use crate::headers::spec_insert;
use crate::headers::spec_insert_all;
use crate::method::HttpRequestMethod;
use crate::method::spec_method_of;
use crate::method::method_of;
use crate::request::HttpRequest;
use crate::request::RequestLine;
use crate::router::HttpRouter;
use crate::router::RouteKey;
use crate::router::spec_find_template;
use crate::router::lemma_find_template;
use crate::router::spec_key_template_matches;
use crate::router::template_matches;
use crate::router::spec_params_of;
use crate::router::spec_declared_pairs;
use crate::router::spec_template_params;
use crate::router::params_view;
use crate::router::lemma_template_params_bounds;
use crate::strutil::find_delim;
use crate::strutil::find_delim_exec;
use crate::strutil::find_char;
use crate::strutil::find_char_exec;
use crate::strutil::split_char;
use crate::strutil::split_char_exec;
use crate::strutil::strs_view;
use crate::strutil::spec_strip_cr;
use crate::strutil::strip_cr;
use crate::strutil::spec_normalize_target;
use crate::strutil::normalize_target;
use crate::strutil::spec_trim;
use crate::strutil::trim;
use crate::strutil::all_digits;
use crate::strutil::spec_digits_val;
use crate::strutil::parse_u32_digits;

/// Why a request could not be parsed. Either way the dispatcher answers
/// with a 400 response.
#[derive(Clone, Copy, PartialEq, Eq, Structural, Debug)]
pub enum ParseError {
    /// No request line could be read.
    MalformedRequest,
    /// The method token is not a known method.
    InvalidMethod,
}

// ---------- the parse model ----------

/// The header section: everything before the first CRLF CRLF, or the
/// whole content when no delimiter ever arrived.
pub open spec fn spec_head(content: Seq<char>) -> Seq<char> {
    let d = find_delim(content);
    if d == -1 {
        content
    } else {
        content.take(d)
    }
}

/// The body prefix: everything after the first CRLF CRLF.
pub open spec fn spec_body_raw(content: Seq<char>) -> Seq<char> {
    let d = find_delim(content);
    if d == -1 {
        Seq::empty()
    } else {
        content.skip(d + 4)
    }
}

/// The lines of the header section: split on `\n`, one trailing `\r`
/// removed from each.
pub open spec fn spec_lines(head: Seq<char>) -> Seq<Seq<char>> {
    split_char(head, '\n').map_values(|l: Seq<char>| spec_strip_cr(l))
}

/// The parsed request line: `METHOD SPACE TARGET SPACE VERSION`, missing
/// parts empty, the target normalized, extra parts ignored.
pub open spec fn spec_request_line(line: Seq<char>) -> (HttpRequestMethod, Seq<char>, Seq<char>) {
    let parts = split_char(line, ' ');
    let method = spec_method_of(parts[0]);
    let target = if parts.len() > 1 {
        spec_normalize_target(parts[1])
    } else {
        Seq::empty()
    };
    let version = if parts.len() > 2 {
        parts[2]
    } else {
        Seq::empty()
    };
    (method, target, version)
}

/// The (key, value) pairs of the well-formed header lines, in order: a
/// line splits on its first `:`; lines with no colon, an empty key, or an
/// empty value are dropped.
pub open spec fn spec_header_pairs(lines: Seq<Seq<char>>) -> Seq<(Seq<char>, Seq<char>)>
    decreases lines.len(),
{
    if lines.len() == 0 {
        Seq::empty()
    } else {
        let l = lines[0];
        let i = find_char(l, ':');
        let rest = spec_header_pairs(lines.drop_first());
        if 1 <= i && i + 1 < l.len() {
            seq![(l.take(i), l.skip(i + 1))] + rest
        } else {
            rest
        }
    }
}

/// The header map of a request: its header lines bound in order, later
/// duplicate keys overwriting earlier ones.
pub open spec fn spec_headers_of(lines: Seq<Seq<char>>) -> Seq<(Seq<char>, Seq<char>)> {
    spec_insert_all(Seq::empty(), spec_header_pairs(lines))
}

/// The declared body length: the `Content-Length` value, trimmed, read as
/// a decimal number; zero when absent, not a number, or too large.
pub open spec fn spec_content_length(headers: Seq<(Seq<char>, Seq<char>)>) -> int {
    match spec_get(headers, "Content-Length"@) {
        Option::None => 0,
        Option::Some(v) => {
            let t = spec_trim(v);
            if all_digits(t) && spec_digits_val(t) <= u32::MAX {
                spec_digits_val(t)
            } else {
                0
            }
        },
    }
}

/// A parse succeeds exactly when a request line exists and its method
/// token is a known method.
pub open spec fn spec_parse_ok(content: Seq<char>) -> bool {
    &&& spec_head(content).len() > 0
    &&& !(spec_request_line(spec_lines(spec_head(content))[0]).0 is UNKNOWN)
}

/// Which failure an unparseable content yields.
pub open spec fn spec_parse_error(content: Seq<char>) -> ParseError {
    if spec_head(content).len() == 0 {
        ParseError::MalformedRequest
    } else {
        ParseError::InvalidMethod
    }
}

/// The parsed request line of a whole request content.
pub open spec fn spec_req_line_of(content: Seq<char>) -> (HttpRequestMethod, Seq<char>, Seq<char>) {
    spec_request_line(spec_lines(spec_head(content))[0])
}

/// What a successfully parsed request holds, field by field.
pub open spec fn spec_parsed_request<H>(
    req: HttpRequest,
    content: Seq<char>,
    rs: Seq<(RouteKey, crate::router::Route<H>)>,
) -> bool {
    let head = spec_head(content);
    let lines = spec_lines(head);
    let rl = spec_request_line(lines[0]);
    let hdrs = spec_headers_of(lines.drop_first());
    let cl = spec_content_length(hdrs);
    &&& req.method == rl.0
    &&& req.target@ == rl.1
    &&& req.version@ == rl.2
    &&& req.headers@ == hdrs
    &&& req.headers.wf()
    &&& req.body@ == (if cl > 0 {
        spec_body_raw(content)
    } else {
        Seq::<char>::empty()
    })
    &&& req.path_params@ == spec_params_of(rs, rl.1)
    &&& req.path_params.wf()
}

proof fn lemma_header_pairs_snoc(lines: Seq<Seq<char>>, l: Seq<char>)
    ensures
        spec_header_pairs(lines.push(l)) == spec_header_pairs(lines) + ({
            let i = find_char(l, ':');
            if 1 <= i && i + 1 < l.len() {
                seq![(l.take(i), l.skip(i + 1))]
            } else {
                Seq::<(Seq<char>, Seq<char>)>::empty()
            }
        }),
    decreases lines.len(),
{
    let tail = ({
        let i = find_char(l, ':');
        if 1 <= i && i + 1 < l.len() {
            seq![(l.take(i), l.skip(i + 1))]
        } else {
            Seq::<(Seq<char>, Seq<char>)>::empty()
        }
    });
    if lines.len() == 0 {
        assert(lines.push(l)[0] == l);
        assert(lines.push(l).drop_first() =~= Seq::<Seq<char>>::empty());
        assert(spec_header_pairs(lines.push(l).drop_first()) == Seq::<(
            Seq<char>,
            Seq<char>,
        )>::empty());
        assert(spec_header_pairs(lines) == Seq::<(Seq<char>, Seq<char>)>::empty());
        assert(spec_header_pairs(lines.push(l)) =~= spec_header_pairs(lines) + tail);
    } else {
        assert(lines.push(l)[0] == lines[0]);
        assert(lines.push(l).drop_first() =~= lines.drop_first().push(l));
        lemma_header_pairs_snoc(lines.drop_first(), l);
        assert(spec_header_pairs(lines.push(l)) =~= spec_header_pairs(lines) + tail);
    }
}

proof fn lemma_insert_all_snoc(
    m: Seq<(Seq<char>, Seq<char>)>,
    ps: Seq<(Seq<char>, Seq<char>)>,
    p: (Seq<char>, Seq<char>),
)
    ensures
        spec_insert_all(m, ps.push(p)) == spec_insert(spec_insert_all(m, ps), p.0, p.1),
    decreases ps.len(),
{
    if ps.len() == 0 {
        assert(ps.push(p)[0] == p);
        assert(ps.push(p).drop_first() =~= Seq::<(Seq<char>, Seq<char>)>::empty());
        assert(spec_insert_all(spec_insert(m, p.0, p.1), ps.push(p).drop_first()) == spec_insert(
            m,
            p.0,
            p.1,
        ));
        assert(spec_insert_all(m, ps) == m);
    } else {
        assert(ps.push(p)[0] == ps[0]);
        assert(ps.push(p).drop_first() =~= ps.drop_first().push(p));
        lemma_insert_all_snoc(spec_insert(m, ps[0].0, ps[0].1), ps.drop_first(), p);
    }
}

// ---------- the parser ----------

pub struct Parser {
    pub logging_enabled: bool,
}

impl Parser {
    pub fn new() -> (r: Parser)
        ensures
            !r.logging_enabled,
    {
        Parser { logging_enabled: false }
    }

    /// Parse the first line of the header section.
    pub fn parse_request_line(&self, line: &str) -> (r: RequestLine)
        ensures
            r.0 == spec_request_line(line@).0,
            r.1@ == spec_request_line(line@).1,
            r.2@ == spec_request_line(line@).2,
    {
        let parts = split_char_exec(line, ' ');
        proof {
            assert(strs_view(parts@)[0] == parts@[0]@);
        }
        let method = method_of(parts[0].as_str());
        let target = if parts.len() > 1 {
            proof {
                assert(strs_view(parts@)[1] == parts@[1]@);
            }
            normalize_target(parts[1].as_str())
        } else {
            String::new()
        };
        let version = if parts.len() > 2 {
            proof {
                assert(strs_view(parts@)[2] == parts@[2]@);
            }
            parts[2].clone()
        } else {
            String::new()
        };
        RequestLine(method, target, version)
    }

    /// Parse header lines into the header map, first colon splitting each
    /// line, malformed lines dropped, later duplicate keys winning.
    pub fn parse_headers(&self, lines: &Vec<String>) -> (r: HeaderMap)
        ensures
            r@ == spec_headers_of(strs_view(lines@)),
            r.wf(),
    {
        let ghost lines_spec = strs_view(lines@);
        let mut map = HeaderMap::new();
        let n = lines.len();
        let mut i: usize = 0;
        proof {
            assert(lines_spec.take(0) =~= Seq::<Seq<char>>::empty());
        }
        while i < n
            invariant
                n == lines@.len(),
                i <= n,
                lines_spec == strs_view(lines@),
                map@ == spec_insert_all(
                    Seq::<(Seq<char>, Seq<char>)>::empty(),
                    spec_header_pairs(lines_spec.take(i as int)),
                ),
                map.wf(),
            decreases n - i,
        {
            let l = &lines[i];
            let ghost lv = lines_spec[i as int];
            proof {
                assert(lv == lines@[i as int]@);
                assert(lines_spec.take(i + 1) =~= lines_spec.take(i as int).push(lv));
                lemma_header_pairs_snoc(lines_spec.take(i as int), lv);
            }
            let nl = l.as_str().unicode_len();
            match find_char_exec(l.as_str(), ':') {
                Option::Some(ci) if ci >= 1 && ci + 1 < nl => {
                    let key = l.as_str().substring_char(0, ci).to_owned();
                    let value = l.as_str().substring_char(ci + 1, nl).to_owned();
                    proof {
                        assert(key@ =~= lv.take(find_char(lv, ':')));
                        assert(value@ =~= lv.skip(find_char(lv, ':') + 1));
                        crate::headers::lemma_insert_wf(map@, key@, value@);
                        lemma_insert_all_snoc(
                            Seq::<(Seq<char>, Seq<char>)>::empty(),
                            spec_header_pairs(lines_spec.take(i as int)),
                            (key@, value@),
                        );
                        assert(spec_header_pairs(lines_spec.take(i + 1)) =~= spec_header_pairs(
                            lines_spec.take(i as int),
                        ).push((key@, value@)));
                    }
                    map.insert(key, value);
                },
                _ => {
                    proof {
                        assert(spec_header_pairs(lines_spec.take(i + 1)) =~= spec_header_pairs(
                            lines_spec.take(i as int),
                        ));
                    }
                },
            }
            i += 1;
        }
        proof {
            assert(lines_spec.take(n as int) =~= lines_spec);
        }
        map
    }

    /// Extract the declared path parameters of the first template route
    /// matching the target, in registration order; empty when none does.
    pub fn parse_path_params<H>(&self, target: &String, router: &HttpRouter<H>) -> (r: HeaderMap)
        requires
            router.wf(),
        ensures
            r@ == spec_params_of(router.routes@, target@),
            r.wf(),
    {
        proof {
            lemma_find_template(router.routes@, target@);
        }
        let n = router.routes.len();
        let mut ri: usize = 0;
        while ri < n
            invariant
                router.wf(),
                n == router.routes@.len(),
                ri <= n,
                forall|j: int|
                    0 <= j < ri ==> !spec_key_template_matches(
                        #[trigger] router.routes@[j].0,
                        target@,
                    ),
            decreases n - ri,
        {
            let hit = match &router.routes[ri].0 {
                RouteKey::Literal(_) => false,
                RouteKey::Template(segs) => template_matches(segs, target.as_str()),
            };
            if hit {
                proof {
                    lemma_find_template(router.routes@, target@);
                    assert(spec_find_template(router.routes@, target@) == ri);
                }
                return self.extract_params(target, router, ri);
            }
            ri += 1;
        }
        proof {
            lemma_find_template(router.routes@, target@);
        }
        HeaderMap::new()
    }

    /// Bind each declared (position, name) of the matched template to the
    /// target segment at that position.
    fn extract_params<H>(&self, target: &String, router: &HttpRouter<H>, ri: usize) -> (r:
        HeaderMap)
        requires
            router.wf(),
            ri < router.routes@.len(),
            spec_find_template(router.routes@, target@) == ri,
            spec_key_template_matches(router.routes@[ri as int].0, target@),
        ensures
            r@ == spec_params_of(router.routes@, target@),
            r.wf(),
    {
        let toks = split_char_exec(target.as_str(), '/');
        let ghost toks_spec = split_char(target@, '/');
        let route = &router.routes[ri].1;
        let pp = &route.path_params;
        proof {
            assert(spec_entry_ok(router, ri as int));
            match router.routes@[ri as int].0 {
                RouteKey::Template(segs) => {
                    lemma_template_params_bounds(segs@);
                    assert(params_view(pp@) == spec_template_params(segs@));
                    assert(toks_spec.len() == segs@.len() + 1);
                    assert forall|x: int|
                        0 <= x < pp@.len() implies 1 <= (#[trigger] pp@[x]).0
                        < toks_spec.len() by {
                        assert(params_view(pp@)[x] == (pp@[x].0 as int, pp@[x].1@));
                        assert(spec_template_params(segs@)[x] == (pp@[x].0 as int, pp@[x].1@));
                    }
                },
                RouteKey::Literal(_) => {},
            }
        }
        let ghost pairs = spec_declared_pairs(pp@, target@);
        let mut map = HeaderMap::new();
        let np = pp.len();
        let mut j: usize = 0;
        proof {
            assert(pairs.take(0) =~= Seq::<(Seq<char>, Seq<char>)>::empty());
        }
        while j < np
            invariant
                router.wf(),
                ri < router.routes@.len(),
                pp == &router.routes@[ri as int].1.path_params,
                np == pp@.len(),
                j <= np,
                toks_spec == split_char(target@, '/'),
                strs_view(toks@) == toks_spec,
                forall|x: int| 0 <= x < np ==> 1 <= (#[trigger] pp@[x]).0 < toks_spec.len(),
                pairs == spec_declared_pairs(pp@, target@),
                map@ == spec_insert_all(
                    Seq::<(Seq<char>, Seq<char>)>::empty(),
                    pairs.take(j as int),
                ),
                map.wf(),
            decreases np - j,
        {
            let pos = pp[j].0;
            let name = pp[j].1.clone();
            let tokv = toks[pos].clone();
            proof {
                assert(pairs[j as int] == (pp@[j as int].1@, toks_spec[pp@[j as int].0 as int]));
                assert(tokv@ == toks_spec[pos as int]);
                assert(pairs.take(j + 1) =~= pairs.take(j as int).push(pairs[j as int]));
                lemma_insert_all_snoc(
                    Seq::<(Seq<char>, Seq<char>)>::empty(),
                    pairs.take(j as int),
                    pairs[j as int],
                );
                crate::headers::lemma_insert_wf(map@, name@, tokv@);
            }
            map.insert(name, tokv);
            j += 1;
        }
        proof {
            assert(pairs.take(np as int) =~= pairs);
        }
        map
    }

    /// Parse one request's accumulated text: split off the header block,
    /// read the request line, the headers and the declared body, and
    /// resolve path parameters against the route table.
    pub fn parse_http_request<H>(&self, content: &str, router: &HttpRouter<H>) -> (r: Result<
        HttpRequest,
        ParseError,
    >)
        requires
            router.wf(),
        ensures
            match r {
                Result::Err(e) => !spec_parse_ok(content@) && e == spec_parse_error(content@),
                Result::Ok(req) => spec_parse_ok(content@) && spec_parsed_request(
                    req,
                    content@,
                    router.routes@,
                ),
            },
    {
        let n = content.unicode_len();
        let (head, body_raw) = match find_delim_exec(content) {
            Option::None => (content.to_owned(), String::new()),
            Option::Some(d) => {
                proof {
                    assert(content@.take(d as int) =~= spec_head(content@));
                    assert(content@.skip(d + 4) =~= spec_body_raw(content@));
                }
                (content.substring_char(0, d).to_owned(), content.substring_char(d + 4, n).to_owned())
            },
        };
        if head.as_str().is_empty() {
            return Err(ParseError::MalformedRequest);
        }
        let lines_raw = split_char_exec(head.as_str(), '\n');
        let ghost head_spec = head@;
        let mut lines: Vec<String> = Vec::new();
        let nl = lines_raw.len();
        let mut i: usize = 0;
        while i < nl
            invariant
                nl == lines_raw@.len(),
                i <= nl,
                strs_view(lines_raw@) == split_char(head_spec, '\n'),
                lines@.len() == i,
                forall|j: int|
                    0 <= j < i ==> #[trigger] lines@[j]@ == spec_strip_cr(
                        split_char(head_spec, '\n')[j],
                    ),
            decreases nl - i,
        {
            proof {
                assert(strs_view(lines_raw@)[i as int] == lines_raw@[i as int]@);
            }
            let stripped = strip_cr(lines_raw[i].as_str());
            lines.push(stripped);
            i += 1;
        }
        proof {
            assert(strs_view(lines@) =~= spec_lines(head_spec));
            assert(spec_lines(head_spec)[0] == strs_view(lines@)[0]);
            assert(lines@[0]@ == spec_lines(head_spec)[0]);
        }
        let rl = self.parse_request_line(lines[0].as_str());
        let is_unknown = match rl.0 {
            HttpRequestMethod::UNKNOWN => true,
            _ => false,
        };
        if is_unknown {
            return Err(ParseError::InvalidMethod);
        }
        let mut header_lines: Vec<String> = Vec::new();
        let mut k: usize = 1;
        while k < lines.len()
            invariant
                1 <= k <= lines@.len(),
                strs_view(lines@) == spec_lines(head_spec),
                header_lines@.len() == k - 1,
                forall|j: int|
                    0 <= j < k - 1 ==> #[trigger] header_lines@[j]@ == spec_lines(head_spec)[j + 1],
            decreases lines@.len() - k,
        {
            proof {
                assert(strs_view(lines@)[k as int] == lines@[k as int]@);
            }
            let hl = lines[k].clone();
            header_lines.push(hl);
            k += 1;
        }
        proof {
            assert(strs_view(header_lines@) =~= spec_lines(head_spec).drop_first());
        }
        let headers = self.parse_headers(&header_lines);
        let cl = content_length_of(&headers);
        let body = if cl > 0 {
            body_raw
        } else {
            String::new()
        };
        let path_params = self.parse_path_params(&rl.1, router);
        let RequestLine(method, target, version) = rl;
        Ok(HttpRequest::new(method, target, version, body, path_params, headers))
    }

    pub fn enable_logging(&mut self)
        ensures
            final(self).logging_enabled,
    {
        self.logging_enabled = true;
    }

    pub fn disable_logging(&mut self)
        ensures
            !final(self).logging_enabled,
    {
        self.logging_enabled = false;
    }

    pub fn logging_enabled(&self) -> (r: bool)
        ensures
            r == self.logging_enabled,
    {
        self.logging_enabled
    }
}

/// The declared body length of a parsed header map.
pub fn content_length_of(headers: &HeaderMap) -> (r: u32)
    ensures
        r == spec_content_length(headers@),
{
    match headers.get("Content-Length") {
        Option::None => 0,
        Option::Some(v) => {
            let t = trim(v.as_str());
            match parse_u32_digits(t.as_str()) {
                Option::Some(x) => x,
                Option::None => 0,
            }
        },
    }
}

/// The entry invariant of the route at `i`, restated for callers.
pub open spec fn spec_entry_ok<H>(router: &HttpRouter<H>, i: int) -> bool {
    0 <= i < router.routes@.len() && crate::router::spec_entry_wf(router.routes@[i])
}

// ---------- the read plan of the connection driver ----------

/// A CRLF CRLF delimiter starts at byte position `i`.
pub open spec fn delim_at_bytes(s: Seq<u8>, i: int) -> bool {
    &&& 0 <= i
    &&& i + 4 <= s.len()
    &&& s[i] == 13
    &&& s[i + 1] == 10
    &&& s[i + 2] == 13
    &&& s[i + 3] == 10
}

/// Whether the header block has fully arrived: the bytes contain the
/// CRLF CRLF delimiter. The connection driver reads until this holds or
/// the stream ends.
pub fn headers_complete(raw: &[u8]) -> (r: bool)
    ensures
        r == exists|i: int| delim_at_bytes(raw@, i),
{
    let n = raw.len();
    if n < 4 {
        proof {
            assert forall|i: int| !delim_at_bytes(raw@, i) by {}
        }
        return false;
    }
    let mut i: usize = 0;
    while i <= n - 4
        invariant
            n == raw@.len(),
            4 <= n,
            i <= n - 3,
            forall|j: int| 0 <= j < i ==> !delim_at_bytes(raw@, j),
        decreases n - i,
    {
        if raw[i] == 13 && raw[i + 1] == 10 && raw[i + 2] == 13 && raw[i + 3] == 10 {
            proof {
                assert(delim_at_bytes(raw@, i as int));
            }
            return true;
        }
        i += 1;
    }
    proof {
        assert forall|j: int| !delim_at_bytes(raw@, j) by {
            if 0 <= j && j + 4 <= raw@.len() {
                assert(j < i);
            }
        }
    }
    false
}

/// How many more body bytes the request still owes: the declared
/// `Content-Length` less the body bytes already read past the delimiter.
pub open spec fn spec_body_missing(content: Seq<char>) -> int {
    let head = spec_head(content);
    let lines = spec_lines(head);
    let hdrs = spec_headers_of(lines.drop_first());
    let cl = spec_content_length(hdrs);
    let have = vstd::utf8::encode_utf8(spec_body_raw(content)).len();
    if cl > have {
        cl - have
    } else {
        0
    }
}

/// The connection driver's read plan once the header block has arrived:
/// how many more bytes to read before the request is complete. Bytes that
/// are not text owe nothing; the strict parse will reject them.
pub fn body_bytes_missing(raw: &Vec<u8>) -> (r: usize)
    ensures
        vstd::utf8::valid_utf8(raw@) ==> r == spec_body_missing(vstd::utf8::decode_utf8(raw@)),
        !vstd::utf8::valid_utf8(raw@) ==> r == 0,
{
    let text = match decode_bytes(raw) {
        Option::None => {
            return 0;
        },
        Option::Some(t) => t,
    };
    let content = text.as_str();
    let n = content.unicode_len();
    let (head, body_raw) = match find_delim_exec(content) {
        Option::None => (content.to_owned(), String::new()),
        Option::Some(d) => {
            proof {
                assert(content@.take(d as int) =~= spec_head(content@));
                assert(content@.skip(d + 4) =~= spec_body_raw(content@));
            }
            (content.substring_char(0, d).to_owned(), content.substring_char(d + 4, n).to_owned())
        },
    };
    let lines_raw = split_char_exec(head.as_str(), '\n');
    let ghost head_spec = head@;
    let nl = lines_raw.len();
    let mut header_lines: Vec<String> = Vec::new();
    let mut k: usize = 1;
    while k < nl
        invariant
            nl == lines_raw@.len(),
            1 <= k <= nl,
            strs_view(lines_raw@) == split_char(head_spec, '\n'),
            header_lines@.len() == k - 1,
            forall|j: int|
                0 <= j < k - 1 ==> #[trigger] header_lines@[j]@ == spec_strip_cr(
                    split_char(head_spec, '\n')[j + 1],
                ),
        decreases nl - k,
    {
        proof {
            assert(strs_view(lines_raw@)[k as int] == lines_raw@[k as int]@);
        }
        let stripped = strip_cr(lines_raw[k].as_str());
        header_lines.push(stripped);
        k += 1;
    }
    proof {
        assert(strs_view(header_lines@) =~= spec_lines(head_spec).drop_first());
    }
    let parser = Parser::new();
    let headers = parser.parse_headers(&header_lines);
    let cl = content_length_of(&headers);
    let have = body_raw.as_str().as_bytes().len();
    let cl_usize = cl as usize;
    if cl_usize > have {
        cl_usize - have
    } else {
        0
    }
}

/// Relies on `str::from_utf8`: it returns `Ok` exactly when the bytes are
/// valid UTF-8, and the text is then their decoding.
#[verifier::external_body]
pub(crate) fn decode_bytes(raw: &Vec<u8>) -> (r: Option<String>)
    ensures
        vstd::utf8::valid_utf8(raw@) <==> r is Some,
        r matches Option::Some(t) ==> t@ == vstd::utf8::decode_utf8(raw@),
{
    match std::str::from_utf8(raw.as_slice()) {
        Ok(s) => Some(s.to_owned()),
        Err(_) => None,
    }
}

} // verus!
