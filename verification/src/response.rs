//! The structured response, its builder, and the serializer that renders
//! a response into HTTP/1.1 wire format.

use vstd::prelude::*;

verus! {

use vstd::string::StrSliceExecFns;
use vstd::string::StringExecFns;
use vstd::utf8::valid_utf8;
use vstd::utf8::decode_utf8;
use crate::headers::HeaderMap;
use crate::status::StatusCode;
use crate::strutil::spec_dec_digits;
use crate::strutil::spec_digits_val;
use crate::strutil::dec_digit_char;
use crate::strutil::usize_to_string;

/// A response value, consumed exactly once by the serializer.
pub struct HttpResponse {
    pub protocol: String,
    pub status_code: u32,
    pub body: String,
    pub reason: String,
    pub headers: HeaderMap,
}

/// Accumulates response fields; `build` derives the reason phrase and
/// enforces the internal-error clearing rule.
pub struct HttpResponseBuilder {
    pub protocol: String,
    pub status_code: Option<StatusCode>,
    pub body: String,
    pub headers: HeaderMap,
}

impl HttpResponseBuilder {
    fn new() -> (r: HttpResponseBuilder)
        ensures
            r.protocol@ == "HTTP/1.1"@,
            r.status_code is None,
            r.body@ == Seq::<char>::empty(),
            r.headers@ == Seq::<(Seq<char>, Seq<char>)>::empty(),
            r.headers.wf(),
    {
        let r = HttpResponseBuilder {
            protocol: "HTTP/1.1".to_owned(),
            status_code: None,
            body: String::new(),
            headers: HeaderMap::new(),
        };
        r
    }

    pub fn status_code(self, status: StatusCode) -> (r: Self)
        ensures
            r == (HttpResponseBuilder { status_code: Some(status), ..self }),
    {
        HttpResponseBuilder { status_code: Some(status), ..self }
    }

    pub fn protocol(self, protocol: String) -> (r: Self)
        ensures
            r == (HttpResponseBuilder { protocol, ..self }),
    {
        HttpResponseBuilder { protocol, ..self }
    }

    pub fn body(self, body: String) -> (r: Self)
        ensures
            r == (HttpResponseBuilder { body, ..self }),
    {
        HttpResponseBuilder { body, ..self }
    }

    /// File contents become the body when they decode as text, and an
    /// empty body otherwise; the content type is marked as a byte stream.
    pub fn file(self, content: Vec<u8>) -> (r: Self)
        ensures
            valid_utf8(content@) ==> r.body@ == decode_utf8(content@),
            !valid_utf8(content@) ==> r.body@ == Seq::<char>::empty(),
            r.headers@ == crate::headers::spec_insert(
                self.headers@,
                "Content-Type"@,
                "application/octet-stream"@,
            ),
            r.protocol == self.protocol,
            r.status_code == self.status_code,
    {
        let body = string_of_bytes_or_empty(content);
        let with_body = HttpResponseBuilder { body, ..self };
        with_body.header("Content-Type", "application/octet-stream")
    }

    pub fn json(self, body: String) -> (r: Self)
        ensures
            r.body == body,
            r.headers@ == crate::headers::spec_insert(
                self.headers@,
                "Content-Type"@,
                "application/json"@,
            ),
            r.protocol == self.protocol,
            r.status_code == self.status_code,
    {
        let with_body = HttpResponseBuilder { body, ..self };
        with_body.header("Content-Type", "application/json")
    }

    pub fn plain_text(self, body: String) -> (r: Self)
        ensures
            r.body == body,
            r.headers@ == crate::headers::spec_insert(
                self.headers@,
                "Content-Type"@,
                "text/plain"@,
            ),
            r.protocol == self.protocol,
            r.status_code == self.status_code,
    {
        let with_body = HttpResponseBuilder { body, ..self };
        with_body.header("Content-Type", "text/plain")
    }

    pub fn header(self, key: &str, value: &str) -> (r: Self)
        ensures
            r.headers@ == crate::headers::spec_insert(self.headers@, key@, value@),
            r.protocol == self.protocol,
            r.status_code == self.status_code,
            r.body == self.body,
    {
        let mut headers = self.headers;
        headers.insert(key.to_owned(), value.to_owned());
        HttpResponseBuilder { headers, ..self }
    }

    /// A copy of the builder in its current state.
    pub fn get(&self) -> (r: Self)
        ensures
            r.protocol@ == self.protocol@,
            r.status_code == self.status_code,
            r.body@ == self.body@,
            r.headers@ == self.headers@,
    {
        HttpResponseBuilder {
            protocol: self.protocol.clone(),
            status_code: match &self.status_code {
                Some(s) => Some(*s),
                None => None,
            },
            body: self.body.clone(),
            headers: self.headers.duplicate(),
        }
    }

    /// Produce the response. A missing status becomes an internal error,
    /// and an internal error is always delivered bare: headers and body
    /// are cleared no matter what was set on the builder.
    pub fn build(self) -> (r: HttpResponse)
        ensures
            r.protocol@ == self.protocol@,
            ({
                let st = match self.status_code {
                    Some(st) => st,
                    None => StatusCode::InternalServerError,
                };
                &&& r.status_code == st.spec_code()
                &&& r.reason@ == st.spec_reason()
                &&& (st is InternalServerError ==> r.body@ == Seq::<char>::empty()
                    && r.headers@ == Seq::<(Seq<char>, Seq<char>)>::empty())
                &&& (!(st is InternalServerError) ==> r.body@ == self.body@ && r.headers@
                    == self.headers@)
            }),
    {
        let status = match self.status_code {
            Some(st) => st,
            None => StatusCode::InternalServerError,
        };
        match status {
            StatusCode::InternalServerError => HttpResponse {
                protocol: self.protocol,
                status_code: status.code(),
                body: String::new(),
                reason: status.reason(),
                headers: HeaderMap::new(),
            },
            _ => HttpResponse {
                protocol: self.protocol,
                status_code: status.code(),
                body: self.body,
                reason: status.reason(),
                headers: self.headers,
            },
        }
    }
}

/// The failure a builder could report. `build` itself never fails — a
/// missing status falls back to an internal error — so this value is
/// only ever constructed by callers that want a named failure.
pub struct HttpResponseBuilderError {
    pub message: String,
}

impl HttpResponseBuilderError {
    /// The failure rendered as text.
    pub fn text(&self) -> (r: String)
        ensures
            r@ == "Cannot build HttpResponse: "@ + self.message@,
    {
        let mut s: String = "Cannot build HttpResponse: ".to_owned();
        s.append(self.message.as_str());
        s
    }
}

impl HttpResponse {
    pub fn builder() -> (r: HttpResponseBuilder)
        ensures
            r.protocol@ == "HTTP/1.1"@,
            r.status_code is None,
            r.body@ == Seq::<char>::empty(),
            r.headers@ == Seq::<(Seq<char>, Seq<char>)>::empty(),
            r.headers.wf(),
    {
        HttpResponseBuilder::new()
    }
}

/// Relies on `String::from_utf8`: it returns `Ok` exactly when the bytes
/// are valid UTF-8, and the string is then their decoding.
#[verifier::external_body]
fn string_of_bytes_or_empty(content: Vec<u8>) -> (r: String)
    ensures
        valid_utf8(content@) ==> r@ == decode_utf8(content@),
        !valid_utf8(content@) ==> r@ == Seq::<char>::empty(),
{
    String::from_utf8(content).unwrap_or(String::new())
}

// ---------- serialization ----------

pub open spec fn crlf() -> Seq<char> {
    seq!['\r', '\n']
}

/// `"{protocol} {status_code} {reason}\r\n"`.
pub open spec fn spec_status_line(r: &HttpResponse) -> Seq<char> {
    r.protocol@ + seq![' '] + spec_dec_digits(r.status_code as int) + seq![' '] + r.reason@ + crlf()
}

/// `"{key}: {value}\r\n"` for each entry, in entry order.
pub open spec fn spec_header_lines(hs: Seq<(Seq<char>, Seq<char>)>) -> Seq<char>
    decreases hs.len(),
{
    if hs.len() == 0 {
        Seq::empty()
    } else {
        hs[0].0 + ": "@ + hs[0].1 + crlf() + spec_header_lines(hs.drop_first())
    }
}

/// The byte length of the body on the wire.
pub open spec fn spec_body_byte_len(body: Seq<char>) -> int {
    vstd::utf8::encode_utf8(body).len() as int
}

/// The `Content-Length` header, present exactly when the body is non-empty.
pub open spec fn spec_content_length_block(body: Seq<char>) -> Seq<char> {
    if body.len() > 0 {
        "Content-Length: "@ + spec_dec_digits(spec_body_byte_len(body)) + crlf()
    } else {
        Seq::empty()
    }
}

/// The exact wire text of a response.
pub open spec fn spec_serialize(r: &HttpResponse) -> Seq<char> {
    spec_status_line(r) + spec_header_lines(r.headers@) + spec_content_length_block(r.body@)
        + crlf() + if r.body@.len() > 0 {
        r.body@
    } else {
        Seq::empty()
    }
}

proof fn lemma_header_lines_snoc(hs: Seq<(Seq<char>, Seq<char>)>, p: (Seq<char>, Seq<char>))
    ensures
        spec_header_lines(hs.push(p)) == spec_header_lines(hs) + (p.0 + ": "@ + p.1 + crlf()),
    decreases hs.len(),
{
    if hs.len() == 0 {
        assert(hs.push(p).drop_first() =~= Seq::<(Seq<char>, Seq<char>)>::empty());
        assert(hs.push(p)[0] == p);
        assert(spec_header_lines(hs.push(p).drop_first()) == Seq::<char>::empty());
        assert(spec_header_lines(hs.push(p)) == p.0 + ": "@ + p.1 + crlf()
            + spec_header_lines(hs.push(p).drop_first()));
        assert(spec_header_lines(hs.push(p)) =~= (p.0 + ": "@ + p.1 + crlf()));
        assert(spec_header_lines(hs) + (p.0 + ": "@ + p.1 + crlf()) =~= (p.0 + ": "@ + p.1
            + crlf()));
    } else {
        assert(hs.push(p).drop_first() =~= hs.drop_first().push(p));
        lemma_header_lines_snoc(hs.drop_first(), p);
        assert(spec_header_lines(hs.push(p)) =~= spec_header_lines(hs) + (p.0 + ": "@ + p.1
            + crlf()));
    }
}

/// Render a response into its exact wire text.
pub fn serialize_response(r: &HttpResponse) -> (out: String)
    ensures
        out@ == spec_serialize(r),
{
    let mut out = r.protocol.clone();
    out.append(" ");
    let code = usize_to_string(r.status_code as usize);
    out.append(code.as_str());
    out.append(" ");
    out.append(r.reason.as_str());
    out.append("\r\n");
    proof {
        reveal_strlit(" ");
        reveal_strlit("\r\n");
        assert(out@ =~= spec_status_line(r));
    }
    let n = r.headers.len();
    let ghost base = out@;
    let mut i: usize = 0;
    while i < n
        invariant
            n == r.headers@.len(),
            i <= n,
            base == spec_status_line(r),
            out@ == base + spec_header_lines(r.headers@.take(i as int)),
        decreases n - i,
    {
        out.append(r.headers.key_at(i).as_str());
        out.append(": ");
        out.append(r.headers.value_at(i).as_str());
        out.append("\r\n");
        proof {
            reveal_strlit(": ");
            reveal_strlit("\r\n");
            assert(r.headers@.take(i + 1) =~= r.headers@.take(i as int).push(
                r.headers@[i as int],
            ));
            lemma_header_lines_snoc(r.headers@.take(i as int), r.headers@[i as int]);
            assert(out@ =~= base + spec_header_lines(r.headers@.take(i + 1)));
        }
        i += 1;
    }
    proof {
        assert(r.headers@.take(n as int) =~= r.headers@);
        assert(out@ == spec_status_line(r) + spec_header_lines(r.headers@));
    }
    let ghost mid = out@;
    let body_empty = r.body.as_str().is_empty();
    if !body_empty {
        out.append("Content-Length: ");
        let blen = r.body.as_str().as_bytes().len();
        let digits = usize_to_string(blen);
        out.append(digits.as_str());
        out.append("\r\n");
        proof {
            reveal_strlit("\r\n");
            assert(blen == spec_body_byte_len(r.body@));
            assert(digits@ == spec_dec_digits(spec_body_byte_len(r.body@)));
            assert("\r\n"@ =~= crlf());
            assert(out@ =~= mid + spec_content_length_block(r.body@));
        }
    } else {
        proof {
            assert(out@ =~= mid + spec_content_length_block(r.body@));
        }
    }
    out.append("\r\n");
    if !body_empty {
        out.append(r.body.as_str());
    }
    proof {
        reveal_strlit("\r\n");
        assert("\r\n"@ =~= crlf());
        assert(out@ =~= spec_serialize(r));
    }
    out
}

// ---------- stated laws of serialization ----------

/// The round trip of the `Content-Length` value: the digits the serializer
/// writes denote exactly the byte length of the body.
pub proof fn lemma_dec_digits_round_trip(n: int)
    requires
        n >= 0,
    ensures
        crate::strutil::all_digits(spec_dec_digits(n)),
        spec_digits_val(spec_dec_digits(n)) == n,
    decreases n,
{
    if n < 10 {
        assert(spec_dec_digits(n) == seq![dec_digit_char(n)]);
        assert(spec_digits_val(spec_dec_digits(n)) == spec_digits_val(
            seq![dec_digit_char(n)].drop_last(),
        ) * 10 + crate::strutil::digit_char_val(dec_digit_char(n)));
        assert(seq![dec_digit_char(n)].drop_last() =~= Seq::<char>::empty());
    } else {
        assert(0 <= n / 10 < n) by (nonlinear_arith)
            requires
                n >= 10,
        ;
        lemma_dec_digits_round_trip(n / 10);
        let ds = spec_dec_digits(n);
        let prev = spec_dec_digits(n / 10);
        assert(ds == prev.push(dec_digit_char(n % 10)));
        assert(ds.drop_last() =~= prev);
        assert(ds.last() == dec_digit_char(n % 10));
        assert(spec_digits_val(ds) == (n / 10) * 10 + (n % 10));
        assert((n / 10) * 10 + (n % 10) == n) by (nonlinear_arith)
            requires
                n >= 0,
        ;
        assert forall|i: int| 0 <= i < ds.len() implies crate::strutil::is_digit_char(
            #[trigger] ds[i],
        ) by {
            if i < prev.len() {
                assert(ds[i] == prev[i]);
            }
        }
    }
}

/// Serializing a response with a non-empty body yields a `Content-Length`
/// header whose digits denote the byte length of that body; an empty body
/// yields no `Content-Length` header at all.
pub proof fn theorem_content_length_round_trip(r: &HttpResponse)
    ensures
        r.body@.len() > 0 ==> spec_serialize(r) == spec_status_line(r) + spec_header_lines(
            r.headers@,
        ) + ("Content-Length: "@ + spec_dec_digits(spec_body_byte_len(r.body@)) + crlf()) + crlf()
            + r.body@ && spec_digits_val(spec_dec_digits(spec_body_byte_len(r.body@)))
            == spec_body_byte_len(r.body@),
        r.body@.len() == 0 ==> spec_serialize(r) == spec_status_line(r) + spec_header_lines(
            r.headers@,
        ) + crlf(),
{
    if r.body@.len() > 0 {
        lemma_dec_digits_round_trip(spec_body_byte_len(r.body@));
    } else {
        assert(spec_serialize(r) =~= spec_status_line(r) + spec_header_lines(r.headers@) + crlf());
    }
}

/// An internal-error response serializes with no header lines and no body:
/// only the status line, and the blank line that ends the header block.
pub proof fn theorem_internal_error_bare(r: &HttpResponse)
    requires
        r.headers@.len() == 0,
        r.body@.len() == 0,
    ensures
        spec_serialize(r) == spec_status_line(r) + crlf(),
{
    assert(spec_serialize(r) =~= spec_status_line(r) + crlf());
}

} // verus!
