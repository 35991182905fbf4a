//! The structured HTTP response — status code, headers, body — and its
//! rendering into the exact wire string.

use vstd::prelude::*;
use vstd::utf8::encode_utf8;

use crate::request::RequestParseError;
use crate::strutil::{dec_digits, to_decimal_string};

verus! {

/// The status codes this router can send.
#[derive(Clone, Copy, Debug, PartialEq, Eq, Structural)]
pub enum HttpStatusCode {
    OK,
    Created,
    Accepted,
    BadRequest,
    Unauthorized,
    Forbidden,
    NotFound,
    InternalServerError,
    NotImplemented,
}

impl HttpStatusCode {
    /// The numeric code of this status.
    pub open spec fn spec_code(self) -> int {
        match self {
            HttpStatusCode::OK => 200,
            HttpStatusCode::Created => 201,
            HttpStatusCode::Accepted => 202,
            HttpStatusCode::BadRequest => 400,
            HttpStatusCode::Unauthorized => 401,
            HttpStatusCode::Forbidden => 403,
            HttpStatusCode::NotFound => 404,
            HttpStatusCode::InternalServerError => 500,
            HttpStatusCode::NotImplemented => 501,
        }
    }

    /// The name of this status as the wire string renders it.
    pub open spec fn spec_name(self) -> Seq<char> {
        match self {
            HttpStatusCode::OK => "OK"@,
            HttpStatusCode::Created => "Created"@,
            HttpStatusCode::Accepted => "Accepted"@,
            HttpStatusCode::BadRequest => "BadRequest"@,
            HttpStatusCode::Unauthorized => "Unauthorized"@,
            HttpStatusCode::Forbidden => "Forbidden"@,
            HttpStatusCode::NotFound => "NotFound"@,
            HttpStatusCode::InternalServerError => "InternalServerError"@,
            HttpStatusCode::NotImplemented => "NotImplemented"@,
        }
    }

    /// The numeric code of this status.
    pub fn code(self) -> (n: usize)
        ensures
            n == self.spec_code(),
    {
        match self {
            HttpStatusCode::OK => 200,
            HttpStatusCode::Created => 201,
            HttpStatusCode::Accepted => 202,
            HttpStatusCode::BadRequest => 400,
            HttpStatusCode::Unauthorized => 401,
            HttpStatusCode::Forbidden => 403,
            HttpStatusCode::NotFound => 404,
            HttpStatusCode::InternalServerError => 500,
            HttpStatusCode::NotImplemented => 501,
        }
    }

    /// The decimal rendering of the numeric code.
    pub fn code_str(self) -> (s: &'static str)
        ensures
            s@ == dec_digits(self.spec_code()),
    {
        proof {
            reveal_strlit("200");
            reveal_strlit("201");
            reveal_strlit("202");
            reveal_strlit("400");
            reveal_strlit("401");
            reveal_strlit("403");
            reveal_strlit("404");
            reveal_strlit("500");
            reveal_strlit("501");
        }
        let r = match self {
            HttpStatusCode::OK => "200",
            HttpStatusCode::Created => "201",
            HttpStatusCode::Accepted => "202",
            HttpStatusCode::BadRequest => "400",
            HttpStatusCode::Unauthorized => "401",
            HttpStatusCode::Forbidden => "403",
            HttpStatusCode::NotFound => "404",
            HttpStatusCode::InternalServerError => "500",
            HttpStatusCode::NotImplemented => "501",
        };
        proof {
            reveal_with_fuel(dec_digits, 4);
            assert(r@ =~= dec_digits(self.spec_code()));
        }
        r
    }

    /// The status for a known numeric code — the inverse of [`Self::code`].
    /// Only the codes of this closed enumeration are accepted; the caller
    /// must not pass any other.
    pub fn from_code(code: usize) -> (r: HttpStatusCode)
        requires
            exists|s: HttpStatusCode| s.spec_code() == code,
        ensures
            r.spec_code() == code,
    {
        if code == 200 {
            HttpStatusCode::OK
        } else if code == 201 {
            HttpStatusCode::Created
        } else if code == 202 {
            HttpStatusCode::Accepted
        } else if code == 400 {
            HttpStatusCode::BadRequest
        } else if code == 401 {
            HttpStatusCode::Unauthorized
        } else if code == 403 {
            HttpStatusCode::Forbidden
        } else if code == 404 {
            HttpStatusCode::NotFound
        } else if code == 500 {
            HttpStatusCode::InternalServerError
        } else {
            proof {
                let s = choose|s: HttpStatusCode| s.spec_code() == code;
                assert(s == HttpStatusCode::NotImplemented);
            }
            HttpStatusCode::NotImplemented
        }
    }

    /// The status name as the wire string renders it.
    pub fn name_str(self) -> (s: &'static str)
        ensures
            s@ == self.spec_name(),
    {
        match self {
            HttpStatusCode::OK => "OK",
            HttpStatusCode::Created => "Created",
            HttpStatusCode::Accepted => "Accepted",
            HttpStatusCode::BadRequest => "BadRequest",
            HttpStatusCode::Unauthorized => "Unauthorized",
            HttpStatusCode::Forbidden => "Forbidden",
            HttpStatusCode::NotFound => "NotFound",
            HttpStatusCode::InternalServerError => "InternalServerError",
            HttpStatusCode::NotImplemented => "NotImplemented",
        }
    }
}

impl Default for HttpStatusCode {
    /// A fresh status is `OK`.
    fn default() -> (r: Self)
        ensures
            r == HttpStatusCode::OK,
    {
        HttpStatusCode::OK
    }
}

/// The header names this router can set.
#[derive(Debug, Copy, Clone, PartialEq, Eq, Structural)]
pub enum HttpHeaderName {
    ContentType,
}

/// The wire spelling of a header name.
pub open spec fn spec_header_name(name: HttpHeaderName) -> Seq<char> {
    match name {
        HttpHeaderName::ContentType => "content-type"@,
    }
}

/// The wire spelling of a header name.
pub fn header_name_str(name: HttpHeaderName) -> (s: &'static str)
    ensures
        s@ == spec_header_name(name),
{
    match name {
        HttpHeaderName::ContentType => "content-type",
    }
}

/// The view of a header list: each name with the view of its value.
pub open spec fn headers_view_of(hs: Seq<(HttpHeaderName, String)>) -> Seq<
    (HttpHeaderName, Seq<char>),
> {
    hs.map_values(|p: (HttpHeaderName, String)| (p.0, p.1@))
}

/// Insert-or-overwrite by header name: the first entry holding the name is
/// replaced in place, keeping its position; a fresh name is appended.
pub open spec fn spec_set_header(
    hs: Seq<(HttpHeaderName, Seq<char>)>,
    name: HttpHeaderName,
    value: Seq<char>,
) -> Seq<(HttpHeaderName, Seq<char>)>
    decreases hs.len(),
{
    if hs.len() == 0 {
        seq![(name, value)]
    } else if hs[0].0 == name {
        seq![(name, value)] + hs.drop_first()
    } else {
        seq![hs[0]] + spec_set_header(hs.drop_first(), name, value)
    }
}

/// `spec_set_header` replaces in place when the name is at `i`, the first
/// entry holding it.
proof fn lemma_set_header_found(
    hs: Seq<(HttpHeaderName, Seq<char>)>,
    name: HttpHeaderName,
    value: Seq<char>,
    i: int,
)
    requires
        0 <= i < hs.len(),
        hs[i].0 == name,
        forall|j: int| 0 <= j < i ==> hs[j].0 != name,
    ensures
        spec_set_header(hs, name, value) == hs.update(i, (name, value)),
    decreases i,
{
    if i == 0 {
        assert(seq![(name, value)] + hs.drop_first() =~= hs.update(0, (name, value)));
    } else {
        assert(forall|j: int| 0 <= j < i - 1 ==> hs.drop_first()[j] == hs[j + 1]);
        lemma_set_header_found(hs.drop_first(), name, value, i - 1);
        assert(seq![hs[0]] + hs.drop_first().update(i - 1, (name, value)) =~= hs.update(
            i,
            (name, value),
        ));
    }
}

/// `spec_set_header` appends when no entry holds the name.
proof fn lemma_set_header_missing(
    hs: Seq<(HttpHeaderName, Seq<char>)>,
    name: HttpHeaderName,
    value: Seq<char>,
)
    requires
        forall|j: int| 0 <= j < hs.len() ==> hs[j].0 != name,
    ensures
        spec_set_header(hs, name, value) == hs.push((name, value)),
    decreases hs.len(),
{
    if hs.len() == 0 {
        assert(seq![(name, value)] =~= hs.push((name, value)));
    } else {
        lemma_set_header_missing(hs.drop_first(), name, value);
        assert(seq![hs[0]] + hs.drop_first().push((name, value)) =~= hs.push((name, value)));
    }
}

/// Later calls with the same name replace the earlier value: setting a
/// header twice is the same as setting it once to the second value.
pub proof fn lemma_set_header_overwrites(
    hs: Seq<(HttpHeaderName, Seq<char>)>,
    name: HttpHeaderName,
    v1: Seq<char>,
    v2: Seq<char>,
)
    ensures
        spec_set_header(spec_set_header(hs, name, v1), name, v2) == spec_set_header(hs, name, v2),
    decreases hs.len(),
{
    if hs.len() == 0 {
        assert(seq![(name, v1)].drop_first() =~= Seq::<(HttpHeaderName, Seq<char>)>::empty());
        assert(spec_set_header(spec_set_header(hs, name, v1), name, v2) =~= spec_set_header(
            hs,
            name,
            v2,
        ));
    } else if hs[0].0 == name {
        let s1 = seq![(name, v1)] + hs.drop_first();
        assert(s1[0].0 == name);
        assert(s1.drop_first() =~= hs.drop_first());
        assert(spec_set_header(s1, name, v2) =~= seq![(name, v2)] + hs.drop_first());
    } else {
        let s1 = seq![hs[0]] + spec_set_header(hs.drop_first(), name, v1);
        assert(s1[0] == hs[0]);
        assert(s1.drop_first() =~= spec_set_header(hs.drop_first(), name, v1));
        lemma_set_header_overwrites(hs.drop_first(), name, v1, v2);
        assert(spec_set_header(s1, name, v2) =~= seq![hs[0]] + spec_set_header(
            hs.drop_first(),
            name,
            v2,
        ));
    }
}

/// A structured HTTP response: status code, headers and body, mutated by a
/// handler through the setters and rendered once by
/// [`response_into_http_response_string`]. The fields are public so that
/// contracts can speak of them directly.
pub struct Response {
    /// The status line's code; `OK` by default.
    pub status_code: HttpStatusCode,
    /// The response body; empty by default.
    pub body: String,
    /// The headers, in insertion order, one entry per name.
    pub headers: Vec<(HttpHeaderName, String)>,
}

impl Response {
    /// The view of the header list.
    pub open spec fn headers_view(&self) -> Seq<(HttpHeaderName, Seq<char>)> {
        headers_view_of(self.headers@)
    }

    /// Overwrites the status code.
    pub fn set_status_code(&mut self, code: HttpStatusCode)
        ensures
            final(self).status_code == code,
            final(self).body@ == old(self).body@,
            final(self).headers@ == old(self).headers@,
    {
        self.status_code = code;
    }

    /// Inserts or overwrites the header `header_name`, keeping the position
    /// of an already-set name and appending a fresh one.
    pub fn set_header(&mut self, header_name: HttpHeaderName, header_value: &str)
        ensures
            final(self).headers_view() == spec_set_header(
                old(self).headers_view(),
                header_name,
                header_value@,
            ),
            final(self).status_code == old(self).status_code,
            final(self).body@ == old(self).body@,
    {
        let ghost hv0 = self.headers_view();
        let mut idx: usize = 0;
        while idx < self.headers.len()
            invariant
                idx <= self.headers@.len(),
                *self == *old(self),
                hv0 == headers_view_of(self.headers@),
                forall|j: int| 0 <= j < idx ==> self.headers@[j].0 != header_name,
            decreases self.headers@.len() - idx,
        {
            if self.headers[idx].0 == header_name {
                proof {
                    assert(hv0[idx as int].0 == header_name);
                    assert(forall|j: int| 0 <= j < idx ==> hv0[j].0 != header_name);
                    lemma_set_header_found(hv0, header_name, header_value@, idx as int);
                }
                self.headers[idx] = (header_name, header_value.to_owned());
                proof {
                    assert(self.headers_view() =~= hv0.update(
                        idx as int,
                        (header_name, header_value@),
                    ));
                }
                return ;
            }
            idx = idx + 1;
        }
        proof {
            assert(forall|j: int| 0 <= j < hv0.len() ==> hv0[j].0 != header_name);
            lemma_set_header_missing(hv0, header_name, header_value@);
        }
        self.headers.push((header_name, header_value.to_owned()));
        proof {
            assert(self.headers_view() =~= hv0.push((header_name, header_value@)));
        }
    }

    /// Overwrites the body and only the body; headers stay untouched.
    pub fn set_body(&mut self, body: &str)
        ensures
            final(self).body@ == body@,
            final(self).status_code == old(self).status_code,
            final(self).headers@ == old(self).headers@,
    {
        self.body = body.to_owned();
    }

    /// Overwrites the body and forces `content-type: application/json`.
    pub fn set_json(&mut self, json: &str)
        ensures
            final(self).body@ == json@,
            final(self).headers_view() == spec_set_header(
                old(self).headers_view(),
                HttpHeaderName::ContentType,
                "application/json"@,
            ),
            final(self).status_code == old(self).status_code,
    {
        self.set_header(HttpHeaderName::ContentType, "application/json");
        self.body = json.to_owned();
    }

    /// Overwrites the body and forces `content-type: text/html`.
    pub fn set_html(&mut self, html: &str)
        ensures
            final(self).body@ == html@,
            final(self).headers_view() == spec_set_header(
                old(self).headers_view(),
                HttpHeaderName::ContentType,
                "text/html"@,
            ),
            final(self).status_code == old(self).status_code,
    {
        self.set_header(HttpHeaderName::ContentType, "text/html");
        self.body = html.to_owned();
    }
}

impl Default for Response {
    /// A fresh response: status `OK`, empty body, no headers.
    fn default() -> (r: Self)
        ensures
            r.status_code == HttpStatusCode::OK,
            r.body@ == Seq::<char>::empty(),
            r.headers@ == Seq::<(HttpHeaderName, String)>::empty(),
    {
        Response { status_code: HttpStatusCode::OK, body: String::new(), headers: Vec::new() }
    }
}

/// One rendered header line, `name: value`.
pub open spec fn spec_header_line(h: (HttpHeaderName, Seq<char>)) -> Seq<char> {
    spec_header_name(h.0) + ": "@ + h.1
}

/// The header lines from index `i` on, joined by `\n` (no trailing
/// newline; empty for an empty list).
pub open spec fn spec_headers_block(hs: Seq<(HttpHeaderName, Seq<char>)>, i: int) -> Seq<char>
    decreases hs.len() - i,
{
    if i < 0 || i >= hs.len() {
        Seq::empty()
    } else if i == hs.len() - 1 {
        spec_header_line(hs[i])
    } else {
        spec_header_line(hs[i]) + "\n"@ + spec_headers_block(hs, i + 1)
    }
}

/// The UTF-8 byte length of a body, as the in-memory string reports it.
pub open spec fn spec_body_byte_len(body: Seq<char>) -> int {
    (encode_utf8(body).len() as usize) as int
}

/// The exact wire string for a response with the given status, header view
/// and body: the status line, one line per header, a `content-length` line
/// computed from the body's UTF-8 byte length, a blank line, and the body.
/// Lines end in `\n`, not `\r\n`: that is the one format this router emits.
pub open spec fn spec_serialize_parts(
    status: HttpStatusCode,
    headers: Seq<(HttpHeaderName, Seq<char>)>,
    body: Seq<char>,
) -> Seq<char> {
    "HTTP/1.1 "@ + dec_digits(status.spec_code()) + " "@ + status.spec_name() + "\n"@
        + spec_headers_block(headers, 0) + "\ncontent-length: "@ + dec_digits(
        spec_body_byte_len(body),
    ) + "\n\n"@ + body
}

/// The exact wire string for a response value.
pub open spec fn spec_serialize(response: Response) -> Seq<char> {
    spec_serialize_parts(response.status_code, response.headers_view(), response.body@)
}

fn headers_block_string(hs: &Vec<(HttpHeaderName, String)>, i: usize) -> (r: String)
    ensures
        r@ == spec_headers_block(headers_view_of(hs@), i as int),
    decreases hs@.len() - i,
{
    if i >= hs.len() {
        let r = String::new();
        proof {
            assert(r@ =~= spec_headers_block(headers_view_of(hs@), i as int));
        }
        r
    } else {
        let mut line = header_name_str(hs[i].0).to_owned();
        line.append(": ");
        line.append(hs[i].1.as_str());
        proof {
            assert(line@ =~= spec_header_line(headers_view_of(hs@)[i as int]));
        }
        if i + 1 < hs.len() {
            line.append("\n");
            let rest = headers_block_string(hs, i + 1);
            line.append(rest.as_str());
            proof {
                assert(line@ =~= spec_headers_block(headers_view_of(hs@), i as int));
            }
            line
        } else {
            line
        }
    }
}

/// Renders a response into the exact wire string: status line, header
/// lines, `content-length`, blank line, body — `\n` line endings
/// throughout. The output is a function of the response value alone, so
/// rendering the same value twice gives identical output.
pub fn response_into_http_response_string(response: Response) -> (r: String)
    ensures
        r@ == spec_serialize(response),
{
    let mut out = "HTTP/1.1 ".to_owned();
    out.append(response.status_code.code_str());
    out.append(" ");
    out.append(response.status_code.name_str());
    out.append("\n");
    let hb = headers_block_string(&response.headers, 0);
    out.append(hb.as_str());
    out.append("\ncontent-length: ");
    let body_len = to_decimal_string(response.body.as_str().len());
    out.append(body_len.as_str());
    out.append("\n\n");
    out.append(response.body.as_str());
    proof {
        assert(out@ =~= spec_serialize(response));
    }
    out
}

/// Rendering is deterministic: one response value always gives one wire
/// string, character for character and byte for byte.
pub proof fn lemma_serialize_deterministic(response: Response, r1: Seq<char>, r2: Seq<char>)
    requires
        r1 == spec_serialize(response),
        r2 == spec_serialize(response),
    ensures
        r1 == r2,
        encode_utf8(r1) == encode_utf8(r2),
{
}

/// A plain text value as a response: the HTML path, status `OK`, the text
/// as the body, `content-type: text/html`.
pub fn response_from_text(text: &str) -> (r: Response)
    ensures
        r.status_code == HttpStatusCode::OK,
        r.body@ == text@,
        r.headers_view() == seq![(HttpHeaderName::ContentType, "text/html"@)],
{
    let mut r = Response::default();
    r.set_html(text);
    proof {
        assert(r.headers_view() =~= seq![(HttpHeaderName::ContentType, "text/html"@)]);
    }
    r
}

/// A fallible outcome as a response: whichever side is populated is the
/// response, letting handlers return either branch uniformly.
pub fn response_from_outcome(outcome: Result<Response, Response>) -> (r: Response)
    ensures
        r == match outcome {
            Ok(t) => t,
            Err(e) => e,
        },
{
    match outcome {
        Ok(t) => t,
        Err(e) => e,
    }
}

impl RequestParseError {
    /// The `BadRequest` response a malformed request is answered with: an
    /// HTML body naming the error.
    pub fn to_response(self) -> (r: Response)
        ensures
            r.status_code == HttpStatusCode::BadRequest,
            r.body@ == "RequestParseError"@,
            r.headers_view() == seq![(HttpHeaderName::ContentType, "text/html"@)],
    {
        let mut r = response_from_text("RequestParseError");
        r.set_status_code(HttpStatusCode::BadRequest);
        r
    }
}

} // verus!
