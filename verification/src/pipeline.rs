//! The per-request decision pipeline. The caller performs I/O (reading a
//! schema file, calling the upstream) and feeds the outcomes back; every
//! decision between those points is made and verified here.
//!
//! One request runs: [`handle_request`], then at most one file read resumed by
//! [`on_file`], then at most one upstream call resumed by [`on_upstream`].

use vstd::prelude::*;
use vstd::utf8::encode_utf8;

use crate::config::{spec_effective, spec_find_route, spec_to_options, GlobalConfig, OpenApiOptions};
use crate::error::error_message;
use crate::json::{JsonV, JsonValue};
use crate::openapi::{
    spec_coerce, spec_is_spec_param, spec_split_path, OperationValidationPlan, ParameterLocation,
    ParameterValidatorV, ResponseKey,
};
use crate::schema::{CompiledSchema, FileOutcome};
use crate::strutil::{
    ascii_lower, contains_seq, contains_str, eq_ignore_ascii_case, is_valid_header_value,
    join_strings, join_with, split_at_seps, str_eq_ignore_case, to_lower, trim_left_char,
    trim_right_char, trim_str, trim_ws, valid_header_value,
};
use crate::trusted::{query_pairs_of, schema_errors_of};

verus! {

// ---------------------------------------------------------------------------
// Plain HTTP values
// ---------------------------------------------------------------------------
/// A response as the gateway emits it: synthesized, or the upstream's.
pub struct HttpResponse {
    pub status: u16,
    pub headers: Vec<(String, String)>,
    pub body: Vec<u8>,
}

/// A request for the caller to send upstream.
pub struct UpstreamRequest {
    pub method: String,
    pub url: String,
    pub headers: Vec<(String, String)>,
    pub body: Vec<u8>,
}

/// What came back from one upstream call.
pub enum UpstreamOutcome {
    /// A response, fully buffered.
    Response(HttpResponse),
    /// The call timed out.
    Timeout,
    /// Connection, name resolution or handshake failure.
    ConnectFailed,
    /// Any other transport failure.
    TransportFailed,
    /// The response arrived but its body could not be read.
    BodyReadFailed,
    /// The method cannot be expressed in an upstream call.
    MethodUnsupported,
}

/// Everything the pipeline carries about the one request.
pub struct RequestContext {
    pub method: String,
    pub upstream_url: String,
    pub path: String,
    pub path_and_query: String,
    pub query: Option<String>,
    pub headers: Vec<(String, String)>,
    pub body: Vec<u8>,
}

// ---------------------------------------------------------------------------
// Paths and headers
// ---------------------------------------------------------------------------
/// The path with its query string reattached verbatim, where one is present
/// and non-empty.
pub open spec fn spec_forward_path(path: Seq<char>, query: Option<Seq<char>>) -> Seq<char> {
    match query {
        Some(q) => if q.len() > 0 {
            path + seq!['?'] + q
        } else {
            path
        },
        None => path,
    }
}

/// Reattaches the query string to the path.
pub fn build_forward_path(path: &str, query: Option<&String>) -> (r: String)
    ensures
        r@ == spec_forward_path(
            path@,
            match query {
                Some(q) => Some(q@),
                None => None,
            },
        ),
{
    match query {
        Some(q) => {
            if q.as_str().unicode_len() > 0 {
                let mut r = path.to_owned();
                r.push('?');
                r.append(q.as_str());
                proof {
                    assert(path@.push('?') =~= path@ + seq!['?']);
                }
                r
            } else {
                path.to_owned()
            }
        },
        None => path.to_owned(),
    }
}

/// A hop-by-hop header the gateway never forwards.
pub open spec fn is_hop_header(name: Seq<char>) -> bool {
    eq_ignore_ascii_case(name, "host"@) || eq_ignore_ascii_case(name, "connection"@)
}

/// The headers that survive sanitization, in order.
pub open spec fn keep_headers(hs: Seq<(Seq<char>, Seq<char>)>) -> Seq<(Seq<char>, Seq<char>)>
    decreases hs.len(),
{
    if hs.len() == 0 {
        Seq::<(Seq<char>, Seq<char>)>::empty()
    } else if is_hop_header(hs[0].0) {
        keep_headers(hs.drop_first())
    } else {
        seq![hs[0]] + keep_headers(hs.drop_first())
    }
}

/// No hop-by-hop header survives sanitization.
pub proof fn law_hop_headers_never_forwarded(hs: Seq<(Seq<char>, Seq<char>)>)
    ensures
        forall|i: int|
            0 <= i < keep_headers(hs).len() ==> !is_hop_header((#[trigger] keep_headers(hs)[i]).0),
    decreases hs.len(),
{
    if hs.len() > 0 {
        law_hop_headers_never_forwarded(hs.drop_first());
        if is_hop_header(hs[0].0) {
            assert(keep_headers(hs) == keep_headers(hs.drop_first()));
        }
        if !is_hop_header(hs[0].0) {
            assert(forall|i: int|
                1 <= i < keep_headers(hs).len() ==> keep_headers(hs)[i] == keep_headers(
                    hs.drop_first(),
                )[i - 1]);
        }
    }
}

/// Copies the headers, dropping `host` and `connection` in any case.
fn sanitize_from(headers: &Vec<(String, String)>, i: usize) -> (r: Vec<(String, String)>)
    requires
        i <= headers.len(),
    ensures
        r.deep_view() == keep_headers(
            headers.deep_view().subrange(i as int, headers@.len() as int),
        ),
    decreases headers.len() - i,
{
    let ghost dv = headers.deep_view();
    let ghost rest = dv.subrange(i as int, headers@.len() as int);
    if i == headers.len() {
        let out: Vec<(String, String)> = Vec::new();
        proof {
            assert(rest =~= Seq::<(Seq<char>, Seq<char>)>::empty());
            assert(out.deep_view() =~= Seq::<(Seq<char>, Seq<char>)>::empty());
        }
        return out;
    }
    proof {
        assert(rest[0] == dv[i as int]);
        assert(rest.drop_first() =~= dv.subrange(i + 1 as int, headers@.len() as int));
        assert(dv[i as int] == (headers@[i as int].0@, headers@[i as int].1@));
    }
    let hop = str_eq_ignore_case(headers[i].0.as_str(), "host") || str_eq_ignore_case(
        headers[i].0.as_str(),
        "connection",
    );
    if hop {
        sanitize_from(headers, i + 1)
    } else {
        let mut t = sanitize_from(headers, i + 1);
        let ghost told = t.deep_view();
        t.insert(0, (headers[i].0.clone(), headers[i].1.clone()));
        proof {
            assert forall|j: int|
                0 <= j < t.deep_view().len() implies t.deep_view()[j] == (seq![rest[0]]
                + told)[j] by {
                assert(t.deep_view()[j] == (t@[j].0@, t@[j].1@));
            }
            assert(t.deep_view() =~= seq![rest[0]] + told);
        }
        t
    }
}

/// Sanitizes a request's headers for forwarding.
pub fn sanitize_headers(headers: &Vec<(String, String)>) -> (r: Vec<(String, String)>)
    ensures
        r.deep_view() == keep_headers(headers.deep_view()),
{
    let r = sanitize_from(headers, 0);
    proof {
        assert(headers.deep_view().subrange(0, headers@.len() as int) =~= headers.deep_view());
    }
    r
}

/// The headers with every entry under `name` (ignoring case) removed.
pub open spec fn remove_header(
    hs: Seq<(Seq<char>, Seq<char>)>,
    name: Seq<char>,
) -> Seq<(Seq<char>, Seq<char>)>
    decreases hs.len(),
{
    if hs.len() == 0 {
        Seq::<(Seq<char>, Seq<char>)>::empty()
    } else if eq_ignore_ascii_case(hs[0].0, name) {
        remove_header(hs.drop_first(), name)
    } else {
        seq![hs[0]] + remove_header(hs.drop_first(), name)
    }
}

/// The headers with `name` bound to exactly `value`.
pub open spec fn header_insert(
    hs: Seq<(Seq<char>, Seq<char>)>,
    name: Seq<char>,
    value: Seq<char>,
) -> Seq<(Seq<char>, Seq<char>)> {
    remove_header(hs, name).push((name, value))
}

/// Drops every entry under `name`, ignoring case, from position `i` on.
fn remove_header_from(headers: &Vec<(String, String)>, name: &str, i: usize) -> (r: Vec<
    (String, String),
>)
    requires
        i <= headers.len(),
    ensures
        r.deep_view() == remove_header(
            headers.deep_view().subrange(i as int, headers@.len() as int),
            name@,
        ),
    decreases headers.len() - i,
{
    let ghost dv = headers.deep_view();
    let ghost rest = dv.subrange(i as int, headers@.len() as int);
    if i == headers.len() {
        let out: Vec<(String, String)> = Vec::new();
        proof {
            assert(rest =~= Seq::<(Seq<char>, Seq<char>)>::empty());
            assert(out.deep_view() =~= Seq::<(Seq<char>, Seq<char>)>::empty());
        }
        return out;
    }
    proof {
        assert(rest[0] == dv[i as int]);
        assert(rest.drop_first() =~= dv.subrange(i + 1 as int, headers@.len() as int));
        assert(dv[i as int] == (headers@[i as int].0@, headers@[i as int].1@));
    }
    if str_eq_ignore_case(headers[i].0.as_str(), name) {
        remove_header_from(headers, name, i + 1)
    } else {
        let mut t = remove_header_from(headers, name, i + 1);
        let ghost told = t.deep_view();
        t.insert(0, (headers[i].0.clone(), headers[i].1.clone()));
        proof {
            assert forall|j: int|
                0 <= j < t.deep_view().len() implies t.deep_view()[j] == (seq![rest[0]]
                + told)[j] by {
                assert(t.deep_view()[j] == (t@[j].0@, t@[j].1@));
            }
            assert(t.deep_view() =~= seq![rest[0]] + told);
        }
        t
    }
}

/// Binds `name` to `value`, dropping any earlier binding.
pub fn set_header(headers: &Vec<(String, String)>, name: &str, value: &str) -> (r: Vec<
    (String, String),
>)
    ensures
        r.deep_view() == header_insert(headers.deep_view(), name@, value@),
{
    let mut r = remove_header_from(headers, name, 0);
    proof {
        assert(headers.deep_view().subrange(0, headers@.len() as int) =~= headers.deep_view());
    }
    let ghost before = r.deep_view();
    r.push((name.to_owned(), value.to_owned()));
    proof {
        assert forall|j: int|
            0 <= j < r.deep_view().len() implies r.deep_view()[j] == before.push(
            (name@, value@),
        )[j] by {
            assert(r.deep_view()[j] == (r@[j].0@, r@[j].1@));
        }
        assert(r.deep_view() =~= before.push((name@, value@)));
    }
    r
}

/// The first header under `name`, compared ignoring ASCII case.
pub open spec fn header_first(hs: Seq<(Seq<char>, Seq<char>)>, name: Seq<char>) -> Option<
    Seq<char>,
>
    decreases hs.len(),
{
    if hs.len() == 0 {
        None
    } else if eq_ignore_ascii_case(hs[0].0, name) {
        Some(hs[0].1)
    } else {
        header_first(hs.drop_first(), name)
    }
}

/// Finds the first header under `name`, ignoring case, from position `i` on.
fn find_header_from(headers: &Vec<(String, String)>, name: &str, i: usize) -> (r: Option<String>)
    requires
        i <= headers.len(),
    ensures
        match r {
            Some(v) => header_first(
                headers.deep_view().subrange(i as int, headers@.len() as int),
                name@,
            ) == Some(v@),
            None => header_first(
                headers.deep_view().subrange(i as int, headers@.len() as int),
                name@,
            ) is None,
        },
    decreases headers.len() - i,
{
    let ghost dv = headers.deep_view();
    let ghost rest = dv.subrange(i as int, headers@.len() as int);
    if i == headers.len() {
        proof {
            assert(rest =~= Seq::<(Seq<char>, Seq<char>)>::empty());
        }
        return None;
    }
    proof {
        assert(rest[0] == dv[i as int]);
        assert(rest.drop_first() =~= dv.subrange(i + 1 as int, headers@.len() as int));
        assert(dv[i as int] == (headers@[i as int].0@, headers@[i as int].1@));
    }
    if str_eq_ignore_case(headers[i].0.as_str(), name) {
        Some(headers[i].1.clone())
    } else {
        find_header_from(headers, name, i + 1)
    }
}

/// Finds the first header under `name`, ignoring ASCII case.
pub fn find_header(headers: &Vec<(String, String)>, name: &str) -> (r: Option<String>)
    ensures
        match r {
            Some(v) => header_first(headers.deep_view(), name@) == Some(v@),
            None => header_first(headers.deep_view(), name@) is None,
        },
{
    let r = find_header_from(headers, name, 0);
    proof {
        assert(headers.deep_view().subrange(0, headers@.len() as int) =~= headers.deep_view());
    }
    r
}

// ---------------------------------------------------------------------------
// Synthesized response bodies
// ---------------------------------------------------------------------------
pub open spec fn hex_digit(v: int) -> char {
    if v < 10 {
        (('0' as u32) + v as u32) as char
    } else {
        (('a' as u32) + (v - 10) as u32) as char
    }
}

/// One character of a JSON string, escaped as the gateway renders error
/// bodies: quote and backslash escaped, control characters as their short
/// escapes or `\u00xx`.
pub open spec fn escape_char(c: char) -> Seq<char> {
    if c == '"' {
        seq!['\\', '"']
    } else if c == '\\' {
        seq!['\\', '\\']
    } else if c == '\u{8}' {
        seq!['\\', 'b']
    } else if c == '\u{C}' {
        seq!['\\', 'f']
    } else if c == '\n' {
        seq!['\\', 'n']
    } else if c == '\r' {
        seq!['\\', 'r']
    } else if c == '\t' {
        seq!['\\', 't']
    } else if (c as u32) < 0x20 {
        seq!['\\', 'u', '0', '0', hex_digit(c as int / 16), hex_digit(c as int % 16)]
    } else {
        seq![c]
    }
}

pub open spec fn escape_string(s: Seq<char>) -> Seq<char>
    decreases s.len(),
{
    if s.len() == 0 {
        Seq::<char>::empty()
    } else {
        escape_char(s[0]) + escape_string(s.drop_first())
    }
}

/// The JSON body `{"error": msg}` as text, with the message escaped.
pub open spec fn json_error_text(msg: Seq<char>) -> Seq<char> {
    "{\"error\":\""@ + escape_string(msg) + "\"}"@
}

fn escape_char_exec(c: char) -> (r: Vec<char>)
    ensures
        r@ == escape_char(c),
{
    let mut out: Vec<char> = Vec::new();
    if c == '"' {
        out.push('\\');
        out.push('"');
        proof {
            assert(out@ =~= seq!['\\', '"']);
        }
    } else if c == '\\' {
        out.push('\\');
        out.push('\\');
        proof {
            assert(out@ =~= seq!['\\', '\\']);
        }
    } else if c == '\u{8}' {
        out.push('\\');
        out.push('b');
        proof {
            assert(out@ =~= seq!['\\', 'b']);
        }
    } else if c == '\u{C}' {
        out.push('\\');
        out.push('f');
        proof {
            assert(out@ =~= seq!['\\', 'f']);
        }
    } else if c == '\n' {
        out.push('\\');
        out.push('n');
        proof {
            assert(out@ =~= seq!['\\', 'n']);
        }
    } else if c == '\r' {
        out.push('\\');
        out.push('r');
        proof {
            assert(out@ =~= seq!['\\', 'r']);
        }
    } else if c == '\t' {
        out.push('\\');
        out.push('t');
        proof {
            assert(out@ =~= seq!['\\', 't']);
        }
    } else if (c as u32) < 0x20 {
        out.push('\\');
        out.push('u');
        out.push('0');
        out.push('0');
        let hi: u32 = (c as u32) / 16;
        let lo: u32 = (c as u32) % 16;
        let hic = if hi < 10 {
            match char::from_u32(('0' as u32) + hi) {
                Some(x) => x,
                None => {
                    proof {
                        assert(false);
                    }
                    '0'
                },
            }
        } else {
            match char::from_u32(('a' as u32) + (hi - 10)) {
                Some(x) => x,
                None => {
                    proof {
                        assert(false);
                    }
                    '0'
                },
            }
        };
        let loc = if lo < 10 {
            match char::from_u32(('0' as u32) + lo) {
                Some(x) => x,
                None => {
                    proof {
                        assert(false);
                    }
                    '0'
                },
            }
        } else {
            match char::from_u32(('a' as u32) + (lo - 10)) {
                Some(x) => x,
                None => {
                    proof {
                        assert(false);
                    }
                    '0'
                },
            }
        };
        out.push(hic);
        out.push(loc);
        proof {
            assert(out@ =~= seq![
                '\\',
                'u',
                '0',
                '0',
                hex_digit(c as int / 16),
                hex_digit(c as int % 16),
            ]);
        }
    } else {
        out.push(c);
        proof {
            assert(out@ =~= seq![c]);
        }
    }
    out
}

/// Renders the JSON error body `{"error": msg}`.
pub fn render_json_error(msg: &str) -> (r: String)
    ensures
        r@ == json_error_text(msg@),
{
    let mut out = "{\"error\":\"".to_owned();
    let n: usize = msg.unicode_len();
    let mut i: usize = 0;
    while i < n
        invariant
            i <= n,
            n == msg@.len(),
            out@ == "{\"error\":\""@ + escape_string(msg@.subrange(0, i as int)),
        decreases n - i,
    {
        let c = msg.get_char(i);
        let piece = escape_char_exec(c);
        let mut k: usize = 0;
        while k < piece.len()
            invariant
                k <= piece.len(),
                piece@ == escape_char(msg@[i as int]),
                out@ == "{\"error\":\""@ + escape_string(msg@.subrange(0, i as int))
                    + piece@.subrange(0, k as int),
            decreases piece.len() - k,
        {
            out.push(piece[k]);
            proof {
                assert(piece@.subrange(0, k + 1 as int) =~= piece@.subrange(0, k as int).push(
                    piece@[k as int],
                ));
                assert(("{\"error\":\""@ + escape_string(msg@.subrange(0, i as int))
                    + piece@.subrange(0, k as int)).push(piece@[k as int]) =~= "{\"error\":\""@
                    + escape_string(msg@.subrange(0, i as int)) + piece@.subrange(0, k + 1 as int));
            }
            k = k + 1;
        }
        proof {
            let pre = msg@.subrange(0, i as int);
            let pre1 = msg@.subrange(0, i + 1 as int);
            lemma_escape_push(pre, msg@[i as int]);
            assert(pre.push(msg@[i as int]) =~= pre1);
            assert(piece@.subrange(0, piece@.len() as int) =~= piece@);
            assert(("{\"error\":\""@ + escape_string(pre)) + escape_char(msg@[i as int])
                =~= "{\"error\":\""@ + (escape_string(pre) + escape_char(msg@[i as int])));
        }
        i = i + 1;
    }
    out.append("\"}");
    proof {
        assert(msg@.subrange(0, n as int) =~= msg@);
        assert(("{\"error\":\""@ + escape_string(msg@)) + "\"}"@ =~= json_error_text(msg@));
    }
    out
}

proof fn lemma_escape_push(s: Seq<char>, c: char)
    ensures
        escape_string(s.push(c)) =~= escape_string(s) + escape_char(c),
    decreases s.len(),
{
    assert(escape_string(s.push(c)) == escape_char(s.push(c)[0]) + escape_string(
        s.push(c).drop_first(),
    ));
    if s.len() == 0 {
        assert(s.push(c).drop_first() =~= Seq::<char>::empty());
        assert(s.push(c)[0] == c);
        assert(escape_string(s) == Seq::<char>::empty());
        assert(escape_string(Seq::<char>::empty()) == Seq::<char>::empty());
    } else {
        lemma_escape_push(s.drop_first(), c);
        assert(s.push(c).drop_first() =~= s.drop_first().push(c));
        assert(s.push(c)[0] == s[0]);
        assert(escape_string(s) == escape_char(s[0]) + escape_string(s.drop_first()));
        assert(escape_char(s[0]) + (escape_string(s.drop_first()) + escape_char(c)) =~= (
        escape_char(s[0]) + escape_string(s.drop_first())) + escape_char(c));
    }
}

/// A plain-text response the gateway synthesizes.
pub open spec fn is_text_response(r: HttpResponse, status: u16, text: Seq<char>) -> bool {
    r.status == status && r.headers@.len() == 0 && r.body@ == encode_utf8(text)
}

/// A JSON `{"error": msg}` response the gateway synthesizes.
pub open spec fn is_json_error_response(r: HttpResponse, status: u16, msg: Seq<char>) -> bool {
    r.status == status && r.headers@.len() == 0 && r.body@ == encode_utf8(json_error_text(msg))
}

/// Builds a plain-text response.
pub fn text_response(status: u16, text: &str) -> (r: HttpResponse)
    ensures
        is_text_response(r, status, text@),
{
    HttpResponse { status, headers: Vec::new(), body: text.as_bytes_vec() }
}

/// Builds a JSON `{"error": msg}` response.
pub fn json_error_response(status: u16, msg: &str) -> (r: HttpResponse)
    ensures
        is_json_error_response(r, status, msg@),
{
    let text = render_json_error(msg);
    HttpResponse { status, headers: Vec::new(), body: text.as_str().as_bytes_vec() }
}

/// The response when the request body cannot be read at all.
pub fn body_read_failure_response() -> (r: HttpResponse)
    ensures
        is_text_response(r, 400, "Failed to read request body"@),
{
    text_response(400, "Failed to read request body")
}

// ---------------------------------------------------------------------------
// The upstream call
// ---------------------------------------------------------------------------
/// The upstream base with one trailing slash stripped.
pub open spec fn strip_one_trailing_slash(u: Seq<char>) -> Seq<char> {
    if u.len() > 0 && u.last() == '/' {
        u.drop_last()
    } else {
        u
    }
}

/// The full upstream URL: the stripped base, then the path and query verbatim.
pub open spec fn upstream_url_of(base: Seq<char>, path_and_query: Seq<char>) -> Seq<char> {
    strip_one_trailing_slash(base) + path_and_query
}

/// The one upstream request a context and a header set determine.
pub open spec fn is_upstream_request(
    r: UpstreamRequest,
    method: Seq<char>,
    base: Seq<char>,
    path_and_query: Seq<char>,
    headers: Seq<(Seq<char>, Seq<char>)>,
    body: Seq<u8>,
) -> bool {
    &&& r.method@ == method
    &&& r.url@ == upstream_url_of(base, path_and_query)
    &&& r.headers.deep_view() == keep_headers(headers)
    &&& r.body@ == body
}

/// Builds the upstream call: URL glued from the stripped base and the path,
/// headers sanitized, body carried as it is.
pub fn build_upstream_request(
    method: &str,
    base: &str,
    path_and_query: &str,
    headers: &Vec<(String, String)>,
    body: Vec<u8>,
) -> (r: UpstreamRequest)
    ensures
        is_upstream_request(r, method@, base@, path_and_query@, headers.deep_view(), body@),
{
    let n = base.unicode_len();
    let stripped = if n > 0 && base.get_char(n - 1) == '/' {
        let s = base.substring_char(0, n - 1);
        proof {
            assert(base@.subrange(0, n - 1) =~= base@.drop_last());
        }
        s.to_owned()
    } else {
        base.to_owned()
    };
    let mut url = stripped;
    url.append(path_and_query);
    UpstreamRequest {
        method: method.to_owned(),
        url,
        headers: sanitize_headers(headers),
        body,
    }
}

/// What each upstream outcome becomes on the wire back to the client: a
/// passthrough for a response whose status the gateway can carry, a fixed
/// gateway status otherwise.
pub open spec fn upstream_outcome_ok(o: UpstreamOutcome, r: HttpResponse) -> bool {
    match o {
        UpstreamOutcome::Response(resp) => if 100 <= resp.status <= 999 {
            r == resp
        } else {
            r.status == 502 && r.headers@ == resp.headers@ && r.body@ == resp.body@
        },
        UpstreamOutcome::Timeout => is_text_response(r, 504, "Upstream request timeout"@),
        UpstreamOutcome::ConnectFailed => is_text_response(
            r,
            502,
            "Failed to connect to upstream"@,
        ),
        UpstreamOutcome::TransportFailed => is_text_response(r, 502, "Upstream request failed"@),
        UpstreamOutcome::BodyReadFailed => is_text_response(
            r,
            502,
            "Failed to read upstream response body"@,
        ),
        UpstreamOutcome::MethodUnsupported => is_text_response(r, 405, "Unsupported HTTP method"@),
    }
}

/// Translates an upstream outcome into the gateway's response.
pub fn upstream_to_response(outcome: UpstreamOutcome) -> (r: HttpResponse)
    ensures
        upstream_outcome_ok(outcome, r),
{
    match outcome {
        UpstreamOutcome::Response(resp) => {
            if 100 <= resp.status && resp.status <= 999 {
                resp
            } else {
                HttpResponse { status: 502, headers: resp.headers, body: resp.body }
            }
        },
        UpstreamOutcome::Timeout => text_response(504, "Upstream request timeout"),
        UpstreamOutcome::ConnectFailed => text_response(502, "Failed to connect to upstream"),
        UpstreamOutcome::TransportFailed => text_response(502, "Upstream request failed"),
        UpstreamOutcome::BodyReadFailed => text_response(
            502,
            "Failed to read upstream response body",
        ),
        UpstreamOutcome::MethodUnsupported => text_response(405, "Unsupported HTTP method"),
    }
}

// ---------------------------------------------------------------------------
// The request context's view
// ---------------------------------------------------------------------------
pub struct CtxV {
    pub method: Seq<char>,
    pub upstream: Seq<char>,
    pub path: Seq<char>,
    pub path_and_query: Seq<char>,
    pub query: Option<Seq<char>>,
    pub headers: Seq<(Seq<char>, Seq<char>)>,
    pub body: Seq<u8>,
}

impl View for RequestContext {
    type V = CtxV;

    open spec fn view(&self) -> CtxV {
        CtxV {
            method: self.method@,
            upstream: self.upstream_url@,
            path: self.path@,
            path_and_query: self.path_and_query@,
            query: match self.query {
                Some(q) => Some(q@),
                None => None,
            },
            headers: self.headers.deep_view(),
            body: self.body@,
        }
    }
}

// ---------------------------------------------------------------------------
// The per-request state machine
// ---------------------------------------------------------------------------
/// What a file read will resume.
pub enum FileResume {
    /// A JSON-Schema route: validate the parsed body once the schema is here.
    JsonSchema { schema_path: String, body_json: JsonValue },
    /// An OpenAPI route: load the operation once the spec is here.
    OpenApi { opts: OpenApiOptions },
}

/// A request waiting for one file read.
pub struct FileTask {
    pub ctx: RequestContext,
    pub policy: GlobalConfig,
    pub resume: FileResume,
}

/// What an upstream response will resume.
pub enum UpstreamResume {
    /// Hand the translated outcome straight back.
    Bare,
    /// Validate the upstream response against the plan first.
    OpenApiResponse { plan: OperationValidationPlan },
}

/// A request waiting for its one upstream call.
pub struct UpstreamTask {
    pub policy: GlobalConfig,
    pub resume: UpstreamResume,
}

/// What the pipeline asks its caller to do next.
pub enum Step {
    /// Emit this response; the request is finished.
    Done(HttpResponse),
    /// Read this file and resume with [`on_file`].
    ReadFile { path: String, task: FileTask },
    /// Send this request upstream and resume with [`on_upstream`].
    CallUpstream { request: UpstreamRequest, task: UpstreamTask },
}

/// The gateway's shared state: the route table and both caches.
pub struct AppState {
    pub config: crate::config::Config,
    pub schema_cache: crate::schema::SchemaCache,
    pub openapi_cache: crate::openapi::OpenApiCache,
}

/// The headers of a validated request: stamped under the policy, untouched
/// otherwise.
pub open spec fn stamped_headers(
    hs: Seq<(Seq<char>, Seq<char>)>,
    policy: GlobalConfig,
    stamp: Seq<char>,
) -> Seq<(Seq<char>, Seq<char>)> {
    if policy.add_validation_header {
        header_insert(hs, "X-Schema-Validated"@, stamp)
    } else {
        hs
    }
}

/// A bare forward: the sanitized request sent to the upstream with the given
/// headers and the path-and-query, handed back as-is.
pub open spec fn is_bare_forward(
    r: Step,
    cv: CtxV,
    policy: GlobalConfig,
    hs: Seq<(Seq<char>, Seq<char>)>,
) -> bool {
    &&& r matches Step::CallUpstream { request, task }
    &&& is_upstream_request(request, cv.method, cv.upstream, cv.path_and_query, hs, cv.body)
    &&& task.policy == policy
    &&& task.resume is Bare
}

/// A validated OpenAPI forward: stamped headers, and the response will be
/// validated against the plan.
pub open spec fn is_openapi_forward(r: Step, cv: CtxV, policy: GlobalConfig, pv: crate::openapi::PlanV) -> bool {
    &&& r matches Step::CallUpstream { request, task }
    &&& is_upstream_request(
        request,
        cv.method,
        cv.upstream,
        cv.path_and_query,
        stamped_headers(cv.headers, policy, "openapi"@),
        cv.body,
    )
    &&& task.policy == policy
    &&& task.resume matches UpstreamResume::OpenApiResponse { plan } && plan@ == pv
}

/// The error policy's verdict on `(msg, status)`: forward to the upstream over
/// the bare path, query string and all (the error header attached where the
/// policy and the message allow), or reject with the JSON error body and no
/// upstream call at all.
pub open spec fn is_error_policy_step(
    r: Step,
    cv: CtxV,
    policy: GlobalConfig,
    msg: Seq<char>,
    status: u16,
) -> bool {
    if policy.forward_on_error {
        &&& r matches Step::CallUpstream { request, task }
        &&& is_upstream_request(
            request,
            cv.method,
            cv.upstream,
            cv.path_and_query,
            if policy.add_error_header && valid_header_value(msg) {
                header_insert(cv.headers, "X-Gateway-Error"@, msg)
            } else {
                cv.headers
            },
            cv.body,
        )
        &&& task.policy == policy
        &&& task.resume is Bare
    } else {
        r matches Step::Done(resp) && is_json_error_response(resp, status, msg)
    }
}

/// Applies the error policy: forward with the error header, or reject with the
/// status and a JSON error body. Exactly one upstream call happens when the
/// policy forwards, and none when it rejects.
pub fn handle_error(ctx: RequestContext, policy: GlobalConfig, msg: &str, status: u16) -> (r: Step)
    ensures
        is_error_policy_step(r, ctx@, policy, msg@, status),
{
    if policy.forward_on_error {
        let headers = if policy.add_error_header && is_valid_header_value(msg) {
            set_header(&ctx.headers, "X-Gateway-Error", msg)
        } else {
            ctx.headers
        };
        let request = build_upstream_request(
            ctx.method.as_str(),
            ctx.upstream_url.as_str(),
            ctx.path_and_query.as_str(),
            &headers,
            ctx.body,
        );
        Step::CallUpstream {
            request,
            task: UpstreamTask { policy, resume: UpstreamResume::Bare },
        }
    } else {
        Step::Done(json_error_response(status, msg))
    }
}

// ---------------------------------------------------------------------------
// Parameter lookup maps
// ---------------------------------------------------------------------------
/// The first value under an exactly-equal key.
pub open spec fn map_first(entries: Seq<(Seq<char>, Seq<char>)>, key: Seq<char>) -> Option<
    Seq<char>,
>
    decreases entries.len(),
{
    if entries.len() == 0 {
        None
    } else if entries[0].0 == key {
        Some(entries[0].1)
    } else {
        map_first(entries.drop_first(), key)
    }
}

proof fn lemma_map_first_at(entries: Seq<(Seq<char>, Seq<char>)>, key: Seq<char>, at: int)
    requires
        0 <= at < entries.len(),
        entries[at].0 == key,
        forall|j: int| 0 <= j < at ==> (#[trigger] entries[j]).0 != key,
    ensures
        map_first(entries, key) == Some(entries[at].1),
    decreases at,
{
    if at > 0 {
        lemma_map_first_at(entries.drop_first(), key, at - 1);
    }
}

proof fn lemma_map_first_none(entries: Seq<(Seq<char>, Seq<char>)>, key: Seq<char>)
    requires
        forall|j: int| 0 <= j < entries.len() ==> (#[trigger] entries[j]).0 != key,
    ensures
        map_first(entries, key) is None,
    decreases entries.len(),
{
    if entries.len() > 0 {
        lemma_map_first_none(entries.drop_first(), key);
    }
}

/// Finds the first pair under an exactly-equal key.
fn map_first_exec(entries: &Vec<(String, String)>, key: &str) -> (r: Option<String>)
    ensures
        match r {
            Some(v) => map_first(entries.deep_view(), key@) == Some(v@),
            None => map_first(entries.deep_view(), key@) is None,
        },
{
    let ghost dv = entries.deep_view();
    let key_owned = key.to_owned();
    let mut i: usize = 0;
    while i < entries.len()
        invariant
            i <= entries.len(),
            key_owned@ == key@,
            dv == entries.deep_view(),
            dv.len() == entries@.len(),
            forall|j: int| 0 <= j < i ==> (#[trigger] dv[j]).0 != key@,
        decreases entries.len() - i,
    {
        proof {
            assert(dv[i as int] == (entries@[i as int].0@, entries@[i as int].1@));
        }
        if entries[i].0 == key_owned {
            proof {
                lemma_map_first_at(dv, key@, i as int);
            }
            return Some(entries[i].1.clone());
        }
        i = i + 1;
    }
    proof {
        lemma_map_first_none(dv, key@);
    }
    None
}

/// Replaces the value under an exactly-equal key, or appends the pair.
pub open spec fn pairs_upsert(
    acc: Seq<(Seq<char>, Seq<char>)>,
    key: Seq<char>,
    value: Seq<char>,
) -> Seq<(Seq<char>, Seq<char>)>
    decreases acc.len(),
{
    if acc.len() == 0 {
        seq![(key, value)]
    } else if acc[0].0 == key {
        seq![(key, value)] + acc.drop_first()
    } else {
        seq![acc[0]] + pairs_upsert(acc.drop_first(), key, value)
    }
}

proof fn lemma_pairs_upsert_at(
    acc: Seq<(Seq<char>, Seq<char>)>,
    key: Seq<char>,
    value: Seq<char>,
    at: int,
)
    requires
        0 <= at < acc.len(),
        acc[at].0 == key,
        forall|j: int| 0 <= j < at ==> (#[trigger] acc[j]).0 != key,
    ensures
        pairs_upsert(acc, key, value) =~= acc.update(at, (key, value)),
    decreases at,
{
    if at > 0 {
        lemma_pairs_upsert_at(acc.drop_first(), key, value, at - 1);
        assert(acc.drop_first().update(at - 1, (key, value)) =~= acc.update(
            at,
            (key, value),
        ).drop_first());
    }
}

proof fn lemma_pairs_upsert_none(acc: Seq<(Seq<char>, Seq<char>)>, key: Seq<char>, value: Seq<char>)
    requires
        forall|j: int| 0 <= j < acc.len() ==> (#[trigger] acc[j]).0 != key,
    ensures
        pairs_upsert(acc, key, value) =~= acc.push((key, value)),
    decreases acc.len(),
{
    if acc.len() > 0 {
        lemma_pairs_upsert_none(acc.drop_first(), key, value);
        assert(acc.drop_first().push((key, value)) =~= acc.push((key, value)).drop_first());
    }
}

/// Binds a key, replacing an earlier exactly-equal binding in place.
fn pairs_upsert_exec(acc: &mut Vec<(String, String)>, key: String, value: String)
    ensures
        final(acc).deep_view() == pairs_upsert(old(acc).deep_view(), key@, value@),
{
    let ghost dv = acc.deep_view();
    let mut i: usize = 0;
    while i < acc.len()
        invariant
            i <= acc.len(),
            dv == acc.deep_view(),
            dv == old(acc).deep_view(),
            dv.len() == acc@.len(),
            forall|j: int| 0 <= j < i ==> (#[trigger] dv[j]).0 != key@,
        decreases acc.len() - i,
    {
        proof {
            assert(dv[i as int] == (acc@[i as int].0@, acc@[i as int].1@));
        }
        if acc[i].0 == key {
            proof {
                lemma_pairs_upsert_at(dv, key@, value@, i as int);
            }
            let ghost before = acc@;
            vstd::pervasive::VecAdditionalExecFns::set(acc, i, (key, value));
            proof {
                assert forall|j: int|
                    0 <= j < acc.deep_view().len() implies acc.deep_view()[j] == dv.update(
                    i as int,
                    (key@, value@),
                )[j] by {
                    assert(acc.deep_view()[j] == (acc@[j].0@, acc@[j].1@));
                    if j != i {
                        assert(acc@[j] == before[j]);
                        assert(dv[j] == (before[j].0@, before[j].1@));
                    }
                }
                assert(acc.deep_view() =~= dv.update(i as int, (key@, value@)));
            }
            return ;
        }
        i = i + 1;
    }
    proof {
        lemma_pairs_upsert_none(dv, key@, value@);
    }
    let ghost before = acc@;
    let ghost kv = key@;
    let ghost vv = value@;
    acc.push((key, value));
    proof {
        assert forall|j: int|
            0 <= j < acc.deep_view().len() implies acc.deep_view()[j] == dv.push((kv, vv))[j] by {
            assert(acc.deep_view()[j] == (acc@[j].0@, acc@[j].1@));
            if j < before.len() {
                assert(acc@[j] == before[j]);
                assert(dv[j] == (before[j].0@, before[j].1@));
            }
        }
        assert(acc.deep_view() =~= dv.push((kv, vv)));
    }
}

// ---------------------------------------------------------------------------
// Path parameters
// ---------------------------------------------------------------------------
/// The name inside a template parameter segment: every leading brace and every
/// trailing brace stripped.
pub open spec fn param_name_of(seg: Seq<char>) -> Seq<char> {
    trim_right_char(trim_left_char(seg, '{'), '}')
}

/// Walks template and actual segments together, binding each `{name}` to its
/// actual segment, later bindings replacing earlier ones; a literal mismatch
/// is no match at all.
pub open spec fn walk_path_params(
    t: Seq<Seq<char>>,
    a: Seq<Seq<char>>,
    acc: Seq<(Seq<char>, Seq<char>)>,
) -> Option<Seq<(Seq<char>, Seq<char>)>>
    recommends
        t.len() == a.len(),
    decreases t.len(),
{
    if t.len() == 0 {
        Some(acc)
    } else if spec_is_spec_param(t[0]) {
        walk_path_params(
            t.drop_first(),
            a.drop_first(),
            pairs_upsert(acc, param_name_of(t[0]), a[0]),
        )
    } else if t[0] == a[0] {
        walk_path_params(t.drop_first(), a.drop_first(), acc)
    } else {
        None
    }
}

/// The path-parameter bindings a request path takes under a template, or
/// nothing where the path no longer matches.
pub open spec fn spec_extract_path_params(path: Seq<char>, template: Seq<char>) -> Option<
    Seq<(Seq<char>, Seq<char>)>,
> {
    let a = spec_split_path(path);
    let t = spec_split_path(template);
    if a.len() != t.len() {
        None
    } else {
        walk_path_params(t, a, Seq::<(Seq<char>, Seq<char>)>::empty())
    }
}

/// Extracts the path parameters of a request path under a template.
pub fn extract_path_params(path: &str, template: &str) -> (r: Option<Vec<(String, String)>>)
    ensures
        match r {
            Some(m) => spec_extract_path_params(path@, template@) == Some(m.deep_view()),
            None => spec_extract_path_params(path@, template@) is None,
        },
{
    let a = crate::openapi::split_path(path);
    let t = crate::openapi::split_path(template);
    if a.len() != t.len() {
        return None;
    }
    let mut acc: Vec<(String, String)> = Vec::new();
    proof {
        assert(acc.deep_view() =~= Seq::<(Seq<char>, Seq<char>)>::empty());
        assert(t.deep_view().subrange(0, t@.len() as int) =~= t.deep_view());
        assert(a.deep_view().subrange(0, a@.len() as int) =~= a.deep_view());
    }
    let mut i: usize = 0;
    while i < t.len()
        invariant
            i <= t.len(),
            t.len() == a.len(),
            t.deep_view() == spec_split_path(template@),
            a.deep_view() == spec_split_path(path@),
            t.deep_view().len() == t@.len(),
            a.deep_view().len() == a@.len(),
            walk_path_params(
                t.deep_view(),
                a.deep_view(),
                Seq::<(Seq<char>, Seq<char>)>::empty(),
            ) == walk_path_params(
                t.deep_view().subrange(i as int, t@.len() as int),
                a.deep_view().subrange(i as int, a@.len() as int),
                acc.deep_view(),
            ),
        decreases t.len() - i,
    {
        let ghost tr = t.deep_view().subrange(i as int, t@.len() as int);
        let ghost ar = a.deep_view().subrange(i as int, a@.len() as int);
        proof {
            assert(tr[0] == t.deep_view()[i as int]);
            assert(ar[0] == a.deep_view()[i as int]);
            assert(tr.drop_first() =~= t.deep_view().subrange(i + 1 as int, t@.len() as int));
            assert(ar.drop_first() =~= a.deep_view().subrange(i + 1 as int, a@.len() as int));
            assert(t.deep_view()[i as int] == t@[i as int]@);
            assert(a.deep_view()[i as int] == a@[i as int]@);
        }
        if crate::openapi::is_spec_param(t[i].as_str()) {
            let stripped_l = trim_matches_left_brace(t[i].as_str());
            let name = trim_matches_right_brace(stripped_l.as_str());
            pairs_upsert_exec(&mut acc, name, a[i].clone());
        } else {
            if !(t[i] == a[i]) {
                return None;
            }
        }
        i = i + 1;
    }
    proof {
        assert(t.deep_view().subrange(t@.len() as int, t@.len() as int) =~= Seq::<
            Seq<char>,
        >::empty());
        assert(a.deep_view().subrange(a@.len() as int, a@.len() as int) =~= Seq::<
            Seq<char>,
        >::empty());
    }
    Some(acc)
}

/// Strips every leading `{`.
fn trim_matches_left_brace(s: &str) -> (r: String)
    ensures
        r@ == trim_left_char(s@, '{'),
{
    let n: usize = s.unicode_len();
    let mut start: usize = 0;
    while start < n && s.get_char(start) == '{'
        invariant
            start <= n,
            n == s@.len(),
            forall|j: int| 0 <= j < start ==> s@[j] == '{',
        decreases n - start,
    {
        start = start + 1;
    }
    let r = s.substring_char(start, n).to_owned();
    proof {
        lemma_trim_left_char_range(s@, '{', start as int);
    }
    r
}

/// Strips every trailing `}`.
fn trim_matches_right_brace(s: &str) -> (r: String)
    ensures
        r@ == trim_right_char(s@, '}'),
{
    let n: usize = s.unicode_len();
    let mut end: usize = n;
    while end > 0 && s.get_char(end - 1) == '}'
        invariant
            end <= n,
            n == s@.len(),
            forall|j: int| end <= j < n ==> s@[j] == '}',
        decreases end,
    {
        end = end - 1;
    }
    let r = s.substring_char(0, end).to_owned();
    proof {
        lemma_trim_right_char_range(s@, '}', end as int);
    }
    r
}

proof fn lemma_trim_left_char_range(s: Seq<char>, c: char, start: int)
    requires
        0 <= start <= s.len(),
        forall|j: int| 0 <= j < start ==> s[j] == c,
        start == s.len() || s[start] != c,
    ensures
        trim_left_char(s, c) == s.subrange(start, s.len() as int),
    decreases start,
{
    if start > 0 {
        assert(s.len() > 0 && s[0] == c);
        assert(s.drop_first() =~= s.subrange(1, s.len() as int));
        lemma_trim_left_char_range(s.subrange(1, s.len() as int), c, start - 1);
        assert(s.subrange(1, s.len() as int).subrange(start - 1, s.len() - 1) =~= s.subrange(
            start,
            s.len() as int,
        ));
    } else {
        assert(s.subrange(0, s.len() as int) =~= s);
    }
}

proof fn lemma_trim_right_char_range(s: Seq<char>, c: char, end: int)
    requires
        0 <= end <= s.len(),
        forall|j: int| end <= j < s.len() ==> s[j] == c,
        end == 0 || s[end - 1] != c,
    ensures
        trim_right_char(s, c) == s.subrange(0, end),
    decreases s.len() - end,
{
    if end < s.len() {
        assert(s.len() > 0 && s.last() == c);
        assert(s.drop_last() =~= s.subrange(0, s.len() - 1));
        lemma_trim_right_char_range(s.subrange(0, s.len() - 1), c, end);
        assert(s.subrange(0, s.len() - 1).subrange(0, end) =~= s.subrange(0, end));
    } else {
        assert(s.subrange(0, s.len() as int) =~= s);
        if s.len() > 0 {
            assert(s[end - 1] != c);
        }
    }
}

// ---------------------------------------------------------------------------
// Cookies
// ---------------------------------------------------------------------------
/// The position of the first occurrence of `c`.
pub open spec fn first_index_of(s: Seq<char>, c: char) -> Option<int>
    decreases s.len(),
{
    if s.len() == 0 {
        None
    } else if s[0] == c {
        Some(0)
    } else {
        match first_index_of(s.drop_first(), c) {
            Some(k) => Some(k + 1),
            None => None,
        }
    }
}

proof fn lemma_first_index_at(s: Seq<char>, c: char, at: int)
    requires
        0 <= at < s.len(),
        s[at] == c,
        forall|j: int| 0 <= j < at ==> s[j] != c,
    ensures
        first_index_of(s, c) == Some(at),
    decreases at,
{
    if at > 0 {
        lemma_first_index_at(s.drop_first(), c, at - 1);
    }
}

proof fn lemma_first_index_bounds(s: Seq<char>, c: char)
    ensures
        first_index_of(s, c) matches Some(k) ==> 0 <= k < s.len() && s[k] == c,
    decreases s.len(),
{
    if s.len() > 0 && s[0] != c {
        lemma_first_index_bounds(s.drop_first(), c);
    }
}

proof fn lemma_first_index_none(s: Seq<char>, c: char)
    requires
        forall|j: int| 0 <= j < s.len() ==> s[j] != c,
    ensures
        first_index_of(s, c) is None,
    decreases s.len(),
{
    if s.len() > 0 {
        lemma_first_index_none(s.drop_first(), c);
    }
}

fn find_char(s: &str, c: char) -> (r: Option<usize>)
    ensures
        match r {
            Some(k) => first_index_of(s@, c) == Some(k as int),
            None => first_index_of(s@, c) is None,
        },
{
    let n: usize = s.unicode_len();
    let mut i: usize = 0;
    while i < n
        invariant
            i <= n,
            n == s@.len(),
            forall|j: int| 0 <= j < i ==> s@[j] != c,
        decreases n - i,
    {
        if s.get_char(i) == c {
            proof {
                lemma_first_index_at(s@, c, i as int);
            }
            return Some(i);
        }
        i = i + 1;
    }
    proof {
        lemma_first_index_none(s@, c);
    }
    None
}

/// One `;`-separated cookie piece: trimmed, split at its first `=`, both
/// halves trimmed; a piece without `=` binds nothing.
pub open spec fn cookie_pair(part: Seq<char>) -> Option<(Seq<char>, Seq<char>)> {
    let tp = trim_ws(part);
    match first_index_of(tp, '=') {
        None => None,
        Some(k) => Some(
            (trim_ws(tp.subrange(0, k)), trim_ws(tp.subrange(k + 1, tp.len() as int))),
        ),
    }
}

/// Folds cookie pieces into a name-to-value map, later pieces overriding.
pub open spec fn cookies_fold(
    parts: Seq<Seq<char>>,
    acc: Seq<(Seq<char>, Seq<char>)>,
) -> Seq<(Seq<char>, Seq<char>)>
    decreases parts.len(),
{
    if parts.len() == 0 {
        acc
    } else {
        match cookie_pair(parts[0]) {
            None => cookies_fold(parts.drop_first(), acc),
            Some(p) => cookies_fold(parts.drop_first(), pairs_upsert(acc, p.0, p.1)),
        }
    }
}

/// The cookie bindings of a request: the first `Cookie` header split on `;`.
pub open spec fn spec_cookies(headers: Seq<(Seq<char>, Seq<char>)>) -> Seq<
    (Seq<char>, Seq<char>),
> {
    match header_first(headers, "cookie"@) {
        Some(cs) => cookies_fold(split_at_seps(cs, ';'), Seq::<(Seq<char>, Seq<char>)>::empty()),
        None => Seq::<(Seq<char>, Seq<char>)>::empty(),
    }
}

/// Parses the request's `Cookie` header into a name-to-value map.
pub fn parse_cookie_header(headers: &Vec<(String, String)>) -> (r: Vec<(String, String)>)
    ensures
        r.deep_view() == spec_cookies(headers.deep_view()),
{
    let mut acc: Vec<(String, String)> = Vec::new();
    proof {
        assert(acc.deep_view() =~= Seq::<(Seq<char>, Seq<char>)>::empty());
    }
    let cookie_header = match find_header(headers, "cookie") {
        Some(v) => v,
        None => {
            return acc;
        },
    };
    let parts = crate::strutil::split_str(cookie_header.as_str(), ';');
    proof {
        assert(parts.deep_view().subrange(0, parts@.len() as int) =~= parts.deep_view());
    }
    let mut i: usize = 0;
    while i < parts.len()
        invariant
            i <= parts.len(),
            parts.deep_view() == split_at_seps(cookie_header@, ';'),
            parts.deep_view().len() == parts@.len(),
            header_first(headers.deep_view(), "cookie"@) == Some(cookie_header@),
            cookies_fold(parts.deep_view(), Seq::<(Seq<char>, Seq<char>)>::empty())
                == cookies_fold(
                parts.deep_view().subrange(i as int, parts@.len() as int),
                acc.deep_view(),
            ),
        decreases parts.len() - i,
    {
        let ghost rest = parts.deep_view().subrange(i as int, parts@.len() as int);
        proof {
            assert(rest[0] == parts.deep_view()[i as int]);
            assert(rest.drop_first() =~= parts.deep_view().subrange(
                i + 1 as int,
                parts@.len() as int,
            ));
            assert(parts.deep_view()[i as int] == parts@[i as int]@);
        }
        let trimmed = trim_str(parts[i].as_str());
        match find_char(trimmed.as_str(), '=') {
            Some(k) => {
                let tn: usize = trimmed.as_str().unicode_len();
                proof {
                    lemma_first_index_bounds(trimmed@, '=');
                }
                let name = trim_str(trimmed.as_str().substring_char(0, k));
                let value = trim_str(trimmed.as_str().substring_char(k + 1, tn));
                pairs_upsert_exec(&mut acc, name, value);
            },
            None => {},
        }
        i = i + 1;
    }
    proof {
        assert(parts.deep_view().subrange(parts@.len() as int, parts@.len() as int) =~= Seq::<
            Seq<char>,
        >::empty());
    }
    acc
}

// ---------------------------------------------------------------------------
// Parameter validation
// ---------------------------------------------------------------------------
/// The human name of a parameter location, as error messages spell it.
pub open spec fn loc_label(location: ParameterLocation) -> Seq<char> {
    match location {
        ParameterLocation::Path => "path"@,
        ParameterLocation::Query => "query"@,
        ParameterLocation::Header => "header"@,
        ParameterLocation::Cookie => "cookie"@,
    }
}

pub fn parameter_location_label(location: ParameterLocation) -> (r: &'static str)
    ensures
        r@ == loc_label(location),
{
    match location {
        ParameterLocation::Path => "path",
        ParameterLocation::Query => "query",
        ParameterLocation::Header => "header",
        ParameterLocation::Cookie => "cookie",
    }
}

/// The raw textual value a parameter draws from its location; a query
/// parameter takes the first value under its name.
pub open spec fn raw_param_value(
    p: ParameterValidatorV,
    pathm: Seq<(Seq<char>, Seq<char>)>,
    query: Seq<(Seq<char>, Seq<char>)>,
    headers: Seq<(Seq<char>, Seq<char>)>,
    cookies: Seq<(Seq<char>, Seq<char>)>,
) -> Option<Seq<char>> {
    match p.location {
        ParameterLocation::Path => map_first(pathm, p.name),
        ParameterLocation::Query => map_first(query, p.name),
        ParameterLocation::Header => header_first(headers, p.name),
        ParameterLocation::Cookie => map_first(cookies, p.name),
    }
}

/// Checks the parameters in order and stops at the first failure: a missing
/// required value, a failed coercion, or the schema's first error.
pub open spec fn spec_params_check(
    params: Seq<ParameterValidatorV>,
    pathm: Seq<(Seq<char>, Seq<char>)>,
    query: Seq<(Seq<char>, Seq<char>)>,
    headers: Seq<(Seq<char>, Seq<char>)>,
    cookies: Seq<(Seq<char>, Seq<char>)>,
) -> Result<(), Seq<char>>
    decreases params.len(),
{
    if params.len() == 0 {
        Ok(())
    } else {
        let p = params[0];
        match raw_param_value(p, pathm, query, headers, cookies) {
            None => if p.required {
                Err(
                    "Missing required "@ + loc_label(p.location) + " parameter '"@ + p.name + "'"@,
                )
            } else {
                spec_params_check(params.drop_first(), pathm, query, headers, cookies)
            },
            Some(raw) => match p.schema {
                None => spec_params_check(params.drop_first(), pathm, query, headers, cookies),
                Some(sv) => match spec_coerce(p.value_type, p.name, raw) {
                    Err(m) => Err(m),
                    Ok(cv) => if schema_errors_of(sv, cv).len() == 0 {
                        spec_params_check(params.drop_first(), pathm, query, headers, cookies)
                    } else {
                        Err(
                            "Parameter '"@ + p.name + "' invalid: "@ + schema_errors_of(sv, cv)[0],
                        )
                    },
                },
            },
        }
    }
}

/// Checks the plan's parameters from position `i` on.
fn params_check_from(
    params: &Vec<crate::openapi::ParameterValidator>,
    i: usize,
    pathm: &Vec<(String, String)>,
    query: &Vec<(String, String)>,
    headers: &Vec<(String, String)>,
    cookies: &Vec<(String, String)>,
) -> (r: Result<(), String>)
    requires
        i <= params.len(),
        crate::openapi::view_validators(params@).len() == params@.len(),
        forall|j: int|
            0 <= j < params@.len() ==> crate::openapi::view_validators(params@)[j]
                == #[trigger] params@[j]@,
    ensures
        match r {
            Ok(_) => spec_params_check(
                crate::openapi::view_validators(params@).subrange(i as int, params@.len() as int),
                pathm.deep_view(),
                query.deep_view(),
                headers.deep_view(),
                cookies.deep_view(),
            ) is Ok,
            Err(m) => spec_params_check(
                crate::openapi::view_validators(params@).subrange(i as int, params@.len() as int),
                pathm.deep_view(),
                query.deep_view(),
                headers.deep_view(),
                cookies.deep_view(),
            ) == Err::<(), Seq<char>>(m@),
        },
    decreases params.len() - i,
{
    let ghost vv = crate::openapi::view_validators(params@);
    let ghost rest = vv.subrange(i as int, params@.len() as int);
    if i == params.len() {
        proof {
            assert(rest =~= Seq::<ParameterValidatorV>::empty());
        }
        return Ok(());
    }
    proof {
        assert(rest[0] == vv[i as int]);
        assert(rest[0] == params@[i as int]@);
        assert(rest.drop_first() =~= vv.subrange(i + 1 as int, params@.len() as int));
    }
    let p = &params[i];
    let raw = match p.location {
        ParameterLocation::Path => map_first_exec(pathm, p.name.as_str()),
        ParameterLocation::Query => map_first_exec(query, p.name.as_str()),
        ParameterLocation::Header => find_header(headers, p.name.as_str()),
        ParameterLocation::Cookie => map_first_exec(cookies, p.name.as_str()),
    };
    let raw = match raw {
        None => {
            if p.required {
                let mut m = "Missing required ".to_owned();
                m.append(parameter_location_label(p.location));
                m.append(" parameter '");
                m.append(p.name.as_str());
                m.append("'");
                return Err(m);
            }
            return params_check_from(params, i + 1, pathm, query, headers, cookies);
        },
        Some(v) => v,
    };
    let schema = match &p.schema {
        None => {
            return params_check_from(params, i + 1, pathm, query, headers, cookies);
        },
        Some(s) => s,
    };
    let coerced = match p.coerce_value(raw.as_str()) {
        Ok(v) => v,
        Err(m) => {
            return Err(m);
        },
    };
    let verdict = crate::validation::validate(schema, &coerced);
    if verdict.valid {
        params_check_from(params, i + 1, pathm, query, headers, cookies)
    } else {
        proof {
            assert(verdict.errors.deep_view().len() > 0);
        }
        let mut m = "Parameter '".to_owned();
        m.append(p.name.as_str());
        m.append("' invalid: ");
        m.append(verdict.errors[0].as_str());
        Err(m)
    }
}

/// The parameter verdict of one request against a plan: a re-match of the path
/// against the template, then the parameters in order.
pub open spec fn spec_validate_request_params(pv: crate::openapi::PlanV, cv: CtxV) -> Result<
    (),
    Seq<char>,
> {
    match spec_extract_path_params(cv.path, pv.path_template) {
        None => Err(
            "Route '"@ + cv.path + "' no longer matches OpenAPI template '"@ + pv.path_template
                + "'"@,
        ),
        Some(pathm) => spec_params_check(
            pv.parameters,
            pathm,
            spec_query_pairs(cv.query),
            cv.headers,
            spec_cookies(cv.headers),
        ),
    }
}

/// The decoded query pairs, empty where the request has no query string.
pub open spec fn spec_query_pairs(q: Option<Seq<char>>) -> Seq<(Seq<char>, Seq<char>)> {
    match q {
        Some(qs) => query_pairs_of(qs),
        None => Seq::<(Seq<char>, Seq<char>)>::empty(),
    }
}

/// Validates the request's parameters against the plan: path, query, header
/// and cookie values, stopping at the first failure.
pub fn validate_openapi_parameters(
    plan: &OperationValidationPlan,
    ctx: &RequestContext,
) -> (r: Result<(), String>)
    ensures
        match r {
            Ok(_) => spec_validate_request_params(plan@, ctx@) is Ok,
            Err(m) => spec_validate_request_params(plan@, ctx@) == Err::<(), Seq<char>>(m@),
        },
{
    let pathm = match extract_path_params(ctx.path.as_str(), plan.path_template.as_str()) {
        Some(m) => m,
        None => {
            let mut m = "Route '".to_owned();
            m.append(ctx.path.as_str());
            m.append("' no longer matches OpenAPI template '");
            m.append(plan.path_template.as_str());
            m.append("'");
            return Err(m);
        },
    };
    let query: Vec<(String, String)> = match &ctx.query {
        Some(q) => crate::trusted::parse_query_pairs(q.as_str()),
        None => {
            let empty: Vec<(String, String)> = Vec::new();
            proof {
                assert(empty.deep_view() =~= Seq::<(Seq<char>, Seq<char>)>::empty());
            }
            empty
        },
    };
    let cookies = parse_cookie_header(&ctx.headers);
    proof {
        crate::openapi::lemma_view_validators(plan.parameters@);
        assert(crate::openapi::view_validators(plan.parameters@).subrange(
            0,
            plan.parameters@.len() as int,
        ) =~= crate::openapi::view_validators(plan.parameters@));
    }
    params_check_from(&plan.parameters, 0, &pathm, &query, &ctx.headers, &cookies)
}

// ---------------------------------------------------------------------------
// Response validation
// ---------------------------------------------------------------------------
/// The first response schema under a key.
pub open spec fn resp_key_first(entries: Seq<(ResponseKey, JsonV)>, k: ResponseKey) -> Option<
    JsonV,
>
    decreases entries.len(),
{
    if entries.len() == 0 {
        None
    } else if entries[0].0 == k {
        Some(entries[0].1)
    } else {
        resp_key_first(entries.drop_first(), k)
    }
}

proof fn lemma_resp_key_first_at(entries: Seq<(ResponseKey, JsonV)>, k: ResponseKey, at: int)
    requires
        0 <= at < entries.len(),
        entries[at].0 == k,
        forall|j: int| 0 <= j < at ==> (#[trigger] entries[j]).0 != k,
    ensures
        resp_key_first(entries, k) == Some(entries[at].1),
    decreases at,
{
    if at > 0 {
        lemma_resp_key_first_at(entries.drop_first(), k, at - 1);
    }
}

proof fn lemma_resp_key_first_none(entries: Seq<(ResponseKey, JsonV)>, k: ResponseKey)
    requires
        forall|j: int| 0 <= j < entries.len() ==> (#[trigger] entries[j]).0 != k,
    ensures
        resp_key_first(entries, k) is None,
    decreases entries.len(),
{
    if entries.len() > 0 {
        lemma_resp_key_first_none(entries.drop_first(), k);
    }
}

/// The schema a response status selects: the exact status, else the default.
pub open spec fn spec_select_response(entries: Seq<(ResponseKey, JsonV)>, status: u16) -> Option<
    JsonV,
> {
    match resp_key_first(entries, ResponseKey::Status(status)) {
        Some(s) => Some(s),
        None => resp_key_first(entries, ResponseKey::Default),
    }
}

/// Finds the first plan entry under `key`.
fn resp_key_first_exec<'a>(
    entries: &'a Vec<(ResponseKey, CompiledSchema)>,
    key: ResponseKey,
) -> (r: Option<&'a CompiledSchema>)
    ensures
        match r {
            Some(s) => resp_key_first(crate::openapi::view_plan_responses(entries@), key) == Some(
                s@,
            ),
            None => resp_key_first(crate::openapi::view_plan_responses(entries@), key) is None,
        },
{
    proof {
        crate::openapi::lemma_view_plan_responses(entries@);
    }
    let ghost ve = crate::openapi::view_plan_responses(entries@);
    let mut i: usize = 0;
    while i < entries.len()
        invariant
            i <= entries.len(),
            ve == crate::openapi::view_plan_responses(entries@),
            ve.len() == entries@.len(),
            forall|j: int|
                0 <= j < entries@.len() ==> ve[j] == ((#[trigger] entries@[j]).0, entries@[j].1@),
            forall|j: int| 0 <= j < i ==> (#[trigger] ve[j]).0 != key,
        decreases entries.len() - i,
    {
        if entries[i].0 == key {
            proof {
                lemma_resp_key_first_at(ve, key, i as int);
            }
            return Some(&entries[i].1);
        }
        i = i + 1;
    }
    proof {
        lemma_resp_key_first_none(ve, key);
    }
    None
}

/// Selects the response schema for a status: the exact status, else default.
pub fn select_response_schema<'a>(plan: &'a OperationValidationPlan, status: u16) -> (r: Option<
    &'a CompiledSchema,
>)
    ensures
        match r {
            Some(s) => spec_select_response(plan@.response_schemas, status) == Some(s@),
            None => spec_select_response(plan@.response_schemas, status) is None,
        },
{
    match resp_key_first_exec(&plan.response_schemas, ResponseKey::Status(status)) {
        Some(s) => Some(s),
        None => resp_key_first_exec(&plan.response_schemas, ResponseKey::Default),
    }
}

/// The response declares JSON content: its first `Content-Type` contains
/// `json` ignoring case.
pub open spec fn spec_has_json_content_type(headers: Seq<(Seq<char>, Seq<char>)>) -> bool {
    match header_first(headers, "content-type"@) {
        Some(v) => contains_seq(to_lower(v), "json"@),
        None => false,
    }
}

pub fn has_json_content_type(headers: &Vec<(String, String)>) -> (r: bool)
    ensures
        r == spec_has_json_content_type(headers.deep_view()),
{
    match find_header(headers, "content-type") {
        Some(v) => {
            let lowered = ascii_lower(v.as_str());
            contains_str(lowered.as_str(), "json")
        },
        None => false,
    }
}

/// What a response-side validation failure becomes: the upstream response kept
/// (stamped where the policy and the message allow), or a 502 JSON error.
pub open spec fn response_error_ok(
    r: HttpResponse,
    resp: HttpResponse,
    policy: GlobalConfig,
    msg: Seq<char>,
) -> bool {
    if policy.forward_on_error {
        &&& r.status == resp.status
        &&& r.body@ == resp.body@
        &&& r.headers.deep_view() == (if policy.add_error_header && valid_header_value(msg) {
            header_insert(resp.headers.deep_view(), "X-Gateway-Error"@, msg)
        } else {
            resp.headers.deep_view()
        })
    } else {
        is_json_error_response(r, 502, msg)
    }
}

/// The verdict of response validation: a passthrough where no schema applies,
/// the content is not JSON, or the body is empty or valid; else the error
/// policy's verdict on the parse or validation failure.
pub open spec fn is_response_validation(
    r: HttpResponse,
    resp: HttpResponse,
    pv: crate::openapi::PlanV,
    policy: GlobalConfig,
) -> bool {
    if pv.response_schemas.len() == 0 {
        r == resp
    } else {
        match spec_select_response(pv.response_schemas, resp.status) {
            None => r == resp,
            Some(sv) => if !spec_has_json_content_type(resp.headers.deep_view()) {
                r == resp
            } else if resp.body@.len() == 0 {
                r == resp
            } else {
                match crate::trusted::json_doc_of(resp.body@) {
                    Err(pe) => response_error_ok(
                        r,
                        resp,
                        policy,
                        "Invalid JSON in upstream response: "@ + pe,
                    ),
                    Ok(bv) => if schema_errors_of(sv, bv).len() == 0 {
                        r == resp
                    } else {
                        response_error_ok(
                            r,
                            resp,
                            policy,
                            "OpenAPI response validation failed: "@ + join_with(
                                schema_errors_of(sv, bv),
                                ", "@,
                            ),
                        )
                    },
                }
            },
        }
    }
}

/// Validates an upstream response against the plan's response schemas.
pub fn validate_openapi_response(
    response: HttpResponse,
    plan: &OperationValidationPlan,
    policy: GlobalConfig,
) -> (r: HttpResponse)
    ensures
        is_response_validation(r, response, plan@, policy),
{
    if plan.response_schemas.len() == 0 {
        proof {
            crate::openapi::lemma_view_plan_responses(plan.response_schemas@);
        }
        return response;
    }
    proof {
        crate::openapi::lemma_view_plan_responses(plan.response_schemas@);
    }
    let schema = match select_response_schema(plan, response.status) {
        Some(s) => s,
        None => {
            return response;
        },
    };
    if !has_json_content_type(&response.headers) {
        return response;
    }
    if response.body.len() == 0 {
        return response;
    }
    let body_json = match crate::trusted::parse_json_bytes(&response.body) {
        Ok(v) => v,
        Err(pe) => {
            let mut msg = "Invalid JSON in upstream response: ".to_owned();
            msg.append(pe.as_str());
            return apply_response_error(response, policy, msg.as_str());
        },
    };
    let verdict = crate::validation::validate(schema, &body_json);
    if verdict.valid {
        response
    } else {
        let joined = join_strings(&verdict.errors, ", ");
        let mut msg = "OpenAPI response validation failed: ".to_owned();
        msg.append(joined.as_str());
        apply_response_error(response, policy, msg.as_str())
    }
}

/// Applies the error policy to a response-side failure.
fn apply_response_error(resp: HttpResponse, policy: GlobalConfig, msg: &str) -> (r: HttpResponse)
    ensures
        response_error_ok(r, resp, policy, msg@),
{
    if policy.forward_on_error {
        let headers = if policy.add_error_header && is_valid_header_value(msg) {
            set_header(&resp.headers, "X-Gateway-Error", msg)
        } else {
            resp.headers
        };
        HttpResponse { status: resp.status, headers, body: resp.body }
    } else {
        json_error_response(502, msg)
    }
}

// ---------------------------------------------------------------------------
// The three entry points
// ---------------------------------------------------------------------------
/// The verdict of running a compiled schema over a parsed body: forward with
/// the stamp on success, the error policy on failure.
pub open spec fn json_schema_verdict_ok(
    r: Step,
    cv: CtxV,
    policy: GlobalConfig,
    src: JsonV,
    bodyv: JsonV,
) -> bool {
    if schema_errors_of(src, bodyv).len() == 0 {
        is_bare_forward(r, cv, policy, stamped_headers(cv.headers, policy, "true"@))
    } else {
        is_error_policy_step(
            r,
            cv,
            policy,
            "Validation failed: "@ + join_with(schema_errors_of(src, bodyv), ", "@),
            400,
        )
    }
}

/// Runs a compiled schema over the parsed body and dispatches.
fn dispatch_json_validated(
    ctx: RequestContext,
    policy: GlobalConfig,
    schema: &CompiledSchema,
    body_json: &JsonValue,
) -> (r: Step)
    ensures
        json_schema_verdict_ok(r, ctx@, policy, schema@, body_json@),
{
    let verdict = crate::validation::validate(schema, body_json);
    if verdict.valid {
        let headers = if policy.add_validation_header {
            set_header(&ctx.headers, "X-Schema-Validated", "true")
        } else {
            ctx.headers
        };
        let request = build_upstream_request(
            ctx.method.as_str(),
            ctx.upstream_url.as_str(),
            ctx.path_and_query.as_str(),
            &headers,
            ctx.body,
        );
        Step::CallUpstream { request, task: UpstreamTask { policy, resume: UpstreamResume::Bare } }
    } else {
        let joined = join_strings(&verdict.errors, ", ");
        let mut msg = "Validation failed: ".to_owned();
        msg.append(joined.as_str());
        handle_error(ctx, policy, msg.as_str(), 400)
    }
}

/// What one load of the schema cache yields at the contract level: the
/// schema's source, or the exact error.
pub open spec fn schema_load_view(
    cache: Seq<(String, CompiledSchema)>,
    path: Seq<char>,
    read: FileOutcome,
) -> Result<JsonV, crate::error::ErrorV> {
    match crate::schema::cache_first(cache, path) {
        Some(s) => Ok(s@),
        None => match read {
            FileOutcome::Contents(c) => match crate::trusted::json_text_doc_of(c@) {
                Ok(doc) => match crate::trusted::schema_compile_of(doc) {
                    Ok(_) => Ok(doc),
                    Err(ce) => Err(
                        crate::error::ErrorV::InvalidSchemaSyntax { path, message: ce },
                    ),
                },
                Err(pe) => Err(crate::error::ErrorV::InvalidSchemaJson { path, message: pe }),
            },
            FileOutcome::NotFound => Err(crate::error::ErrorV::SchemaNotFound { path }),
            FileOutcome::Unreadable(m) => Err(crate::error::ErrorV::Io { message: m@ }),
        },
    }
}

/// The document one OpenAPI load starts from: the cached one, else the one the
/// file read parses, else the exact error.
pub open spec fn spec_doc_outcome(
    specs0: Seq<(String, JsonValue)>,
    sp: Seq<char>,
    read: FileOutcome,
) -> Result<JsonV, crate::error::ErrorV> {
    match crate::openapi::specs_first(specs0, sp) {
        Some(d) => Ok(d),
        None => match read {
            FileOutcome::Contents(c) => match crate::trusted::yaml_doc_of(c@) {
                Ok(d) => Ok(d),
                Err(pe) => Err(crate::error::ErrorV::InvalidOpenApi { path: sp, message: pe }),
            },
            FileOutcome::NotFound => Err(crate::error::ErrorV::OpenApiNotFound { path: sp }),
            FileOutcome::Unreadable(m) => Err(crate::error::ErrorV::Io { message: m@ }),
        },
    }
}

/// What the rest of an OpenAPI request does once a plan is in hand: parameter
/// validation, the body rules, then body validation and the stamped forward.
pub open spec fn plan_steps_ok(
    r: Step,
    cv: CtxV,
    policy: GlobalConfig,
    pv: crate::openapi::PlanV,
) -> bool {
    match spec_validate_request_params(pv, cv) {
        Err(msg) => is_error_policy_step(r, cv, policy, msg, 400),
        Ok(_) => if pv.schema is None && cv.body.len() == 0 {
            is_bare_forward(r, cv, policy, cv.headers)
        } else if pv.body_required && cv.body.len() == 0 {
            is_error_policy_step(
                r,
                cv,
                policy,
                "OpenAPI request body required for "@ + pv.method + " "@ + pv.path_template,
                400,
            )
        } else if pv.schema is None {
            is_bare_forward(r, cv, policy, cv.headers)
        } else {
            match crate::trusted::json_doc_of(cv.body) {
                Err(pe) => is_error_policy_step(r, cv, policy, "Invalid JSON: "@ + pe, 400),
                Ok(bv) => if schema_errors_of(pv.schema->0, bv).len() == 0 {
                    is_openapi_forward(r, cv, policy, pv)
                } else {
                    is_error_policy_step(
                        r,
                        cv,
                        policy,
                        "Validation failed: "@ + join_with(
                            schema_errors_of(pv.schema->0, bv),
                            ", "@,
                        ),
                        400,
                    )
                },
            }
        },
    }
}

/// What one OpenAPI request yields from given cache states: each load failure
/// through the error policy at 500, then the plan's steps.
pub open spec fn openapi_outcome_ok(
    r: Step,
    specs0: Seq<(String, JsonValue)>,
    ops0: Seq<(crate::openapi::OperationCacheKey, OperationValidationPlan)>,
    cv: CtxV,
    policy: GlobalConfig,
    sp: Seq<char>,
    opid: Option<Seq<char>>,
    read: FileOutcome,
) -> bool {
    match spec_doc_outcome(specs0, sp, read) {
        Err(de) => is_error_policy_step(r, cv, policy, error_message(de), 500),
        Ok(doc) => match crate::openapi::spec_find_operation(
            doc,
            cv.path,
            to_lower(cv.method),
            opid,
            sp,
        ) {
            Err(fe) => is_error_policy_step(r, cv, policy, error_message(fe), 500),
            Ok(m) => match crate::openapi::ops_first(ops0, sp, to_lower(cv.method), m.path) {
                Some(cached) => plan_steps_ok(r, cv, policy, cached@),
                None => match crate::openapi::spec_build_plan(m, to_lower(cv.method), sp) {
                    Err(be) => is_error_policy_step(r, cv, policy, error_message(be), 500),
                    Ok(pv) => plan_steps_ok(r, cv, policy, pv),
                },
            },
        },
    }
}

/// Carries an OpenAPI request from the plan through dispatch.
fn dispatch_openapi_plan(
    ctx: RequestContext,
    policy: GlobalConfig,
    plan: OperationValidationPlan,
) -> (r: Step)
    ensures
        plan_steps_ok(r, ctx@, policy, plan@),
{
    match validate_openapi_parameters(&plan, &ctx) {
        Err(msg) => {
            return handle_error(ctx, policy, msg.as_str(), 400);
        },
        Ok(_) => {},
    }
    let has_schema = match &plan.schema {
        Some(_) => true,
        None => false,
    };
    if !has_schema && ctx.body.len() == 0 {
        let request = build_upstream_request(
            ctx.method.as_str(),
            ctx.upstream_url.as_str(),
            ctx.path_and_query.as_str(),
            &ctx.headers,
            ctx.body,
        );
        return Step::CallUpstream {
            request,
            task: UpstreamTask { policy, resume: UpstreamResume::Bare },
        };
    }
    if plan.body_required && ctx.body.len() == 0 {
        let mut msg = "OpenAPI request body required for ".to_owned();
        msg.append(plan.method.as_str());
        msg.append(" ");
        msg.append(plan.path_template.as_str());
        return handle_error(ctx, policy, msg.as_str(), 400);
    }
    let schema = match &plan.schema {
        Some(s) => s,
        None => {
            let request = build_upstream_request(
                ctx.method.as_str(),
                ctx.upstream_url.as_str(),
                ctx.path_and_query.as_str(),
                &ctx.headers,
                ctx.body,
            );
            return Step::CallUpstream {
                request,
                task: UpstreamTask { policy, resume: UpstreamResume::Bare },
            };
        },
    };
    let body_json = match crate::trusted::parse_json_bytes(&ctx.body) {
        Ok(v) => v,
        Err(pe) => {
            let mut msg = "Invalid JSON: ".to_owned();
            msg.append(pe.as_str());
            return handle_error(ctx, policy, msg.as_str(), 400);
        },
    };
    let verdict = crate::validation::validate(schema, &body_json);
    if verdict.valid {
        let headers = if policy.add_validation_header {
            set_header(&ctx.headers, "X-Schema-Validated", "openapi")
        } else {
            ctx.headers
        };
        let request = build_upstream_request(
            ctx.method.as_str(),
            ctx.upstream_url.as_str(),
            ctx.path_and_query.as_str(),
            &headers,
            ctx.body,
        );
        Step::CallUpstream {
            request,
            task: UpstreamTask { policy, resume: UpstreamResume::OpenApiResponse { plan } },
        }
    } else {
        let joined = join_strings(&verdict.errors, ", ");
        let mut msg = "Validation failed: ".to_owned();
        msg.append(joined.as_str());
        handle_error(ctx, policy, msg.as_str(), 400)
    }
}

/// Loads the operation plan and carries the request through dispatch.
pub fn continue_openapi(
    state: &mut AppState,
    ctx: RequestContext,
    policy: GlobalConfig,
    opts: OpenApiOptions,
    read: FileOutcome,
) -> (r: Step)
    ensures
        openapi_outcome_ok(
            r,
            old(state).openapi_cache.specs@,
            old(state).openapi_cache.operations@,
            ctx@,
            policy,
            opts.spec@,
            crate::config::view_opt_string(opts.operation_id),
            read,
        ),
        final(state).config == old(state).config,
        final(state).schema_cache.cache@ == old(state).schema_cache.cache@,
{
    let opid: Option<&str> = match &opts.operation_id {
        Some(s) => Some(s.as_str()),
        None => None,
    };
    let plan = match state.openapi_cache.load_operation(
        opts.spec.as_str(),
        ctx.path.as_str(),
        ctx.method.as_str(),
        opid,
        read,
    ) {
        Ok(p) => p,
        Err(e) => {
            let msg = e.message();
            return handle_error(ctx, policy, msg.as_str(), 500);
        },
    };
    dispatch_openapi_plan(ctx, policy, plan)
}

/// Routes one request and decides its first step: a 404 where no route
/// matches, a bare forward where the route validates nothing, a file read
/// where a schema or spec is not cached yet, and the validation pipeline
/// otherwise.
pub fn handle_request(
    state: &mut AppState,
    method: String,
    path: String,
    query: Option<String>,
    headers: Vec<(String, String)>,
    body: Vec<u8>,
) -> (r: Step)
    ensures
        ({
            let routes = crate::config::view_routes(old(state).config.routes@);
            let qv: Option<Seq<char>> = match query {
                Some(q) => Some(q@),
                None => None,
            };
            match spec_find_route(routes, path@, method@) {
                None => r matches Step::Done(resp) && is_text_response(
                    resp,
                    404,
                    "Route not found"@,
                ),
                Some(rv) => {
                    let policy = spec_effective(old(state).config.global, rv.config);
                    let cv = CtxV {
                        method: method@,
                        upstream: rv.upstream,
                        path: path@,
                        path_and_query: spec_forward_path(path@, qv),
                        query: qv,
                        headers: headers.deep_view(),
                        body: body@,
                    };
                    match rv.openapi {
                        Some(srcv) => {
                            let o = spec_to_options(srcv);
                            if crate::openapi::specs_first(
                                old(state).openapi_cache.specs@,
                                o.spec,
                            ) is Some {
                                openapi_outcome_ok(
                                    r,
                                    old(state).openapi_cache.specs@,
                                    old(state).openapi_cache.operations@,
                                    cv,
                                    policy,
                                    o.spec,
                                    o.operation_id,
                                    FileOutcome::NotFound,
                                )
                            } else {
                                &&& r matches Step::ReadFile { path: fp, task }
                                &&& fp@ == o.spec
                                &&& task.policy == policy
                                &&& task.ctx@ == cv
                                &&& task.resume matches FileResume::OpenApi { opts } && opts@ == o
                            }
                        },
                        None => match rv.schema {
                            Some(spv) => if body@.len() == 0 {
                                is_bare_forward(r, cv, policy, cv.headers)
                            } else {
                                match crate::trusted::json_doc_of(body@) {
                                    Err(pe) => is_error_policy_step(
                                        r,
                                        cv,
                                        policy,
                                        "Invalid JSON: "@ + pe,
                                        400,
                                    ),
                                    Ok(bodyv) => match crate::schema::cache_first(
                                        old(state).schema_cache.cache@,
                                        spv,
                                    ) {
                                        Some(s) => json_schema_verdict_ok(r, cv, policy, s@, bodyv),
                                        None => {
                                            &&& r matches Step::ReadFile { path: fp, task }
                                            &&& fp@ == spv
                                            &&& task.policy == policy
                                            &&& task.ctx@ == cv
                                            &&& task.resume matches FileResume::JsonSchema {
                                                schema_path,
                                                body_json,
                                            } && schema_path@ == spv && body_json@ == bodyv
                                        },
                                    },
                                }
                            },
                            None => is_bare_forward(r, cv, policy, cv.headers),
                        },
                    }
                },
            }
        }),
        final(state).config == old(state).config,
        final(state).schema_cache.cache@ == old(state).schema_cache.cache@,
{
    let path_and_query = build_forward_path(path.as_str(), query.as_ref());
    let route = match state.config.find_route(path.as_str(), method.as_str()) {
        Some(x) => x,
        None => {
            return Step::Done(text_response(404, "Route not found"));
        },
    };
    let policy = state.config.get_effective_config(route);
    let upstream_url = route.upstream.clone();
    let schema_path: Option<String> = match &route.schema {
        Some(p) => Some(p.clone()),
        None => None,
    };
    let openapi_opts = route.openapi_options();
    let ctx = RequestContext {
        method,
        upstream_url,
        path,
        path_and_query,
        query,
        headers,
        body,
    };
    match openapi_opts {
        Some(opts) => {
            if state.openapi_cache.has_spec(opts.spec.as_str()) {
                continue_openapi(state, ctx, policy, opts, FileOutcome::NotFound)
            } else {
                let fp = opts.spec.clone();
                Step::ReadFile {
                    path: fp,
                    task: FileTask { ctx, policy, resume: FileResume::OpenApi { opts } },
                }
            }
        },
        None => match schema_path {
            Some(sp) => {
                if ctx.body.len() == 0 {
                    let request = build_upstream_request(
                        ctx.method.as_str(),
                        ctx.upstream_url.as_str(),
                        ctx.path_and_query.as_str(),
                        &ctx.headers,
                        ctx.body,
                    );
                    return Step::CallUpstream {
                        request,
                        task: UpstreamTask { policy, resume: UpstreamResume::Bare },
                    };
                }
                let body_json = match crate::trusted::parse_json_bytes(&ctx.body) {
                    Ok(v) => v,
                    Err(pe) => {
                        let mut msg = "Invalid JSON: ".to_owned();
                        msg.append(pe.as_str());
                        return handle_error(ctx, policy, msg.as_str(), 400);
                    },
                };
                match state.schema_cache.lookup(sp.as_str()) {
                    Some(schema) => dispatch_json_validated(ctx, policy, &schema, &body_json),
                    None => Step::ReadFile {
                        path: sp.clone(),
                        task: FileTask {
                            ctx,
                            policy,
                            resume: FileResume::JsonSchema { schema_path: sp, body_json },
                        },
                    },
                }
            },
            None => {
                let request = build_upstream_request(
                    ctx.method.as_str(),
                    ctx.upstream_url.as_str(),
                    ctx.path_and_query.as_str(),
                    &ctx.headers,
                    ctx.body,
                );
                Step::CallUpstream {
                    request,
                    task: UpstreamTask { policy, resume: UpstreamResume::Bare },
                }
            },
        },
    }
}

/// Resumes a request once its one file read has completed.
pub fn on_file(state: &mut AppState, task: FileTask, read: FileOutcome) -> (r: Step)
    ensures
        ({
            let cv = task.ctx@;
            let policy = task.policy;
            match task.resume {
                FileResume::JsonSchema { schema_path, body_json } => match schema_load_view(
                    old(state).schema_cache.cache@,
                    schema_path@,
                    read,
                ) {
                    Err(ev) => is_error_policy_step(r, cv, policy, error_message(ev), 500),
                    Ok(src) => json_schema_verdict_ok(r, cv, policy, src, body_json@),
                },
                FileResume::OpenApi { opts } => openapi_outcome_ok(
                    r,
                    old(state).openapi_cache.specs@,
                    old(state).openapi_cache.operations@,
                    cv,
                    policy,
                    opts.spec@,
                    crate::config::view_opt_string(opts.operation_id),
                    read,
                ),
            }
        }),
        final(state).config == old(state).config,
{
    let FileTask { ctx, policy, resume } = task;
    match resume {
        FileResume::JsonSchema { schema_path, body_json } => {
            let schema = match state.schema_cache.load(schema_path.as_str(), read) {
                Ok(s) => s,
                Err(e) => {
                    let msg = e.message();
                    return handle_error(ctx, policy, msg.as_str(), 500);
                },
            };
            dispatch_json_validated(ctx, policy, &schema, &body_json)
        },
        FileResume::OpenApi { opts } => continue_openapi(state, ctx, policy, opts, read),
    }
}

/// Resumes a request once its one upstream call has completed: a passthrough
/// translation, and for a validated OpenAPI request, response validation. On
/// the validated path a response body that could not be read is a 502 with a
/// JSON error body, whatever the error policy says.
pub fn on_upstream(task: UpstreamTask, outcome: UpstreamOutcome) -> (r: HttpResponse)
    ensures
        ({
            match task.resume {
                UpstreamResume::Bare => upstream_outcome_ok(outcome, r),
                UpstreamResume::OpenApiResponse { plan } => match outcome {
                    UpstreamOutcome::Response(resp) => {
                        let base = if 100 <= resp.status <= 999 {
                            resp
                        } else {
                            HttpResponse { status: 502, headers: resp.headers, body: resp.body }
                        };
                        is_response_validation(r, base, plan@, task.policy)
                    },
                    UpstreamOutcome::BodyReadFailed => is_json_error_response(
                        r,
                        502,
                        "Failed to read upstream response body"@,
                    ),
                    _ => upstream_outcome_ok(outcome, r),
                },
            }
        }),
{
    match task.resume {
        UpstreamResume::Bare => upstream_to_response(outcome),
        UpstreamResume::OpenApiResponse { plan } => match outcome {
            UpstreamOutcome::Response(resp) => {
                let base = if 100 <= resp.status && resp.status <= 999 {
                    resp
                } else {
                    HttpResponse { status: 502, headers: resp.headers, body: resp.body }
                };
                validate_openapi_response(base, &plan, task.policy)
            },
            UpstreamOutcome::BodyReadFailed => json_error_response(
                502,
                "Failed to read upstream response body",
            ),
            _ => upstream_to_response(outcome),
        },
    }
}

// ---------------------------------------------------------------------------
// Laws across the pipeline's functions
// ---------------------------------------------------------------------------
/// A validated-pass forward differs from the bare forward of the same request
/// only in the stamped header: the same method, URL and body, and the same
/// headers but for the one binding the stamp adds.
pub proof fn law_validated_forward_matches_bare(
    a: UpstreamRequest,
    b: UpstreamRequest,
    cv: CtxV,
    policy: GlobalConfig,
    stamp: Seq<char>,
)
    requires
        is_upstream_request(
            a,
            cv.method,
            cv.upstream,
            cv.path_and_query,
            stamped_headers(cv.headers, policy, stamp),
            cv.body,
        ),
        is_upstream_request(b, cv.method, cv.upstream, cv.path_and_query, cv.headers, cv.body),
    ensures
        a.method@ == b.method@,
        a.url@ == b.url@,
        a.body@ == b.body@,
        policy.add_validation_header ==> a.headers.deep_view() == keep_headers(
            header_insert(cv.headers, "X-Schema-Validated"@, stamp),
        ),
        !policy.add_validation_header ==> a.headers.deep_view() == b.headers.deep_view(),
{
}

/// The error policy makes exactly one upstream call when it forwards, and
/// none when it rejects: a forwarding verdict is one upstream-call step whose
/// resume is terminal, and a rejecting verdict is already the response.
pub proof fn law_error_policy_upstream_calls(
    r: Step,
    cv: CtxV,
    policy: GlobalConfig,
    msg: Seq<char>,
    status: u16,
)
    requires
        is_error_policy_step(r, cv, policy, msg, status),
    ensures
        policy.forward_on_error ==> r is CallUpstream,
        !policy.forward_on_error ==> r is Done,
{
}

/// For a route with no validation source, the gateway's response is exactly
/// what the upstream returned, whenever the upstream answered with a status
/// the gateway can carry.
pub proof fn law_bare_passthrough(r: HttpResponse, outcome: UpstreamOutcome, resp: HttpResponse)
    requires
        upstream_outcome_ok(outcome, r),
        outcome == UpstreamOutcome::Response(resp),
        100 <= resp.status <= 999,
    ensures
        r == resp,
{
}

/// With the validation header disabled, a validated pass stamps nothing: the
/// forwarded headers are the request's own.
pub proof fn law_no_stamp_when_disabled(
    hs: Seq<(Seq<char>, Seq<char>)>,
    policy: GlobalConfig,
    stamp: Seq<char>,
)
    requires
        !policy.add_validation_header,
    ensures
        stamped_headers(hs, policy, stamp) == hs,
{
}

} // verus!