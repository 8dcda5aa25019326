//! The per-connection request pipeline: parse the request line, resolve the
//! path against the registry (the reserved introspection route first), and
//! build the response.  The caller reads the stream, runs the resolved
//! command, and writes the serialized response back; every decision in
//! between is made here.

use vstd::prelude::*;
use crate::executor::CommandOutput;
use crate::executor::ExecOutcome;
use crate::executor::status_of;
use crate::executor::output_of;
use crate::executor::error_of;
use crate::http::HttpResponse;
use crate::json::body_of;
use crate::json::esc;
use crate::json::escape_string;
use crate::json::opt_chars;
use crate::json::lemma_esc_identity;
use crate::json::listing_of;
use crate::json::not_found_body;
use crate::json::invalid_body;
use crate::registry::Registry;
use crate::registry::Endpoint;
use crate::text::is_ws_char;
use crate::text::is_whitespace;
use crate::text::str_chars;
use crate::text::chars_to_string;

verus! {

/// How far the first line of `s` runs: the index of the first newline, or
/// the whole length when there is none.
pub open spec fn line_len(s: Seq<char>) -> nat
    decreases s.len(),
{
    if s.len() == 0 {
        0
    } else if s[0] == '\n' {
        0
    } else {
        1 + line_len(s.drop_first())
    }
}

/// `line_len` is determined by where the first newline stands.
proof fn lemma_line_len_at(s: Seq<char>, j: int)
    requires
        0 <= j <= s.len(),
        forall|k: int| 0 <= k < j ==> s[k] != '\n',
        j == s.len() || s[j] == '\n',
    ensures
        line_len(s) == j,
    decreases j,
{
    if j == 0 {
    } else {
        assert(s[0] != '\n');
        let t = s.drop_first();
        assert(forall|k: int| 0 <= k < j - 1 ==> t[k] == s[k + 1] && t[k] != '\n');
        if j < s.len() {
            assert(t[j - 1] == s[j]);
        }
        lemma_line_len_at(t, j - 1);
    }
}

/// The first line of a request: everything before the first newline, with
/// one trailing carriage return stripped when that newline exists.  A
/// request without a newline is one single line, kept as it stands.
pub open spec fn first_line_of(s: Seq<char>) -> Seq<char> {
    let raw = s.take(line_len(s) as int);
    if line_len(s) < s.len() && raw.len() > 0 && raw.last() == '\r' {
        raw.drop_last()
    } else {
        raw
    }
}

/// How far the whitespace-free token at the front of `s` runs.
pub open spec fn token_len(s: Seq<char>) -> nat
    decreases s.len(),
{
    if s.len() == 0 || is_ws_char(s[0]) {
        0
    } else {
        1 + token_len(s.drop_first())
    }
}

pub proof fn lemma_token_len_le(s: Seq<char>)
    ensures
        token_len(s) <= s.len(),
    decreases s.len(),
{
    if s.len() > 0 && !is_ws_char(s[0]) {
        lemma_token_len_le(s.drop_first());
    }
}

/// `token_len` is determined by where the first whitespace stands.
proof fn lemma_token_len_at(s: Seq<char>, j: int)
    requires
        0 <= j <= s.len(),
        forall|k: int| 0 <= k < j ==> !is_ws_char(s[k]),
        j == s.len() || is_ws_char(s[j]),
    ensures
        token_len(s) == j,
    decreases j,
{
    if j == 0 {
    } else {
        assert(!is_ws_char(s[0]));
        let t = s.drop_first();
        assert(forall|k: int| 0 <= k < j - 1 ==> t[k] == s[k + 1] && !is_ws_char(t[k]));
        if j < s.len() {
            assert(t[j - 1] == s[j]);
        }
        lemma_token_len_at(t, j - 1);
    }
}

/// The whitespace-separated tokens of `s`, in order, each nonempty.
pub open spec fn split_ws(s: Seq<char>) -> Seq<Seq<char>>
    decreases s.len(),
    via split_ws_decreases
{
    if s.len() == 0 {
        Seq::empty()
    } else if is_ws_char(s[0]) {
        split_ws(s.drop_first())
    } else {
        seq![s.take(token_len(s) as int)] + split_ws(s.skip(token_len(s) as int))
    }
}

#[via_fn]
proof fn split_ws_decreases(s: Seq<char>) {
    if s.len() > 0 && !is_ws_char(s[0]) {
        lemma_token_len_le(s);
        assert(token_len(s) >= 1);
    }
}

/// Tokenization walks past one whitespace character unchanged.
proof fn lemma_split_ws_skip_one(s: Seq<char>, i: int)
    requires
        0 <= i < s.len(),
        is_ws_char(s[i]),
    ensures
        split_ws(s.skip(i)) == split_ws(s.skip(i + 1)),
{
    assert(s.skip(i)[0] == s[i]);
    assert(s.skip(i).drop_first() =~= s.skip(i + 1));
}

/// A maximal whitespace-free run is one token, and tokenization continues
/// after it.
proof fn lemma_split_ws_token(s: Seq<char>, i: int, j: int)
    requires
        0 <= i < j <= s.len(),
        forall|k: int| i <= k < j ==> !is_ws_char(s[k]),
        j == s.len() || is_ws_char(s[j]),
    ensures
        split_ws(s.skip(i)) == seq![s.subrange(i, j)] + split_ws(s.skip(j)),
{
    let t = s.skip(i);
    assert(forall|k: int| 0 <= k < j - i ==> t[k] == s[k + i] && !is_ws_char(t[k]));
    if j < s.len() {
        assert(t[j - i] == s[j]);
    }
    lemma_token_len_at(t, j - i);
    assert(!is_ws_char(t[0]));
    assert(t.take(j - i) =~= s.subrange(i, j));
    assert(t.skip(j - i) =~= s.skip(j));
}

/// The whitespace-separated tokens of `v`.
pub fn split_whitespace_tokens(v: &Vec<char>) -> (r: Vec<Vec<char>>)
    ensures
        r.deep_view() == split_ws(v@),
{
    let n = v.len();
    let mut toks: Vec<Vec<char>> = Vec::new();
    let mut i: usize = 0;
    proof {
        assert(v@.skip(0) =~= v@);
    }
    while i < n
        invariant
            i <= n,
            n == v@.len(),
            toks.deep_view() + split_ws(v@.skip(i as int)) == split_ws(v@),
        decreases n - i,
    {
        if is_whitespace(v[i]) {
            proof {
                lemma_split_ws_skip_one(v@, i as int);
            }
            i = i + 1;
        } else {
            let mut j: usize = i;
            let mut tok: Vec<char> = Vec::new();
            while j < n && !is_whitespace(v[j])
                invariant
                    i <= j <= n,
                    n == v@.len(),
                    tok@ == v@.subrange(i as int, j as int),
                    forall|k: int| i <= k < j ==> !is_ws_char(v@[k]),
                decreases n - j,
            {
                tok.push(v[j]);
                proof {
                    assert(tok@ =~= v@.subrange(i as int, j as int + 1));
                }
                j = j + 1;
            }
            proof {
                lemma_split_ws_token(v@, i as int, j as int);
                assert(tok.deep_view() =~= tok@);
            }
            let ghost old_toks = toks.deep_view();
            let ghost tokv = tok@;
            toks.push(tok);
            proof {
                assert(toks.deep_view() =~= old_toks.push(tokv));
                assert(toks.deep_view() + split_ws(v@.skip(j as int)) =~= split_ws(v@));
            }
            i = j;
        }
    }
    proof {
        assert(v@.skip(n as int) =~= Seq::<char>::empty());
        assert(split_ws(Seq::<char>::empty()) =~= Seq::<Seq<char>>::empty());
        assert(toks.deep_view() =~= split_ws(v@));
    }
    toks
}

/// The request path: the second whitespace-separated token of the first
/// line, when the line has at least the two tokens (method and path) a
/// request needs; nothing otherwise.
pub fn request_path(request: &String) -> (r: Option<String>)
    ensures
        match r {
            Option::Some(p) => split_ws(first_line_of(request@)).len() >= 2 && p@ == split_ws(
                first_line_of(request@),
            )[1],
            Option::None => split_ws(first_line_of(request@)).len() < 2,
        },
{
    let v = str_chars(request.as_str());
    let n = v.len();
    let mut j: usize = 0;
    while j < n && v[j] != '\n'
        invariant
            j <= n,
            n == request@.len(),
            v@ == request@,
            forall|k: int| 0 <= k < j ==> request@[k] != '\n',
        decreases n - j,
    {
        j = j + 1;
    }
    proof {
        lemma_line_len_at(request@, j as int);
    }
    let mut end: usize = j;
    if j < n && end > 0 && v[end - 1] == '\r' {
        end = end - 1;
    }
    let mut line: Vec<char> = Vec::new();
    let mut k: usize = 0;
    while k < end
        invariant
            k <= end,
            end <= n,
            n == request@.len(),
            v@ == request@,
            line@ == request@.subrange(0, k as int),
        decreases end - k,
    {
        line.push(v[k]);
        proof {
            assert(line@ =~= request@.subrange(0, k as int + 1));
        }
        k = k + 1;
    }
    proof {
        assert(request@.take(line_len(request@) as int) =~= request@.subrange(
            0,
            j as int,
        ));
        if (j as int) < n && j > 0 && request@[j - 1] == '\r' {
            assert(request@.subrange(0, j as int).drop_last() =~= request@.subrange(
                0,
                j as int - 1,
            ));
        }
        assert(line@ == first_line_of(request@));
    }
    let toks = split_whitespace_tokens(&line);
    if toks.len() >= 2 {
        let p = chars_to_string(&toks[1]);
        proof {
            assert(toks.deep_view()[1] == toks@[1]@);
        }
        Option::Some(p)
    } else {
        Option::None
    }
}

/// Whether a header name case-insensitively spells `content-type`.
pub open spec fn is_ct_name(s: Seq<char>) -> bool {
    s.len() == 12 && (s[0] == 'c' || s[0] == 'C') && (s[1] == 'o' || s[1] == 'O') && (s[2] == 'n'
        || s[2] == 'N') && (s[3] == 't' || s[3] == 'T') && (s[4] == 'e' || s[4] == 'E') && (s[5]
        == 'n' || s[5] == 'N') && (s[6] == 't' || s[6] == 'T') && s[7] == '-' && (s[8] == 't'
        || s[8] == 'T') && (s[9] == 'y' || s[9] == 'Y') && (s[10] == 'p' || s[10] == 'P') && (s[11]
        == 'e' || s[11] == 'E')
}

/// Decides `is_ct_name`.
pub fn is_content_type_name(s: &String) -> (r: bool)
    ensures
        r == is_ct_name(s@),
{
    let v = str_chars(s.as_str());
    if v.len() != 12 {
        return false;
    }
    (v[0] == 'c' || v[0] == 'C') && (v[1] == 'o' || v[1] == 'O') && (v[2] == 'n' || v[2] == 'N')
        && (v[3] == 't' || v[3] == 'T') && (v[4] == 'e' || v[4] == 'E') && (v[5] == 'n' || v[5]
        == 'N') && (v[6] == 't' || v[6] == 'T') && v[7] == '-' && (v[8] == 't' || v[8] == 'T')
        && (v[9] == 'y' || v[9] == 'Y') && (v[10] == 'p' || v[10] == 'P') && (v[11] == 'e' || v[11]
        == 'E')
}

/// One generic header line on the wire: `name: value`.
pub open spec fn header_line_of(name: Seq<char>, value: Seq<char>) -> Seq<char> {
    name + ": "@ + value
}

/// The override pairs as character sequences.
pub open spec fn override_pairs(v: Seq<(String, String)>) -> Seq<(Seq<char>, Seq<char>)> {
    v.map_values(|p: (String, String)| (p.0@, p.1@))
}

/// The configured overrides that pass through verbatim, formatted and in
/// configuration order; a content-type override is carried separately.
pub open spec fn generic_lines(ov: Seq<(Seq<char>, Seq<char>)>) -> Seq<Seq<char>>
    decreases ov.len(),
{
    if ov.len() == 0 {
        Seq::empty()
    } else if is_ct_name(ov.last().0) {
        generic_lines(ov.drop_last())
    } else {
        generic_lines(ov.drop_last()).push(header_line_of(ov.last().0, ov.last().1))
    }
}

/// The content type the last content-type override set, if any did.
pub open spec fn ct_opt(ov: Seq<(Seq<char>, Seq<char>)>) -> Option<Seq<char>>
    decreases ov.len(),
{
    if ov.len() == 0 {
        Option::None
    } else if is_ct_name(ov.last().0) {
        Option::Some(ov.last().1)
    } else {
        ct_opt(ov.drop_last())
    }
}

/// The resolved content type: the configured override, or `application/json`.
pub open spec fn ct_value(ov: Seq<(Seq<char>, Seq<char>)>) -> Seq<char> {
    match ct_opt(ov) {
        Option::None => "application/json"@,
        Option::Some(v) => v,
    }
}

/// The assembled response headers: the generic overrides first, in
/// configuration order, then exactly one `Content-Type` line, last.
pub open spec fn merged_headers(ov: Seq<(Seq<char>, Seq<char>)>) -> Seq<Seq<char>> {
    generic_lines(ov).push("Content-Type: "@ + ct_value(ov))
}

/// Assembles the response headers from the configured overrides.
pub fn build_headers(overrides: &Vec<(String, String)>) -> (r: Vec<String>)
    ensures
        r.deep_view() == merged_headers(override_pairs(overrides@)),
{
    let ghost ov = override_pairs(overrides@);
    let mut lines: Vec<String> = Vec::new();
    let mut content_type = String::from_str("application/json");
    let n = overrides.len();
    let mut i: usize = 0;
    proof {
        assert(ov.take(0) =~= Seq::<(Seq<char>, Seq<char>)>::empty());
    }
    while i < n
        invariant
            i <= n,
            n == overrides@.len(),
            ov == override_pairs(overrides@),
            lines.deep_view() == generic_lines(ov.take(i as int)),
            content_type@ == ct_value(ov.take(i as int)),
        decreases n - i,
    {
        proof {
            assert(ov[i as int] == (overrides@[i as int].0@, overrides@[i as int].1@));
            assert(ov.take(i as int + 1).drop_last() =~= ov.take(i as int));
            assert(ov.take(i as int + 1).last() == ov[i as int]);
        }
        if is_content_type_name(&overrides[i].0) {
            content_type = overrides[i].1.clone();
        } else {
            let mut hline = overrides[i].0.clone();
            hline.append(": ");
            hline.append(overrides[i].1.as_str());
            let ghost old_lines = lines.deep_view();
            let ghost hv = hline@;
            lines.push(hline);
            proof {
                assert(lines.deep_view() =~= old_lines.push(hv));
                assert(lines.deep_view() =~= generic_lines(ov.take(i as int + 1)));
            }
        }
        i = i + 1;
    }
    proof {
        assert(ov.take(n as int) =~= ov);
    }
    let mut ct_line = String::from_str("Content-Type: ");
    ct_line.append(content_type.as_str());
    let ghost old_lines = lines.deep_view();
    let ghost cv = ct_line@;
    lines.push(ct_line);
    proof {
        assert(lines.deep_view() =~= old_lines.push(cv));
        assert(lines.deep_view() =~= merged_headers(ov));
    }
    lines
}

/// The single header line every fixed response carries.
fn json_content_type_headers() -> (r: Vec<String>)
    ensures
        r.deep_view() =~= seq!["Content-Type: application/json"@],
{
    let mut v: Vec<String> = Vec::new();
    v.push(String::from_str("Content-Type: application/json"));
    proof {
        assert(v.deep_view() =~= seq!["Content-Type: application/json"@]);
    }
    v
}

/// The fixed 400 response for a request line that cannot be parsed.
pub open spec fn is_invalid_response(r: HttpResponse) -> bool {
    r.status_code == 400 && r.headers.deep_view() == seq!["Content-Type: application/json"@]
        && r.body@ == invalid_body()
}

/// The fixed 404 response for a path no route is configured under.
pub open spec fn is_not_found_response(r: HttpResponse) -> bool {
    r.status_code == 404 && r.headers.deep_view() == seq!["Content-Type: application/json"@]
        && r.body@ == not_found_body()
}

/// The introspection response: 200 with the full listing body.
pub open spec fn is_listing_response(reg: Registry, r: HttpResponse) -> bool {
    r.status_code == 200 && r.headers.deep_view() == seq!["Content-Type: application/json"@]
        && r.body@ == listing_of(reg.pairs())
}

pub fn invalid_response() -> (r: HttpResponse)
    ensures
        is_invalid_response(r),
{
    HttpResponse::new(
        400,
        json_content_type_headers(),
        String::from_str("{\"status\":\"error\",\"message\":\"Invalid request\"}"),
    )
}

pub fn not_found_response() -> (r: HttpResponse)
    ensures
        is_not_found_response(r),
{
    HttpResponse::new(
        404,
        json_content_type_headers(),
        String::from_str(
            "{\"status\":\"error\",\"message\":\"Endpoint not found\",\"note\":\"Use /endpoints to see available endpoints\"}",
        ),
    )
}

pub fn listing_response(reg: &Registry) -> (r: HttpResponse)
    ensures
        is_listing_response(*reg, r),
{
    HttpResponse::new(200, json_content_type_headers(), reg.listing_body())
}

/// The command-result body, serialized.
fn command_body(o: &CommandOutput) -> (r: String)
    ensures
        r@ == body_of(o.status@, o.output@, opt_chars(o.error)),
{
    let mut s = String::from_str("{\"status\":\"");
    let e1 = escape_string(&o.status);
    s.append(e1.as_str());
    s.append("\",\"output\":\"");
    let e2 = escape_string(&o.output);
    s.append(e2.as_str());
    s.append("\",\"error\":");
    match &o.error {
        Option::None => {
            s.append("null");
        },
        Option::Some(e) => {
            s.append("\"");
            let e3 = escape_string(e);
            s.append(e3.as_str());
            s.append("\"");
        },
    }
    s.append("}");
    proof {
        assert(s@ =~= body_of(o.status@, o.output@, opt_chars(o.error)));
    }
    s
}

/// The response for a resolved endpoint whose command run came to
/// `outcome`: always HTTP 200, the endpoint's merged headers, and the
/// command-result body; success and failure differ only inside the body.
pub fn command_response(endpoint: &Endpoint, outcome: &ExecOutcome) -> (r: HttpResponse)
    ensures
        r.status_code == 200,
        r.headers.deep_view() == merged_headers(override_pairs(endpoint.headers@)),
        r.body@ == body_of(status_of(*outcome), output_of(*outcome), error_of(*outcome)),
{
    let out = CommandOutput::from_outcome(outcome);
    let headers = build_headers(&endpoint.headers);
    let body = command_body(&out);
    HttpResponse::new(200, headers, body)
}

/// Where a request is routed, as a value: a malformed request, the
/// reserved introspection route, a configured endpoint (by its registry
/// index), or an unknown path.
pub enum Routing {
    Invalid,
    Listing,
    Run { index: int },
    Unknown,
}

/// The routing decision for one read request.  `None` stands for a failed
/// or empty read.  The reserved `/endpoints` path wins over any configured
/// route of the same name.
pub open spec fn routing_of(reg: Registry, request: Option<Seq<char>>) -> Routing {
    match request {
        Option::None => Routing::Invalid,
        Option::Some(s) => {
            let toks = split_ws(first_line_of(s));
            if toks.len() < 2 {
                Routing::Invalid
            } else {
                let p = toks[1];
                if p == "/endpoints"@ {
                    Routing::Listing
                } else if reg.has_route(p) {
                    Routing::Run {
                        index: choose|i: int|
                            0 <= i < reg.entries().len() && reg.entries()[i].name@ == p,
                    }
                } else {
                    Routing::Unknown
                }
            }
        },
    }
}

/// The view of an optional request string.
pub open spec fn req_view(request: Option<&String>) -> Option<Seq<char>> {
    match request {
        Option::None => Option::None,
        Option::Some(s) => Option::Some(s@),
    }
}

/// What the caller is to do for one request: write a finished response, or
/// run the command of the endpoint at the given registry index and then
/// build its response.
pub enum RequestPlan {
    Respond(HttpResponse),
    Execute(usize),
}

/// Decides one request end to end, up to the point where only running the
/// external command remains.  `request` is what the read yielded, `None`
/// when the read failed or yielded nothing.
pub fn plan_request(reg: &Registry, request: Option<&String>) -> (r: RequestPlan)
    requires
        reg.wf(),
    ensures
        routing_of(*reg, req_view(request)) is Invalid ==> (r matches RequestPlan::Respond(resp)
            && is_invalid_response(resp)),
        routing_of(*reg, req_view(request)) is Listing ==> (r matches RequestPlan::Respond(resp)
            && is_listing_response(*reg, resp)),
        routing_of(*reg, req_view(request)) is Unknown ==> (r matches RequestPlan::Respond(resp)
            && is_not_found_response(resp)),
        routing_of(*reg, req_view(request)) matches Routing::Run { index } ==> (r
            matches RequestPlan::Execute(i) && i as int == index),
{
    match request {
        Option::None => RequestPlan::Respond(invalid_response()),
        Option::Some(req) => {
            match request_path(req) {
                Option::None => RequestPlan::Respond(invalid_response()),
                Option::Some(path) => {
                    let reserved = String::from_str("/endpoints");
                    if path.eq(&reserved) {
                        RequestPlan::Respond(listing_response(reg))
                    } else {
                        match reg.resolve(&path) {
                            Option::Some(i) => {
                                proof {
                                    let p = split_ws(first_line_of(req@))[1];
                                    assert((i as int) < reg.entries().len()
                                        && reg.entries()[i as int].name@ == p);
                                    assert(reg.has_route(p));
                                    let idx = choose|k: int|
                                        0 <= k < reg.entries().len() && reg.entries()[k].name@
                                            == p;
                                    if idx < i as int {
                                        assert(reg.entries()[idx].name@ != reg.entries()[i as int].name@);
                                    }
                                    if (i as int) < idx {
                                        assert(reg.entries()[i as int].name@ != reg.entries()[idx].name@);
                                    }
                                    assert(idx == i as int);
                                }
                                RequestPlan::Execute(i)
                            },
                            Option::None => RequestPlan::Respond(not_found_response()),
                        }
                    }
                },
            }
        },
    }
}

/// Requesting a configured route runs exactly that route's command: any
/// request whose path token is the name of registry entry `i` (and not the
/// reserved introspection path) routes to running entry `i`.
pub proof fn lemma_configured_route_runs(reg: Registry, s: Seq<char>, i: int)
    requires
        reg.wf(),
        0 <= i < reg.entries().len(),
        split_ws(first_line_of(s)).len() >= 2,
        split_ws(first_line_of(s))[1] == reg.entries()[i].name@,
        reg.entries()[i].name@ != "/endpoints"@,
    ensures
        routing_of(reg, Option::Some(s)) matches Routing::Run { index } && index == i,
{
    let p = split_ws(first_line_of(s))[1];
    assert(reg.has_route(p));
    let idx = choose|k: int| 0 <= k < reg.entries().len() && reg.entries()[k].name@ == p;
    if idx < i {
        assert(reg.entries()[idx].name@ != reg.entries()[i].name@);
    }
    if i < idx {
        assert(reg.entries()[i].name@ != reg.entries()[idx].name@);
    }
}

/// The body built for a command outcome carries the outcome's status word
/// verbatim in its `status` field, and that word is `success` exactly when
/// the command ran and exited zero, `error` in every other case.  The HTTP
/// status of such a response is 200 either way (see `command_response`).
pub proof fn lemma_command_status_field(o: ExecOutcome)
    ensures
        body_of(status_of(o), output_of(o), error_of(o)) == "{\"status\":\""@ + status_of(o)
            + "\",\"output\":\""@ + esc(output_of(o)) + "\",\"error\":"@ + (match error_of(o) {
            Option::None => "null"@,
            Option::Some(e) => "\""@ + esc(e) + "\""@,
        }) + "}"@,
        (o matches ExecOutcome::Exited { success: true, .. }) <==> status_of(o) == "success"@,
{
    reveal_strlit("success");
    reveal_strlit("error");
    lemma_esc_identity("success"@);
    lemma_esc_identity("error"@);
    assert("success"@.len() != "error"@.len());
}

/// The introspection route is reserved: a request for `/endpoints` is
/// answered with the listing, whatever the registry holds - a configured
/// route of the same name included.
pub proof fn lemma_endpoints_reserved(reg: Registry, s: Seq<char>)
    requires
        split_ws(first_line_of(s)).len() >= 2,
        split_ws(first_line_of(s))[1] == "/endpoints"@,
    ensures
        routing_of(reg, Option::Some(s)) is Listing,
{
}

/// A path that is neither the reserved route nor a configured name routes
/// to the fixed not-found answer.
pub proof fn lemma_unknown_path(reg: Registry, s: Seq<char>)
    requires
        split_ws(first_line_of(s)).len() >= 2,
        split_ws(first_line_of(s))[1] != "/endpoints"@,
        !reg.has_route(split_ws(first_line_of(s))[1]),
    ensures
        routing_of(reg, Option::Some(s)) is Unknown,
{
}

/// A request whose first line has fewer than two whitespace-separated
/// tokens - and a read that yielded nothing - is answered with the fixed
/// invalid-request response, whatever the registry holds.
pub proof fn lemma_malformed_request_invalid(reg: Registry, request: Option<Seq<char>>)
    requires
        match request {
            Option::None => true,
            Option::Some(s) => split_ws(first_line_of(s)).len() < 2,
        },
    ensures
        routing_of(reg, request) is Invalid,
{
}

/// Every generic line stems from a non-content-type override.
proof fn lemma_generic_lines_src(ov: Seq<(Seq<char>, Seq<char>)>)
    ensures
        forall|k: int|
            0 <= k < generic_lines(ov).len() ==> exists|j: int|
                0 <= j < ov.len() && !is_ct_name(ov[j].0) && (#[trigger] generic_lines(ov)[k])
                    == #[trigger] header_line_of(ov[j].0, ov[j].1),
    decreases ov.len(),
{
    if ov.len() == 0 {
    } else {
        let head = ov.drop_last();
        lemma_generic_lines_src(head);
        assert forall|k: int| 0 <= k < generic_lines(ov).len() implies exists|j: int|
            0 <= j < ov.len() && !is_ct_name(ov[j].0) && (#[trigger] generic_lines(ov)[k])
                == #[trigger] header_line_of(ov[j].0, ov[j].1) by {
            if k < generic_lines(head).len() {
                let j = choose|j: int|
                    0 <= j < head.len() && !is_ct_name(head[j].0) && generic_lines(head)[k]
                        == header_line_of(head[j].0, head[j].1);
                assert(head[j] == ov[j]);
                assert(generic_lines(ov)[k] == generic_lines(head)[k]);
            } else {
                assert(!is_ct_name(ov.last().0));
                let j = ov.len() - 1;
                assert(ov[j] == ov.last());
                assert(generic_lines(ov)[k] == header_line_of(ov[j].0, ov[j].1));
            }
        }
    }
}

/// Merging the header overrides yields the generic lines first, in
/// configuration order, then exactly one `Content-Type` line, last; no
/// generic line stems from a content-type override, so no duplicate
/// `Content-Type` can appear, wherever the override stood in the
/// configuration.
pub proof fn lemma_merged_headers_content_type(ov: Seq<(Seq<char>, Seq<char>)>)
    ensures
        merged_headers(ov).len() == generic_lines(ov).len() + 1,
        merged_headers(ov).last() == "Content-Type: "@ + ct_value(ov),
        forall|k: int|
            0 <= k < generic_lines(ov).len() ==> merged_headers(ov)[k] == generic_lines(ov)[k],
        forall|k: int|
            0 <= k < generic_lines(ov).len() ==> exists|j: int|
                0 <= j < ov.len() && !is_ct_name(ov[j].0) && (#[trigger] merged_headers(ov)[k])
                    == #[trigger] header_line_of(ov[j].0, ov[j].1),
{
    lemma_generic_lines_src(ov);
}

} // verus!
