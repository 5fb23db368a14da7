//! The command-line client's side of the HTTP API: the endpoint it may talk
//! to (plain `http` on a loopback host, nothing after the port), and how an
//! error answer or a failed connection becomes a `CliError`.
use vstd::prelude::*;
use crate::cli::CliError;
use crate::text::{
    char_count, chars_of, code_point, int_text, joined, lowercase, owned, string_of, text_eq, u64_text,
    unicode_lower,
};

verus! {

/// The endpoint used when none is given.
pub const DEFAULT_ENDPOINT: &'static str = "http://127.0.0.1:4317";

pub open spec fn opt_text(o: Option<String>) -> Option<Seq<char>> {
    match o {
        Some(s) => Some(s@),
        None => None,
    }
}

// ---------- endpoint ----------

/// The parts of a parsed URL the endpoint check reads.
#[derive(Debug)]
pub struct EndpointUrl {
    pub scheme: String,
    pub username: String,
    pub host: Option<String>,
    pub path: String,
    pub query: Option<String>,
    pub fragment: Option<String>,
}

pub struct EndpointUrlView {
    pub scheme: Seq<char>,
    pub username: Seq<char>,
    pub host: Option<Seq<char>>,
    pub path: Seq<char>,
    pub query: Option<Seq<char>>,
    pub fragment: Option<Seq<char>>,
}

impl View for EndpointUrl {
    type V = EndpointUrlView;

    open spec fn view(&self) -> EndpointUrlView {
        EndpointUrlView {
            scheme: self.scheme@,
            username: self.username@,
            host: opt_text(self.host),
            path: self.path@,
            query: opt_text(self.query),
            fragment: opt_text(self.fragment),
        }
    }
}

/// What `url::Url::parse` makes of a text: its scheme, user name, host,
/// path, query and fragment as the `url` crate normalises them, or the
/// parse error's message. The normalisation (WHATWG URL parsing) is not
/// restated here.
pub uninterp spec fn url_parts(input: Seq<char>) -> Result<EndpointUrlView, Seq<char>>;

/// `url::Url::parse(input)`, read into plain parts (`scheme()`,
/// `username()`, `host_str()`, `path()`, `query()`, `fragment()`), or the
/// `ParseError`'s text. The result is `url_parts(input)`.
#[verifier::external_body]
fn parse_url(input: &str) -> (r: Result<EndpointUrl, String>)
    ensures
        match r {
            Ok(u) => url_parts(input@) == Ok::<EndpointUrlView, Seq<char>>(u@),
            Err(e) => url_parts(input@) == Err::<EndpointUrlView, Seq<char>>(e@),
        },
{
    match url::Url::parse(input) {
        Ok(u) => Ok(EndpointUrl {
            scheme: u.scheme().to_string(),
            username: u.username().to_string(),
            host: u.host_str().map(String::from),
            path: u.path().to_string(),
            query: u.query().map(String::from),
            fragment: u.fragment().map(String::from),
        }),
        Err(e) => Err(e.to_string()),
    }
}

pub open spec fn loopback_endpoint_host(lower_host: Seq<char>) -> bool {
    lower_host == "127.0.0.1"@ || lower_host == "localhost"@ || lower_host == "[::1]"@
}

/// Why the endpoint `endpoint`, parsed as `parsed`, is refused, if it is:
/// an unparsable URL, user info, a scheme other than `http`, no host, a
/// host other than `127.0.0.1`, `localhost` or `[::1]` (compared lower-
/// cased), a path other than `/`, a query or a fragment.
pub open spec fn endpoint_error(endpoint: Seq<char>, parsed: Result<EndpointUrlView, Seq<char>>) -> Option<Seq<char>> {
    match parsed {
        Err(e) => Some("endpoint URL 无效: "@ + e),
        Ok(u) => if u.username.len() > 0 {
            Some("endpoint 不能包含 userinfo: "@ + endpoint)
        } else if u.scheme != "http"@ {
            Some("endpoint scheme 必须是 http（仅本地）: "@ + u.scheme)
        } else if u.host is None {
            Some("endpoint 必须包含 host: "@ + endpoint)
        } else if !loopback_endpoint_host(unicode_lower(u.host.unwrap())) {
            Some("endpoint host '"@ + u.host.unwrap() + "' 不允许：仅允许 127.0.0.1、localhost、::1（仅本地）"@)
        } else if u.path.len() > 0 && u.path != "/"@ {
            Some("endpoint 不能包含 path: "@ + endpoint)
        } else if u.query is Some {
            Some("endpoint 不能包含 query: "@ + endpoint)
        } else if u.fragment is Some {
            Some("endpoint 不能包含 fragment: "@ + endpoint)
        } else {
            None
        },
    }
}

pub open spec fn refused_endpoint(r: Result<(), CliError>, expected: Option<Seq<char>>) -> bool {
    match expected {
        None => r is Ok,
        Some(m) => r matches Err(e) && e.code@ == "INVALID_ENDPOINT"@ && e.message@ == m,
    }
}

/// The endpoint check on an already parsed endpoint (keeps Pin contents
/// from ever being sent to another machine).
pub fn check_endpoint(endpoint: &str, parsed: Result<EndpointUrl, String>) -> (r: Result<(), CliError>)
    ensures
        refused_endpoint(r, endpoint_error(endpoint@, match parsed {
            Ok(u) => Ok::<EndpointUrlView, Seq<char>>(u@),
            Err(e) => Err::<EndpointUrlView, Seq<char>>(e@),
        })),
{
    match parsed {
        Err(e) => Err(CliError::new("INVALID_ENDPOINT", joined("endpoint URL 无效: ", e.as_str()))),
        Ok(u) => {
            if char_count(u.username.as_str()) > 0 {
                return Err(CliError::new("INVALID_ENDPOINT", joined("endpoint 不能包含 userinfo: ", endpoint)));
            }
            if !text_eq(u.scheme.as_str(), "http") {
                return Err(
                    CliError::new("INVALID_ENDPOINT", joined("endpoint scheme 必须是 http（仅本地）: ", u.scheme.as_str())),
                );
            }
            let host = match &u.host {
                None => {
                    return Err(CliError::new("INVALID_ENDPOINT", joined("endpoint 必须包含 host: ", endpoint)));
                },
                Some(h) => h,
            };
            let lower = lowercase(host.as_str());
            let l = lower.as_str();
            if !(text_eq(l, "127.0.0.1") || text_eq(l, "localhost") || text_eq(l, "[::1]")) {
                let mut m = joined("endpoint host '", host.as_str());
                m.append("' 不允许：仅允许 127.0.0.1、localhost、::1（仅本地）");
                return Err(CliError::new("INVALID_ENDPOINT", m));
            }
            if char_count(u.path.as_str()) > 0 && !text_eq(u.path.as_str(), "/") {
                return Err(CliError::new("INVALID_ENDPOINT", joined("endpoint 不能包含 path: ", endpoint)));
            }
            if u.query.is_some() {
                return Err(CliError::new("INVALID_ENDPOINT", joined("endpoint 不能包含 query: ", endpoint)));
            }
            if u.fragment.is_some() {
                return Err(CliError::new("INVALID_ENDPOINT", joined("endpoint 不能包含 fragment: ", endpoint)));
            }
            Ok(())
        },
    }
}

/// Parses the endpoint with the `url` crate and checks it.
pub fn validate_endpoint(endpoint: &str) -> (r: Result<(), CliError>)
    ensures
        refused_endpoint(r, endpoint_error(endpoint@, url_parts(endpoint@))),
{
    let parsed = parse_url(endpoint);
    check_endpoint(endpoint, parsed)
}

/// `s` without its trailing `/`s.
pub open spec fn trim_slashes(s: Seq<char>) -> Seq<char>
    decreases s.len(),
{
    if s.len() > 0 && s.last() == '/' {
        trim_slashes(s.drop_last())
    } else {
        s
    }
}

/// The endpoint requests go to: the given one or the default, checked, and
/// without trailing slashes (so that paths can be appended).
pub fn client_endpoint(endpoint: Option<String>) -> (r: Result<String, CliError>)
    ensures
        ({
            let ep = match endpoint {
                Some(e) => e@,
                None => DEFAULT_ENDPOINT@,
            };
            match endpoint_error(ep, url_parts(ep)) {
                None => r matches Ok(s) && s@ == trim_slashes(ep),
                Some(m) => r matches Err(e) && e.code@ == "INVALID_ENDPOINT"@ && e.message@ == m,
            }
        }),
{
    let ep = match endpoint {
        Some(e) => e,
        None => owned(DEFAULT_ENDPOINT),
    };
    validate_endpoint(ep.as_str())?;
    let v = chars_of(ep.as_str());
    let mut end = v.len();
    assert(v@.take(v.len() as int) =~= v@);
    while end > 0 && v[end - 1] == '/'
        invariant
            v@ == ep@,
            end <= v.len(),
            trim_slashes(v@.take(end as int)) == trim_slashes(ep@),
        decreases end,
    {
        assert(v@.take(end as int).drop_last() =~= v@.take(end - 1));
        end -= 1;
    }
    let r = string_of(&v, 0, end);
    assert(r@ =~= v@.take(end as int));
    Ok(r)
}

// ---------- error answers ----------

/// What `serde_json` finds in an error body: `error.code` and
/// `error.message` when the body is JSON and they are strings (both `None`
/// when the body is not JSON). JSON parsing is not restated here.
pub uninterp spec fn json_error_fields(raw: Seq<char>) -> (Option<Seq<char>>, Option<Seq<char>>);

/// `serde_json::from_str::<Value>(raw)`, then `error.code` and
/// `error.message` read with `get` and `as_str`; the result is
/// `json_error_fields(raw)`.
#[verifier::external_body]
fn error_fields(raw: &str) -> (r: (Option<String>, Option<String>))
    ensures
        (opt_text(r.0), opt_text(r.1)) == json_error_fields(raw@),
{
    let body: serde_json::Value = serde_json::from_str(raw).unwrap_or(serde_json::Value::Null);
    let error = body.get("error");
    let code = error.and_then(|e| e.get("code")).and_then(|c| c.as_str()).map(String::from);
    let message = error.and_then(|e| e.get("message")).and_then(|m| m.as_str()).map(String::from);
    (code, message)
}

/// The number of bytes `c` takes in UTF-8.
pub open spec fn char_width(c: char) -> nat {
    vstd::utf8::encode_scalar(c as u32).len()
}

/// How many leading characters of `s` fit in `budget` bytes.
pub open spec fn fit_len(s: Seq<char>, budget: int) -> nat
    decreases s.len(),
{
    if s.len() == 0 || char_width(s[0]) > budget {
        0
    } else {
        1 + fit_len(s.drop_first(), budget - char_width(s[0]))
    }
}

/// The longest prefix of `s` whose UTF-8 encoding has at most `max` bytes
/// (cut at a character boundary).
pub open spec fn within_bytes(s: Seq<char>, max: nat) -> Seq<char> {
    s.take(fit_len(s, max as int) as int)
}

/// `s` cut to at most `max` bytes, at a character boundary.
pub fn prefix_within_bytes(s: &str, max: usize) -> (r: String)
    ensures
        r@ == within_bytes(s@, max as nat),
{
    let v = chars_of(s);
    let mut used: usize = 0;
    let mut i: usize = 0;
    assert(v@.skip(0) =~= v@);
    while i < v.len()
        invariant
            v@ == s@,
            i <= v.len(),
            used <= max,
            fit_len(s@, max as int) == i + fit_len(v@.skip(i as int), max - used),
        ensures
            i <= v.len(),
            fit_len(s@, max as int) == i,
        decreases v.len() - i,
    {
        let u = code_point(v[i]);
        let w: usize = if u < 0x80 {
            1
        } else if u < 0x800 {
            2
        } else if u < 0x10000 {
            3
        } else {
            4
        };
        assert(vstd::utf8::encode_scalar(u).len() == w);
        assert(v@.skip(i as int)[0] == v@[i as int]);
        assert(v@.skip(i as int).drop_first() =~= v@.skip(i + 1));
        if w > max - used {
            assert(fit_len(v@.skip(i as int), max - used) == 0);
            break;
        }
        used = used + w;
        i += 1;
    }
    let r = string_of(&v, 0, i);
    assert(r@ =~= s@.take(i as int));
    r
}

/// `r` is the error for an answer with status `code` and body `raw` whose
/// error fields are `f`: the body's code (`UNKNOWN` without one), and its
/// message with the status, or, without a message, the raw body (cut to
/// 500 bytes) with the status.
pub open spec fn reads_error_body(r: CliError, code: u16, raw: Seq<char>, f: (Option<Seq<char>>, Option<Seq<char>>)) -> bool {
    &&& r.code@ == match f.0 {
        Some(c) => c,
        None => "UNKNOWN"@,
    }
    &&& ({
        let msg = match f.1 {
            Some(m) => m,
            None => Seq::<char>::empty(),
        };
        if msg.len() == 0 {
            r.message@ == "HTTP "@ + int_text(code as int) + " 原始响应: "@ + within_bytes(raw, 500)
        } else {
            r.message@ == msg + " (HTTP "@ + int_text(code as int) + ")"@
        }
    })
}

/// The error for an answer with status `code` and body `raw`, given the
/// body's error fields.
pub fn error_from_body(code: u16, raw: &str, fields: (Option<String>, Option<String>)) -> (r: CliError)
    ensures
        reads_error_body(r, code, raw@, (opt_text(fields.0), opt_text(fields.1))),
{
    let (c, m) = fields;
    let error_code = match c {
        Some(x) => x,
        None => owned("UNKNOWN"),
    };
    let msg = match m {
        Some(x) => x,
        None => String::new(),
    };
    let status = u64_text(code as u64);
    if char_count(msg.as_str()) == 0 {
        let cut = prefix_within_bytes(raw, 500);
        let mut t = joined("HTTP ", status.as_str());
        t.append(" 原始响应: ");
        t.append(cut.as_str());
        CliError::new(error_code.as_str(), t)
    } else {
        let mut t = msg;
        t.append(" (HTTP ");
        t.append(status.as_str());
        t.append(")");
        CliError::new(error_code.as_str(), t)
    }
}

/// The error for an error answer (`{"ok":false,"error":{code,message}}`
/// when it is one).
pub fn parse_error_body(code: u16, raw: &str) -> (r: CliError)
    ensures
        reads_error_body(r, code, raw@, json_error_fields(raw@)),
{
    let fields = error_fields(raw);
    error_from_body(code, raw, fields)
}

/// The error for a non-2xx answer: a redirect (3xx) is refused for safety
/// without reading the body; any other status is read as an error answer.
pub fn status_error(code: u16, raw: &str) -> (r: CliError)
    ensures
        300 <= code < 400 ==> r.code@ == "REDIRECT_BLOCKED"@ && r.message@ == "服务端返回重定向（"@ + int_text(
            code as int,
        ) + "），已因安全原因阻止"@,
        !(300 <= code < 400) ==> reads_error_body(r, code, raw@, json_error_fields(raw@)),
{
    if 300 <= code && code < 400 {
        let mut m = owned("服务端返回重定向（");
        let t = u64_text(code as u64);
        m.append(t.as_str());
        m.append("），已因安全原因阻止");
        return CliError::new("REDIRECT_BLOCKED", m);
    }
    parse_error_body(code, raw)
}

/// The error for a connection that failed before any answer: a refused
/// connection means the desktop app is not running; anything else
/// (timeouts, DNS, TLS) is a network error with its kind.
pub fn transport_error(connection_failed: bool, text: &str, kind: &str) -> (r: CliError)
    ensures
        connection_failed ==> r.code@ == "NOT_RUNNING"@ && r.message@ == text@,
        !connection_failed ==> r.code@ == "NETWORK_ERROR"@ && r.message@ == "网络错误: "@ + text@ + " ("@
            + kind@ + ")"@,
{
    if connection_failed {
        return CliError::not_running(owned(text));
    }
    let mut m = joined("网络错误: ", text);
    m.append(" (");
    m.append(kind);
    m.append(")");
    CliError::new("NETWORK_ERROR", m)
}

// ---------- laws ----------

/// An endpoint that passes the check is a plain `http` URL on a loopback
/// host, with no user info, no path beyond `/`, no query and no fragment.
pub proof fn law_accepted_endpoint_is_local(endpoint: Seq<char>, parsed: Result<EndpointUrlView, Seq<char>>)
    requires
        endpoint_error(endpoint, parsed) is None,
    ensures
        parsed is Ok,
        parsed->Ok_0.scheme == "http"@,
        parsed->Ok_0.username.len() == 0,
        parsed->Ok_0.host is Some,
        loopback_endpoint_host(unicode_lower(parsed->Ok_0.host->Some_0)),
        parsed->Ok_0.path.len() == 0 || parsed->Ok_0.path == "/"@,
        parsed->Ok_0.query is None,
        parsed->Ok_0.fragment is None,
{
}

/// The raw body shown in an error is a prefix of the body that takes at
/// most `max` bytes in UTF-8.
pub proof fn law_cut_body_within_limit(s: Seq<char>, max: nat)
    ensures
        within_bytes(s, max).len() <= s.len(),
        s.take(within_bytes(s, max).len() as int) == within_bytes(s, max),
        crate::text::utf8_len(within_bytes(s, max)) <= max,
{
    lemma_fit_len_bytes(s, max as int);
}

proof fn lemma_fit_len_bytes(s: Seq<char>, budget: int)
    requires
        budget >= 0,
    ensures
        fit_len(s, budget) <= s.len(),
        crate::text::utf8_len(s.take(fit_len(s, budget) as int)) <= budget,
    decreases s.len(),
{
    let k = fit_len(s, budget);
    if s.len() == 0 || char_width(s[0]) > budget {
        assert(s.take(0) =~= Seq::<char>::empty());
    } else {
        let w = char_width(s[0]);
        lemma_fit_len_bytes(s.drop_first(), budget - w);
        let x = s.take(k as int);
        assert(x[0] == s[0]);
        assert(x.drop_first() =~= s.drop_first().take(k - 1));
        assert(vstd::utf8::encode_utf8(x) == vstd::utf8::encode_scalar(x[0] as u32) + vstd::utf8::encode_utf8(
            x.drop_first(),
        ));
    }
}

} // verus!
