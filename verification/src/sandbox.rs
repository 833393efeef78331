//! The decisions behind the host functions an agent imports from `cage`,
//! and the bookkeeping of a single-agent sandbox.

use vstd::prelude::*;
use vstd::string::*;
use vstd::utf8::encode_utf8;

use crate::ipc::AgentMessage;
use crate::json::{
    compact, decimal_text, json_compact, json_object_members, json_quoted, json_string_member, json_string_object,
    members_view, number_text, object_members, opt_view, quote, string_map, string_member, string_object,
};
use crate::orchestrator::{copy_pairs, copy_strings, pairs_view};
use crate::router::ids_of;
use crate::text::{chars_of, is_prefix_of, starts_with};

verus! {

// ── URL whitelist ───────────────────────────────────────────────────

/// Whether `c` separates the parts of a URL: `/`, `?`, `#` or `:`.
pub open spec fn url_boundary(c: char) -> bool {
    c == '/' || c == '?' || c == '#' || c == ':'
}

/// Whether `url` continues a whitelisted `prefix` at a boundary: the prefix
/// is all of it, the prefix itself ends with a boundary character, or it
/// is followed by one.
pub open spec fn url_extends(url: Seq<char>, prefix: Seq<char>) -> bool {
    is_prefix_of(prefix, url) && (url.len() == prefix.len() || (prefix.len() > 0 && url_boundary(
        prefix.last(),
    )) || url_boundary(url[prefix.len() as int]))
}

/// Whether some whitelisted prefix allows `url`.
pub open spec fn url_allowed(url: Seq<char>, whitelist: Seq<Seq<char>>) -> bool {
    exists|i: int| 0 <= i < whitelist.len() && url_extends(url, whitelist[i])
}

/// Whether `url` is allowed by the whitelist of URL prefixes.  A prefix
/// allows only URLs that continue it at a boundary, so `https://api.x`
/// does not allow `https://api.x.evil`, while `https://api.x/` allows
/// every path below it.
pub fn is_url_allowed(url: &str, whitelist: &Vec<String>) -> (b: bool)
    ensures
        b == url_allowed(url@, ids_of(whitelist@)),
{
    let uc = chars_of(url);
    let mut i: usize = 0;
    while i < whitelist.len()
        invariant
            i <= whitelist.len(),
            uc@ == url@,
            forall|j: int| 0 <= j < i ==> !url_extends(url@, ids_of(whitelist@)[j]),
        decreases whitelist.len() - i,
    {
        let prefix = whitelist[i].as_str();
        assert(ids_of(whitelist@)[i as int] == prefix@);
        if starts_with(url, prefix) {
            let n = prefix.unicode_len();
            if n == uc.len() {
                return true;
            }
            if n > 0 {
                let last = uc[n - 1];
                assert(prefix@.last() == url@[n - 1]);
                if last == '/' || last == '?' || last == '#' || last == ':' {
                    return true;
                }
            }
            let c = uc[n];
            if c == '/' || c == '?' || c == '#' || c == ':' {
                return true;
            }
        }
        i += 1;
    }
    false
}

// ── Writing a response into agent memory ────────────────────────────

/// How a response of `total` bytes is written into a buffer of
/// `resp_max` bytes: how many bytes are written, and the code returned to
/// the agent (the length, negated when the response was truncated).
pub open spec fn response_window_spec(total: usize, resp_max: i32) -> (usize, i32) {
    if resp_max >= 0 && total > resp_max {
        (if resp_max > 0 { resp_max as usize } else { 0 }, -(total as int) as i32)
    } else {
        (total, total as i32)
    }
}

/// How a response of `total` bytes is written into the agent's buffer of
/// `resp_max` bytes: the number of leading bytes written and the code
/// returned to the agent.
pub fn response_window(total: usize, resp_max: i32) -> (r: (usize, i32))
    requires
        total <= i32::MAX,
    ensures
        r == response_window_spec(total, resp_max),
        r.0 <= total,
        resp_max >= 0 ==> r.0 <= resp_max,
{
    if resp_max >= 0 && total > resp_max as usize {
        let write = if resp_max > 0 { resp_max as usize } else { 0 };
        (write, -(total as i32))
    } else {
        (total, total as i32)
    }
}

/// How many bytes of a pending inbox message of `len` bytes are copied
/// into the agent's buffer of `buf_max` bytes.
pub fn inbox_copy_len(len: i32, buf_max: i32) -> (r: i32)
    requires
        len >= 0,
        buf_max >= 0 || len <= buf_max,
    ensures
        r == if len <= buf_max { len } else { buf_max },
        0 <= r <= len,
{
    if len <= buf_max { len } else { buf_max }
}

// ── Environment variables ───────────────────────────────────────────

/// The value of `key` in `env`: that of its first pair, if any.
pub open spec fn env_value(env: Seq<(Seq<char>, Seq<char>)>, key: Seq<char>) -> Option<Seq<char>>
    decreases env.len(),
{
    if env.len() == 0 {
        None
    } else if env[0].0 == key {
        Some(env[0].1)
    } else {
        env_value(env.drop_first(), key)
    }
}

/// The value of `key` in `env`.
pub fn env_lookup(env: &Vec<(String, String)>, key: &str) -> (r: Option<String>)
    ensures
        opt_view(r) == env_value(pairs_view(env@), key@),
{
    let k = String::from_str(key);
    let mut i: usize = 0;
    assert(pairs_view(env@).skip(0) =~= pairs_view(env@));
    while i < env.len()
        invariant
            i <= env.len(),
            k@ == key@,
            env_value(pairs_view(env@), key@) == env_value(pairs_view(env@).skip(i as int), key@),
        decreases env.len() - i,
    {
        let ghost rest = pairs_view(env@).skip(i as int);
        assert(rest[0] == (env@[i as int].0@, env@[i as int].1@));
        if env[i].0 == k {
            return Some(env[i].1.clone());
        }
        assert(rest.drop_first() =~= pairs_view(env@).skip(i + 1));
        i += 1;
    }
    None
}

/// The bytes `cage_env_get` writes for a value: its UTF-8 encoding and a
/// terminating NUL.
pub fn env_value_bytes(value: &String) -> (r: Vec<u8>)
    ensures
        r@ == encode_utf8(value@).push(0u8),
{
    let mut r = value.as_str().as_bytes_vec();
    r.push(0u8);
    r
}

// ── HTTP requests ───────────────────────────────────────────────────

/// The HTTP methods an agent may use.
#[derive(Debug, Clone, Copy, PartialEq, Eq, Structural)]
pub enum HttpMethod {
    Get,
    Post,
    Put,
    Patch,
    Delete,
    Head,
    Options,
}

impl HttpMethod {
    /// Whether requests of this method carry the request's `body`.
    pub open spec fn has_body_spec(self) -> bool {
        self == HttpMethod::Post || self == HttpMethod::Put || self == HttpMethod::Patch
    }

    pub fn has_body(&self) -> (b: bool)
        ensures
            b == self.has_body_spec(),
    {
        match self {
            HttpMethod::Post | HttpMethod::Put | HttpMethod::Patch => true,
            _ => false,
        }
    }
}

/// The method a name stands for.
pub open spec fn method_named(name: Seq<char>) -> Option<HttpMethod> {
    if name == "GET"@ {
        Some(HttpMethod::Get)
    } else if name == "POST"@ {
        Some(HttpMethod::Post)
    } else if name == "PUT"@ {
        Some(HttpMethod::Put)
    } else if name == "PATCH"@ {
        Some(HttpMethod::Patch)
    } else if name == "DELETE"@ {
        Some(HttpMethod::Delete)
    } else if name == "HEAD"@ {
        Some(HttpMethod::Head)
    } else if name == "OPTIONS"@ {
        Some(HttpMethod::Options)
    } else {
        None
    }
}

/// The method a name stands for (exact upper-case names only).
pub fn parse_http_method(name: &str) -> (r: Option<HttpMethod>)
    ensures
        r == method_named(name@),
{
    if crate::text::same_text(name, "GET") {
        Some(HttpMethod::Get)
    } else if crate::text::same_text(name, "POST") {
        Some(HttpMethod::Post)
    } else if crate::text::same_text(name, "PUT") {
        Some(HttpMethod::Put)
    } else if crate::text::same_text(name, "PATCH") {
        Some(HttpMethod::Patch)
    } else if crate::text::same_text(name, "DELETE") {
        Some(HttpMethod::Delete)
    } else if crate::text::same_text(name, "HEAD") {
        Some(HttpMethod::Head)
    } else if crate::text::same_text(name, "OPTIONS") {
        Some(HttpMethod::Options)
    } else {
        None
    }
}

/// What to do with an agent's HTTP request.
#[derive(Debug)]
pub enum HttpPlan {
    /// The request is not JSON or names no URL: answer -1.
    Invalid,
    /// The URL is not whitelisted: write the response `text`.
    Denied { text: String },
    /// The method is not supported: write the response `text`.
    Unsupported { text: String },
    /// Perform the request.  `request` is the compact JSON of the whole
    /// request (its `headers` member gives the headers).
    Send { method: HttpMethod, url: String, body: String, request: String },
}

/// The response text for an error: `{"error":…,"status":0}`.
pub open spec fn error_response_spec(message: Seq<char>) -> Seq<char> {
    "{\"error\":"@ + json_quoted(message) + ",\"status\":0}"@
}

/// The response written when a request fails before or during transfer.
pub fn error_response(message: &str) -> (r: String)
    ensures
        r@ == error_response_spec(message@),
{
    let mut r = String::from_str("{\"error\":");
    let q = quote(message);
    r.append(q.as_str());
    r.append(",\"status\":0}");
    r
}

/// The plan for a request whose JSON text is `text`, whatever it is.
pub open spec fn http_plan_for(text: Seq<char>, whitelist: Seq<Seq<char>>) -> HttpPlanView {
    match json_string_member(text, "url"@) {
        None => HttpPlanView::Invalid,
        Some(url) => {
            let method = match json_string_member(text, "method"@) {
                Some(m) => m,
                None => "GET"@,
            };
            if !url_allowed(url, whitelist) {
                HttpPlanView::Denied { text: error_response_spec("URL not allowed"@) }
            } else {
                match method_named(method) {
                    None => HttpPlanView::Unsupported {
                        text: error_response_spec("unsupported method: "@ + method),
                    },
                    Some(m) => HttpPlanView::Send {
                        method: m,
                        url,
                        body: if m.has_body_spec() {
                            match json_string_member(text, "body"@) {
                                Some(b) => b,
                                None => Seq::empty(),
                            }
                        } else {
                            Seq::empty()
                        },
                        request: text,
                    },
                }
            }
        },
    }
}

/// Law: what becomes of an agent's HTTP request.  It is sent exactly when
/// its JSON names a whitelisted `url` and a known method (`GET` when it
/// names none); the plan carries that URL, that method and the whole
/// request text; a request with a body (POST, PUT, PATCH) sends the
/// request's string `body` (empty when there is none), and the others send
/// an empty body.  A request without a `url` string is invalid, one whose
/// URL is not whitelisted is denied, and one with another method is
/// refused as unsupported.
pub proof fn law_http_plan(text: Seq<char>, whitelist: Seq<Seq<char>>)
    ensures
        ({
            let plan = http_plan_for(text, whitelist);
            let method_name = match json_string_member(text, "method"@) {
                Some(m) => m,
                None => "GET"@,
            };
            let sent_body = match json_string_member(text, "body"@) {
                Some(b) => b,
                None => Seq::<char>::empty(),
            };
            &&& json_string_member(text, "url"@) is None <==> plan is Invalid
            &&& (plan is Denied) <==> (json_string_member(text, "url"@) matches Some(u) && !url_allowed(u, whitelist))
            &&& plan matches HttpPlanView::Send { method, url, body, request } ==> {
                &&& json_string_member(text, "url"@) == Some(url)
                &&& url_allowed(url, whitelist)
                &&& method_named(method_name) == Some(method)
                &&& request == text
                &&& (method == HttpMethod::Post || method == HttpMethod::Put || method == HttpMethod::Patch) ==> body
                    == sent_body
                &&& (method == HttpMethod::Get || method == HttpMethod::Delete || method == HttpMethod::Head || method
                    == HttpMethod::Options) ==> body.len() == 0
            }
            &&& (json_string_member(text, "url"@) matches Some(u) && url_allowed(u, whitelist) && method_named(
                method_name,
            ) is Some) ==> plan is Send
            &&& (json_string_member(text, "url"@) matches Some(u) && url_allowed(u, whitelist) && method_named(
                method_name,
            ) is None) ==> plan is Unsupported
        }),
{
}

/// Law: the method names a request may use, each for its method; any
/// other name is none.
pub proof fn law_method_names(name: Seq<char>)
    ensures
        method_named("GET"@) == Some(HttpMethod::Get),
        method_named("POST"@) == Some(HttpMethod::Post),
        method_named("PUT"@) == Some(HttpMethod::Put),
        method_named("PATCH"@) == Some(HttpMethod::Patch),
        method_named("DELETE"@) == Some(HttpMethod::Delete),
        method_named("HEAD"@) == Some(HttpMethod::Head),
        method_named("OPTIONS"@) == Some(HttpMethod::Options),
        name != "GET"@ && name != "POST"@ && name != "PUT"@ && name != "PATCH"@ && name != "DELETE"@ && name
            != "HEAD"@ && name != "OPTIONS"@ ==> method_named(name) is None,
{
    reveal_strlit("GET");
    reveal_strlit("POST");
    reveal_strlit("PUT");
    reveal_strlit("PATCH");
    reveal_strlit("DELETE");
    reveal_strlit("HEAD");
    reveal_strlit("OPTIONS");
    assert("GET"@.len() == 3 && "PUT"@.len() == 3);
    assert("POST"@.len() == 4 && "HEAD"@.len() == 4);
    assert("PATCH"@.len() == 5 && "DELETE"@.len() == 6 && "OPTIONS"@.len() == 7);
    assert("PUT"@[0] != "GET"@[0]);
    assert("HEAD"@[0] != "POST"@[0]);
}

/// The value an `HttpPlan` stands for.
pub enum HttpPlanView {
    Invalid,
    Denied { text: Seq<char> },
    Unsupported { text: Seq<char> },
    Send { method: HttpMethod, url: Seq<char>, body: Seq<char>, request: Seq<char> },
}

impl View for HttpPlan {
    type V = HttpPlanView;

    open spec fn view(&self) -> HttpPlanView {
        match self {
            HttpPlan::Invalid => HttpPlanView::Invalid,
            HttpPlan::Denied { text } => HttpPlanView::Denied { text: text@ },
            HttpPlan::Unsupported { text } => HttpPlanView::Unsupported { text: text@ },
            HttpPlan::Send { method, url, body, request } => HttpPlanView::Send {
                method: *method,
                url: url@,
                body: body@,
                request: request@,
            },
        }
    }
}

/// Decide what to do with the bytes of an agent's HTTP request: it must be
/// JSON naming a `url`; the `method` defaults to `GET`; the URL must be
/// whitelisted; the method must be one that `parse_http_method` knows; POST, PUT
/// and PATCH send the request's `body` string (empty when absent).
pub fn plan_http_request(request: &[u8], whitelist: &Vec<String>) -> (r: HttpPlan)
    ensures
        r@ == match json_compact(request@) {
            None => HttpPlanView::Invalid,
            Some(text) => http_plan_for(text, ids_of(whitelist@)),
        },
{
    let text = match compact(request) {
        Some(t) => t,
        None => {
            return HttpPlan::Invalid;
        },
    };
    let url = match string_member(text.as_str(), "url") {
        Some(u) => u,
        None => {
            return HttpPlan::Invalid;
        },
    };
    let method = match string_member(text.as_str(), "method") {
        Some(m) => m,
        None => String::from_str("GET"),
    };
    if !is_url_allowed(url.as_str(), whitelist) {
        return HttpPlan::Denied { text: error_response("URL not allowed") };
    }
    match parse_http_method(method.as_str()) {
        None => {
            let mut message = String::from_str("unsupported method: ");
            message.append(method.as_str());
            HttpPlan::Unsupported { text: error_response(message.as_str()) }
        },
        Some(m) => {
            let body = if m.has_body() {
                match string_member(text.as_str(), "body") {
                    Some(b) => b,
                    None => String::new(),
                }
            } else {
                String::new()
            };
            HttpPlan::Send { method: m, url, body, request: text }
        },
    }
}

// ── HTTP headers and replies ────────────────────────────────────────

/// The string-valued members of a list of members, in order: the headers
/// a request asks for (members with other values are left out).
pub open spec fn string_headers(m: Seq<(Seq<char>, Option<Seq<char>>)>) -> Seq<(Seq<char>, Seq<char>)>
    decreases m.len(),
{
    if m.len() == 0 {
        Seq::empty()
    } else {
        let rest = string_headers(m.drop_last());
        match m.last().1 {
            Some(v) => rest.push((m.last().0, v)),
            None => rest,
        }
    }
}

/// The headers among `members`: those whose value is a string, in order.
pub fn string_headers_of(members: &Vec<(String, Option<String>)>) -> (r: Vec<(String, String)>)
    ensures
        pairs_view(r@) == string_headers(members_view(members@)),
{
    let ghost m = members_view(members@);
    let mut r: Vec<(String, String)> = Vec::new();
    let mut i: usize = 0;
    assert(m.take(0) =~= Seq::<(Seq<char>, Option<Seq<char>>)>::empty());
    assert(pairs_view(r@) =~= Seq::<(Seq<char>, Seq<char>)>::empty());
    while i < members.len()
        invariant
            i <= members.len(),
            m == members_view(members@),
            pairs_view(r@) == string_headers(m.take(i as int)),
        decreases members.len() - i,
    {
        proof {
            assert(m.take(i + 1).drop_last() =~= m.take(i as int));
            assert(m.take(i + 1).last() == m[i as int]);
            assert(m[i as int] == (members@[i as int].0@, opt_view(members@[i as int].1)));
        }
        match &members[i].1 {
            Some(v) => {
                let ghost before = r@;
                r.push((members[i].0.clone(), v.clone()));
                assert(pairs_view(r@) =~= pairs_view(before).push((members@[i as int].0@, v@)));
            },
            None => {},
        }
        i += 1;
    }
    assert(m.take(members.len() as int) =~= m);
    r
}

/// The headers an agent's HTTP request asks to send: the string-valued
/// members of the object `headers` of its JSON text `request`.
pub fn request_headers(request: &str) -> (r: Vec<(String, String)>)
    ensures
        pairs_view(r@) == string_headers(json_object_members(request@, "headers"@)),
{
    let members = object_members(request, "headers");
    string_headers_of(&members)
}

/// The reply to a request that got a response: the JSON object
/// `{"body":…,"headers":{…},"status":…}` with its members in key order, as
/// `serde_json` writes a map; the headers object is that of `string_map`
/// (sorted by name, the last value of each name).
pub open spec fn http_reply_spec(status: u16, headers: Seq<(Seq<char>, Seq<char>)>, body: Seq<char>) -> Seq<char> {
    "{\"body\":"@ + json_quoted(body) + ",\"headers\":"@ + json_string_object(string_map(headers)) + ",\"status\":"@
        + decimal_text(status as nat) + "}"@
}

/// The text written back to an agent whose request got a response with
/// this status, these headers (in the order received) and this body.
pub fn http_reply_text(status: u16, headers: &Vec<(String, String)>, body: &str) -> (r: String)
    ensures
        r@ == http_reply_spec(status, pairs_view(headers@), body@),
{
    let mut r = String::from_str("{\"body\":");
    let b = quote(body);
    r.append(b.as_str());
    r.append(",\"headers\":");
    let h = string_object(headers);
    r.append(h.as_str());
    r.append(",\"status\":");
    let n = number_text(status);
    r.append(n.as_str());
    r.append("}");
    r
}

// ── Peer messages ───────────────────────────────────────────────────

/// The payload text of a peer message: `{"from":…,"payload":…,"to":…}`.
pub open spec fn peer_payload(from: Seq<char>, to: Seq<char>, payload: Seq<char>) -> Seq<char> {
    "{\"from\":"@ + json_quoted(from) + ",\"payload\":"@ + payload + ",\"to\":"@ + json_quoted(to) + "}"@
}

/// What `cage_peer_send` does with a request.
#[derive(Debug)]
pub enum PeerSend {
    /// Queue this message in the sender's outbox (code 0).
    Queued(AgentMessage),
    /// The target is empty (code -1).
    BadTarget,
    /// The payload is not JSON (code -2).
    BadPayload,
}

impl PeerSend {
    /// The code returned to the agent.
    pub fn code(&self) -> (c: i32)
        ensures
            c == match self {
                PeerSend::Queued(_) => 0i32,
                PeerSend::BadTarget => -1i32,
                PeerSend::BadPayload => -2i32,
            },
    {
        match self {
            PeerSend::Queued(_) => 0,
            PeerSend::BadTarget => -1,
            PeerSend::BadPayload => -2,
        }
    }
}

/// Build the peer message that `from` sends to `target` with the payload
/// bytes `payload`: an empty target or a payload that is not JSON is
/// refused; otherwise the message is of kind `peer` and carries sender,
/// target and payload.
pub fn peer_send(from: &str, target: &str, payload: &[u8]) -> (r: PeerSend)
    ensures
        target@.len() == 0 ==> r is BadTarget,
        target@.len() != 0 && json_compact(payload@) is None ==> r is BadPayload,
        target@.len() != 0 && json_compact(payload@) is Some ==> (r matches PeerSend::Queued(m) && m.kind@ == "peer"@
            && m.payload@ == peer_payload(from@, target@, json_compact(payload@)->0)),
{
    if target.is_empty() {
        return PeerSend::BadTarget;
    }
    let body = match compact(payload) {
        Some(b) => b,
        None => {
            return PeerSend::BadPayload;
        },
    };
    let mut text = String::from_str("{\"from\":");
    let qf = quote(from);
    text.append(qf.as_str());
    text.append(",\"payload\":");
    text.append(body.as_str());
    text.append(",\"to\":");
    let qt = quote(target);
    text.append(qt.as_str());
    text.append("}");
    PeerSend::Queued(AgentMessage { kind: String::from_str("peer"), payload: text })
}

// ── The single-agent sandbox ────────────────────────────────────────

/// The state of the agent loaded in a sandbox: the environment and
/// whitelist it was loaded with, and its fuel and tick counters.
#[derive(Debug)]
pub struct SandboxAgent {
    pub env: Vec<(String, String)>,
    pub allowed_urls: Vec<String>,
    pub fuel_consumed: u64,
    pub tick_count: u32,
}

/// A single-agent sandbox: the environment and URL whitelist given to the
/// next agent loaded, and the loaded agent, if any.
#[derive(Debug)]
pub struct Sandbox {
    env: Vec<(String, String)>,
    allowed_urls: Vec<String>,
    agent: Option<SandboxAgent>,
}

/// The value a `Sandbox` stands for.
pub struct SandboxView {
    pub env: Seq<(Seq<char>, Seq<char>)>,
    pub allowed_urls: Seq<Seq<char>>,
    /// The loaded agent, if any.
    pub agent: Option<LoadedView>,
}

/// The value a `SandboxAgent` stands for.
pub struct LoadedView {
    pub env: Seq<(Seq<char>, Seq<char>)>,
    pub allowed_urls: Seq<Seq<char>>,
    pub fuel_consumed: u64,
    pub tick_count: u32,
}

/// `env` with `key` set to `value`: the pair with that key is replaced in
/// place, or the pair appended.
pub open spec fn env_set(env: Seq<(Seq<char>, Seq<char>)>, key: Seq<char>, value: Seq<char>) -> Seq<(Seq<char>, Seq<char>)> {
    if exists|i: int| 0 <= i < env.len() && env[i].0 == key {
        let i = choose|i: int| 0 <= i < env.len() && env[i].0 == key;
        env.update(i, (key, value))
    } else {
        env.push((key, value))
    }
}

/// No key occurs twice.
pub open spec fn distinct_keys(env: Seq<(Seq<char>, Seq<char>)>) -> bool {
    forall|i: int, j: int| 0 <= i < env.len() && 0 <= j < env.len() && i != j ==> env[i].0 != env[j].0
}

/// The value of a key is that of the first pair holding it.
proof fn lemma_env_value_index(env: Seq<(Seq<char>, Seq<char>)>, key: Seq<char>, i: int)
    requires
        0 <= i < env.len(),
        env[i].0 == key,
        forall|j: int| 0 <= j < i ==> env[j].0 != key,
    ensures
        env_value(env, key) == Some(env[i].1),
    decreases i,
{
    if i > 0 {
        let rest = env.drop_first();
        assert forall|j: int| 0 <= j < i - 1 implies rest[j].0 != key by {
            assert(rest[j] == env[j + 1]);
        }
        lemma_env_value_index(rest, key, i - 1);
    }
}

/// Two lists with the same keys at the same places and the same value
/// wherever the key is `key` give `key` the same value.
proof fn lemma_env_value_same(e1: Seq<(Seq<char>, Seq<char>)>, e2: Seq<(Seq<char>, Seq<char>)>, key: Seq<char>)
    requires
        e1.len() == e2.len(),
        forall|j: int| 0 <= j < e1.len() ==> (#[trigger] e1[j]).0 == e2[j].0,
        forall|j: int| 0 <= j < e1.len() && e1[j].0 == key ==> e1[j].1 == e2[j].1,
    ensures
        env_value(e1, key) == env_value(e2, key),
    decreases e1.len(),
{
    if e1.len() > 0 {
        let r1 = e1.drop_first();
        let r2 = e2.drop_first();
        assert forall|j: int| 0 <= j < r1.len() implies (#[trigger] r1[j]).0 == r2[j].0 by {
            assert(r1[j] == e1[j + 1] && r2[j] == e2[j + 1]);
        }
        assert forall|j: int| 0 <= j < r1.len() && r1[j].0 == key implies r1[j].1 == r2[j].1 by {
            assert(r1[j] == e1[j + 1] && r2[j] == e2[j + 1]);
        }
        lemma_env_value_same(r1, r2, key);
        assert(e1[0].0 == e2[0].0);
    }
}

/// Appending a pair does not change the value of another key.
proof fn lemma_env_value_push(env: Seq<(Seq<char>, Seq<char>)>, key: Seq<char>, value: Seq<char>, other: Seq<char>)
    requires
        other != key,
    ensures
        env_value(env.push((key, value)), other) == env_value(env, other),
    decreases env.len(),
{
    let e = env.push((key, value));
    if env.len() > 0 {
        assert(e.drop_first() =~= env.drop_first().push((key, value)));
        lemma_env_value_push(env.drop_first(), key, value, other);
        assert(e[0] == env[0]);
        if env[0].0 != other {
            assert(env_value(e, other) == env_value(e.drop_first(), other));
            assert(env_value(env, other) == env_value(env.drop_first(), other));
        }
    } else {
        assert(e.drop_first() =~= Seq::<(Seq<char>, Seq<char>)>::empty());
        assert(env_value(e.drop_first(), other) is None);
        assert(env_value(e, other) == env_value(e.drop_first(), other));
    }
}

/// Law: reading a variable gives back what was last written to it, and
/// writing one variable leaves every other one as it was; keys stay distinct.
pub proof fn law_env_read_after_write(
    env: Seq<(Seq<char>, Seq<char>)>,
    key: Seq<char>,
    value: Seq<char>,
    other: Seq<char>,
)
    requires
        distinct_keys(env),
        other != key,
    ensures
        env_value(env_set(env, key, value), key) == Some(value),
        env_value(env_set(env, key, value), other) == env_value(env, other),
        distinct_keys(env_set(env, key, value)),
{
    let e = env_set(env, key, value);
    if exists|i: int| 0 <= i < env.len() && env[i].0 == key {
        let i = choose|i: int| 0 <= i < env.len() && env[i].0 == key;
        assert forall|j: int| 0 <= j < i implies e[j].0 != key by {
            assert(env[j].0 != env[i].0);
        }
        lemma_env_value_index(e, key, i);
        assert forall|j: int| 0 <= j < env.len() implies (#[trigger] env[j]).0 == e[j].0 by {}
        lemma_env_value_same(env, e, other);
        assert forall|p: int, q: int| 0 <= p < e.len() && 0 <= q < e.len() && p != q implies e[p].0 != e[q].0 by {
            assert(env[p].0 != env[q].0);
        }
    } else {
        assert forall|j: int| 0 <= j < env.len() implies e[j].0 != key by {
            assert(e[j] == env[j]);
        }
        lemma_env_value_index(e, key, env.len() as int);
        lemma_env_value_push(env, key, value, other);
        assert forall|p: int, q: int| 0 <= p < e.len() && 0 <= q < e.len() && p != q implies e[p].0 != e[q].0 by {
            if p < env.len() && q < env.len() {
                assert(env[p].0 != env[q].0);
            }
        }
    }
}

impl View for Sandbox {
    type V = SandboxView;

    closed spec fn view(&self) -> SandboxView {
        SandboxView {
            env: pairs_view(self.env@),
            allowed_urls: ids_of(self.allowed_urls@),
            agent: match self.agent {
                Some(a) => Some(
                    LoadedView {
                        env: pairs_view(a.env@),
                        allowed_urls: ids_of(a.allowed_urls@),
                        fuel_consumed: a.fuel_consumed,
                        tick_count: a.tick_count,
                    },
                ),
                None => None,
            },
        }
    }
}

impl Sandbox {
    /// The sandbox's consistency: environment keys are distinct.
    pub closed spec fn wf(&self) -> bool {
        distinct_keys(pairs_view(self.env@))
    }

    /// An empty sandbox: no environment, no whitelist, no agent.
    pub fn new() -> (r: Self)
        ensures
            r.wf(),
            r@.env == Seq::<(Seq<char>, Seq<char>)>::empty(),
            r@.allowed_urls == Seq::<Seq<char>>::empty(),
            r@.agent is None,
    {
        let r = Sandbox { env: Vec::new(), allowed_urls: Vec::new(), agent: None };
        assert(r@.env =~= Seq::<(Seq<char>, Seq<char>)>::empty());
        assert(r@.allowed_urls =~= Seq::<Seq<char>>::empty());
        r
    }

    /// Set an environment variable for agents loaded from now on.
    pub fn set_env(&mut self, key: String, value: String)
        requires
            old(self).wf(),
        ensures
            final(self).wf(),
            final(self)@ == (SandboxView { env: env_set(old(self)@.env, key@, value@), ..old(self)@ }),
    {
        let ghost old_env = pairs_view(self.env@);
        let ghost old_self = self@;
        let mut i: usize = 0;
        while i < self.env.len()
            invariant
                i <= self.env.len(),
                old_env == pairs_view(self.env@),
                distinct_keys(old_env),
                old_self == self@,
                old_self == old(self)@,
                forall|j: int| 0 <= j < i ==> old_env[j].0 != key@,
            decreases self.env.len() - i,
        {
            assert(old_env[i as int] == (self.env@[i as int].0@, self.env@[i as int].1@));
            if self.env[i].0 == key {
                proof {
                    assert(old_env[i as int].0 == key@);
                    let k = choose|k: int| 0 <= k < old_env.len() && old_env[k].0 == key@;
                    assert(k == i) by {
                        if k != i {
                            assert(old_env[k].0 != old_env[i as int].0);
                        }
                    }
                }
                self.env.set(i, (key, value));
                proof {
                    assert(pairs_view(self.env@) =~= old_env.update(i as int, (key@, value@)));
                    let e = pairs_view(self.env@);
                    assert forall|p: int, q: int| 0 <= p < e.len() && 0 <= q < e.len() && p != q implies e[p].0 != e[q].0 by {
                        assert(old_env[p].0 != old_env[q].0);
                    }
                    assert(env_set(old_env, key@, value@) == old_env.update(i as int, (key@, value@)));
                    assert(self@ == (SandboxView { env: env_set(old_env, key@, value@), ..old_self }));
                }
                return;
            }
            i += 1;
        }
        self.env.push((key, value));
        proof {
            assert(pairs_view(self.env@) =~= old_env.push((key@, value@)));
            assert(!(exists|j: int| 0 <= j < old_env.len() && old_env[j].0 == key@));
            let e = pairs_view(self.env@);
            assert forall|p: int, q: int| 0 <= p < e.len() && 0 <= q < e.len() && p != q implies e[p].0 != e[q].0 by {
                if p < old_env.len() && q < old_env.len() {
                    assert(old_env[p].0 != old_env[q].0);
                }
            }
        }
    }

    /// Allow agents loaded from now on to reach URLs under `url`.
    pub fn allow_url(&mut self, url: String)
        requires
            old(self).wf(),
        ensures
            final(self).wf(),
            final(self)@ == (SandboxView { allowed_urls: old(self)@.allowed_urls.push(url@), ..old(self)@ }),
    {
        let ghost old_urls = self.allowed_urls@;
        self.allowed_urls.push(url);
        assert(ids_of(self.allowed_urls@) =~= ids_of(old_urls).push(url@));
    }

    /// The environment given to agents loaded from now on.
    pub fn env(&self) -> (r: &Vec<(String, String)>)
        ensures
            pairs_view(r@) == self@.env,
    {
        &self.env
    }

    /// The whitelist given to agents loaded from now on.
    pub fn allowed_urls(&self) -> (r: &Vec<String>)
        ensures
            ids_of(r@) == self@.allowed_urls,
    {
        &self.allowed_urls
    }

    /// Whether an agent is loaded.
    pub fn is_loaded(&self) -> (b: bool)
        ensures
            b == self@.agent is Some,
    {
        self.agent.is_some()
    }

    /// Record that an agent was loaded: it gets the current environment and
    /// whitelist, and its counters start at zero.
    pub fn load_agent(&mut self)
        requires
            old(self).wf(),
        ensures
            final(self).wf(),
            final(self)@ == (SandboxView {
                agent: Some(LoadedView { env: old(self)@.env, allowed_urls: old(self)@.allowed_urls, fuel_consumed: 0, tick_count: 0 }),
                ..old(self)@
            }),
    {
        let agent = SandboxAgent {
            env: copy_pairs(&self.env),
            allowed_urls: copy_strings(&self.allowed_urls),
            fuel_consumed: 0,
            tick_count: 0,
        };
        self.agent = Some(agent);
    }

    /// The loaded agent's environment.
    pub fn agent_env(&self) -> (r: &Vec<(String, String)>)
        requires
            self@.agent is Some,
        ensures
            pairs_view(r@) == self@.agent->0.env,
    {
        &self.agent.as_ref().unwrap().env
    }

    /// The loaded agent's whitelist.
    pub fn agent_allowed_urls(&self) -> (r: &Vec<String>)
        requires
            self@.agent is Some,
        ensures
            ids_of(r@) == self@.agent->0.allowed_urls,
    {
        &self.agent.as_ref().unwrap().allowed_urls
    }

    /// The loaded agent's fuel consumed and tick count.
    pub fn stats(&self) -> (r: (u64, u32))
        requires
            self@.agent is Some,
        ensures
            r.0 == self@.agent->0.fuel_consumed,
            r.1 == self@.agent->0.tick_count,
    {
        let a = self.agent.as_ref().unwrap();
        (a.fuel_consumed, a.tick_count)
    }

    /// Count the fuel burnt by the agent's init call.
    pub fn record_init(&mut self, fuel_before: u64, fuel_after: u64)
        requires
            old(self).wf(),
            old(self)@.agent is Some,
            old(self)@.agent->0.fuel_consumed + crate::orchestrator::saturating_diff(fuel_before, fuel_after) <= u64::MAX,
        ensures
            final(self).wf(),
            final(self)@ == (SandboxView {
                agent: Some(
                    LoadedView {
                        fuel_consumed: (old(self)@.agent->0.fuel_consumed + crate::orchestrator::saturating_diff(
                            fuel_before,
                            fuel_after,
                        )) as u64,
                        ..old(self)@.agent->0
                    },
                ),
                ..old(self)@
            }),
    {
        let mut a = self.agent.take().unwrap();
        a.fuel_consumed = a.fuel_consumed + fuel_before.saturating_sub(fuel_after);
        self.agent = Some(a);
    }

    /// Count the fuel burnt by one tick, and the tick.
    pub fn record_tick(&mut self, fuel_before: u64, fuel_after: u64)
        requires
            old(self).wf(),
            old(self)@.agent is Some,
            old(self)@.agent->0.fuel_consumed + crate::orchestrator::saturating_diff(fuel_before, fuel_after) <= u64::MAX,
            old(self)@.agent->0.tick_count < u32::MAX,
        ensures
            final(self).wf(),
            final(self)@ == (SandboxView {
                agent: Some(
                    LoadedView {
                        fuel_consumed: (old(self)@.agent->0.fuel_consumed + crate::orchestrator::saturating_diff(
                            fuel_before,
                            fuel_after,
                        )) as u64,
                        tick_count: (old(self)@.agent->0.tick_count + 1) as u32,
                        ..old(self)@.agent->0
                    },
                ),
                ..old(self)@
            }),
    {
        let mut a = self.agent.take().unwrap();
        a.fuel_consumed = a.fuel_consumed + fuel_before.saturating_sub(fuel_after);
        a.tick_count = a.tick_count + 1;
        self.agent = Some(a);
    }
}

} // verus!
