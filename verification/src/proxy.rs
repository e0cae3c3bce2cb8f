//! The local proxy: it hands requests on to the original upstream and swaps the credentials of
//! those that are charged.
use crate::accounts::Account;
use crate::choosing;
use crate::http;
use crate::http::Request;
use crate::number;
use crate::routing::Pool;
use crate::routing;
use crate::rules;
use crate::rules::Rules;
use crate::session;
use crate::table::Table;
use crate::text;
use vstd::prelude::*;
use vstd::slice::slice_subrange;
use vstd::string::*;

verus! {

/// How often a request is sent before a limit is handed on.
pub const FAILOVER_MAX_TRIES: usize = 3;

/// How many different requests are noted.
pub const MAX_TRACKED: usize = 400;

/// How often the settings are read again, in milliseconds.
pub const CONFIG_POLL: u64 = 500;

/// How often the lease of the endpoint override is renewed, in milliseconds.
pub const LEASE_HEARTBEAT: u64 = 30_000;

/// Something for the journal.
pub struct Note {
    pub event: String,
    pub detail: String,
    /// Whether it is left out where the newest entry says the same.
    pub dedup: bool,
}

/// What a note is.
#[verifier::ext_equal]
pub struct NoteV {
    pub event: Seq<char>,
    pub detail: Seq<char>,
    pub dedup: bool,
}

impl View for Note {
    type V = NoteV;

    open spec fn view(&self) -> NoteV {
        NoteV { event: self.event@, detail: self.detail@, dedup: self.dedup }
    }
}

/// The view of an optional note.
pub open spec fn opt_note(n: Option<Note>) -> Option<NoteV> {
    match n {
        Some(x) => Some(x@),
        None => None,
    }
}

pub(crate) fn note(event: &str, detail: String, dedup: bool) -> (r: Note)
    ensures
        r@ == (NoteV { event: event@, detail: detail@, dedup }),
{
    Note { event: event.to_owned(), detail, dedup }
}

// ---------------------------------------------------------------------------
// Listening
// ---------------------------------------------------------------------------

/// Whether the proxy listens.
pub struct ProxyStatus {
    pub active: bool,
    pub port: u16,
    pub error: Option<String>,
}

impl Clone for ProxyStatus {
    fn clone(&self) -> (r: Self)
        ensures
            r == *self,
    {
        ProxyStatus { active: self.active, port: self.port, error: text::clone_opt(&self.error) }
    }
}

impl Default for ProxyStatus {
    fn default() -> (r: Self)
        ensures
            !r.active,
            r.port == 0,
            r.error is None,
    {
        ProxyStatus { active: false, port: 0, error: None }
    }
}

/// The status that is shown: the current one, or that of a proxy that does not run where the
/// current one cannot be read.
pub fn status(current: Option<&ProxyStatus>) -> (r: ProxyStatus)
    ensures
        match current {
            Some(s) => r == *s,
            None => !r.active && r.port == 0 && r.error is None,
        },
{
    match current {
        Some(s) => s.clone(),
        None => ProxyStatus::default(),
    }
}

/// What the settings ask for.
pub enum ListenPlan {
    /// Wait for this number of milliseconds and ask again.
    Idle(u64),
    /// Listen on this port.
    Bind(u16),
}

/// Decides what to do by the settings; `enabled` is none where they cannot be found.
pub fn listen_plan(enabled: Option<bool>, port: u16) -> (r: ListenPlan)
    ensures
        r == (match enabled {
            None => ListenPlan::Idle(2000),
            Some(false) => ListenPlan::Idle(500),
            Some(true) => ListenPlan::Bind(port),
        }),
{
    match enabled {
        None => ListenPlan::Idle(2000),
        Some(on) => if on {
            ListenPlan::Bind(port)
        } else {
            ListenPlan::Idle(500)
        },
    }
}

/// The status of a proxy that listens.
pub fn listening(port: u16) -> (r: ProxyStatus)
    ensures
        r.active,
        r.port == port,
        r.error is None,
{
    ProxyStatus { active: true, port, error: None }
}

/// The words for a port that cannot be listened on.
pub open spec fn bind_error_words(port: u16, busy: Option<Seq<char>>, error: Seq<char>) -> Seq<char> {
    match busy {
        Some(hint) => "端口 "@ + number::decimal(port as nat) + " "@ + hint,
        None => "端口 "@ + number::decimal(port as nat) + " 无法监听："@ + error,
    }
}

/// The status of a proxy that cannot listen; `busy` says who has the port, where it is taken.
pub fn bind_failed(port: u16, busy: Option<String>, error: &str) -> (r: ProxyStatus)
    ensures
        !r.active,
        r.port == port,
        text::opt_text(r.error) == Some(bind_error_words(port, text::opt_text(busy), error@)),
{
    let n = number::to_decimal(port as u64);
    let start = text::plus("端口 ".to_owned(), n.as_str());
    let message = match busy {
        Some(hint) => text::plus(text::plus(start, " "), hint.as_str()),
        None => text::plus(text::plus(start, " 无法监听："), error),
    };
    ProxyStatus { active: false, port, error: Some(message) }
}

/// A listening proxy: its port, and when it last looked at the settings and renewed the lease.
pub struct Listener {
    pub port: u16,
    pub last_config: u64,
    pub last_lease: u64,
}

/// At least `span` has passed since `since`.
pub open spec fn passed(since: u64, now: u64, span: u64) -> bool {
    now - since >= span
}

fn has_passed(since: u64, now: u64, span: u64) -> (r: bool)
    ensures
        r == passed(since, now, span),
{
    since <= now && now - since >= span
}

impl Listener {
    /// A proxy that begins to listen.
    pub fn new(port: u16, now: u64) -> (r: Self)
        ensures
            r.port == port,
            r.last_config == now,
            r.last_lease == now,
    {
        Listener { port, last_config: now, last_lease: now }
    }

    /// Whether it is time to look at the settings.
    pub fn config_due(&self, now: u64) -> (r: bool)
        ensures
            r == passed(self.last_config, now, CONFIG_POLL),
    {
        has_passed(self.last_config, now, CONFIG_POLL)
    }

    /// Takes the settings in. Tells whether to go on listening.
    pub fn config_seen(&mut self, now: u64, enabled: bool, port: u16) -> (r: bool)
        ensures
            r == (enabled && port == old(self).port),
            final(self).port == old(self).port,
            final(self).last_lease == old(self).last_lease,
            final(self).last_config == (if r {
                now
            } else {
                old(self).last_config
            }),
    {
        if !enabled || port != self.port {
            return false;
        }
        self.last_config = now;
        true
    }

    /// Whether to renew the lease now; then it counts as renewed.
    pub fn lease_due(&mut self, now: u64) -> (r: bool)
        ensures
            r == passed(old(self).last_lease, now, LEASE_HEARTBEAT),
            final(self).port == old(self).port,
            final(self).last_config == old(self).last_config,
            final(self).last_lease == (if r {
                now
            } else {
                old(self).last_lease
            }),
    {
        if has_passed(self.last_lease, now, LEASE_HEARTBEAT) {
            self.last_lease = now;
            true
        } else {
            false
        }
    }
}

// ---------------------------------------------------------------------------
// What a request is for
// ---------------------------------------------------------------------------

/// The prefixes of the paths that are charged.
pub open spec fn billing_paths() -> Seq<Seq<char>> {
    seq![
        "/api/remote/v1/chat_sessions"@,
        "/api/remote/v1/models"@,
        "/api/remote/v1/file_converts"@,
    ]
}

/// The prefixes of the paths that are charged.
pub fn billing_prefixes() -> (r: Vec<&'static str>)
    ensures
        rules::slices(r@) == billing_paths(),
{
    let mut v: Vec<&'static str> = Vec::new();
    v.push("/api/remote/v1/chat_sessions");
    v.push("/api/remote/v1/models");
    v.push("/api/remote/v1/file_converts");
    assert(rules::slices(v@) =~= billing_paths());
    v
}

/// The path is one whose conversation is named in the body.
pub open spec fn body_borne(path: Seq<char>) -> bool {
    text::starts_with(path, "/api/agent/v3/"@)
}

/// The host of a URL, in lower case.
pub open spec fn host_name(url: Seq<char>) -> Seq<char> {
    let rest = match text::find_from(url, "://"@, 0) {
        Some(i) => url.subrange(i + 3, url.len() as int),
        None => url,
    };
    let auth = text::before_char(text::before_char(rest, '/'), '?');
    text::ascii_lower(text::before_char(auth, ':'))
}

/// The host of a URL, for notes.
pub fn host_of(url: &str) -> (r: String)
    ensures
        r@ == host_name(url@),
{
    let chars = text::to_chars(url);
    let mark = text::to_chars("://");
    proof {
        reveal_strlit("://");
    }
    let n: usize = chars.len();
    let rest = match text::find(chars.as_slice(), mark.as_slice(), 0) {
        Some(i) => {
            assert(i + 3 <= n);
            slice_subrange(chars.as_slice(), i + 3, n)
        },
        None => chars.as_slice(),
    };
    let auth = text::head_before(text::head_before(rest, '/'), '?');
    text::to_text(text::lowered(text::head_before(auth, ':')).as_slice())
}

/// The key under which a request is noted.
pub open spec fn seen_key(method: Seq<char>, host: Seq<char>, bare: Seq<char>) -> Seq<char> {
    method + " "@ + host + " "@ + bare
}

/// What the rules make of a path, in a word.
pub open spec fn rule_word(r: Rules, bare: Seq<char>) -> Seq<char> {
    if r.observe_only {
        "观察"@
    } else if rules::swaps(r, bare, billing_paths()) {
        "换号"@
    } else {
        "透传"@
    }
}

/// Notes a request of a kind that was not seen before, as long as not too many kinds were seen.
pub fn note_path(
    seen: &mut Table<()>,
    rules: &Rules,
    method: &str,
    host: &str,
    bare: &str,
) -> (r: Option<Note>)
    ensures
        ({
            let key = seen_key(method@, host@, bare@);
            let new = old(seen)@.dom().len() < MAX_TRACKED && !old(seen)@.contains_key(key);
            &&& opt_note(r) == (if new {
                Some(
                    NoteV {
                        event: "proxy_path"@,
                        detail: "接管收到 ["@ + rule_word(*rules, bare@) + "] "@ + key,
                        dedup: false,
                    },
                )
            } else {
                None
            })
            &&& final(seen)@ == (if new {
                old(seen)@.insert(key, (0u64, ()))
            } else {
                old(seen)@
            })
        }),
{
    let a = text::plus(text::plus(method.to_owned(), " "), host);
    let key = text::plus(text::plus(a, " "), bare);
    if seen.len() >= MAX_TRACKED || seen.get(key.as_str()).is_some() {
        return None;
    }
    seen.put(key.clone(), 0, ());
    let builtin = billing_prefixes();
    let tag = if rules.observe_only {
        "观察"
    } else if rules.should_swap(bare, builtin.as_slice()) {
        "换号"
    } else {
        "透传"
    };
    let b = text::plus(text::plus("接管收到 [".to_owned(), tag), "] ");
    Some(note("proxy_path", text::plus(b, key.as_str()), false))
}

/// The header fields of a response that let a page of any origin read it.
pub open spec fn cors(headers: Seq<(Seq<char>, Seq<char>)>) -> Seq<(Seq<char>, Seq<char>)> {
    let origin = match http::find_header(headers, "origin"@) {
        Some(o) => o,
        None => "*"@,
    };
    let allowed = match http::find_header(headers, "access-control-request-headers"@) {
        Some(h) => h,
        None => "*"@,
    };
    seq![
        ("access-control-allow-origin"@, origin),
        ("access-control-allow-credentials"@, "true"@),
        ("access-control-allow-methods"@, "GET,POST,PUT,PATCH,DELETE,OPTIONS"@),
        ("access-control-allow-headers"@, allowed),
        ("access-control-expose-headers"@, "*"@),
        ("access-control-max-age"@, "600"@),
        ("vary"@, "Origin"@),
    ]
}

fn pair(name: &str, value: &str) -> (r: (String, String))
    ensures
        r.0@ == name@,
        r.1@ == value@,
{
    (name.to_owned(), value.to_owned())
}

/// The header fields of a response that let a page of any origin read it.
pub fn cors_headers(req: &Request) -> (r: Vec<(String, String)>)
    ensures
        http::headers_view(r@) == cors(req@.headers),
{
    let origin = match http::header_value(req, "origin") {
        Some(o) => o,
        None => "*",
    };
    let allowed = match http::header_value(req, "access-control-request-headers") {
        Some(h) => h,
        None => "*",
    };
    let mut v: Vec<(String, String)> = Vec::new();
    v.push(pair("access-control-allow-origin", origin));
    v.push(pair("access-control-allow-credentials", "true"));
    v.push(pair("access-control-allow-methods", "GET,POST,PUT,PATCH,DELETE,OPTIONS"));
    v.push(pair("access-control-allow-headers", allowed));
    v.push(pair("access-control-expose-headers", "*"));
    v.push(pair("access-control-max-age", "600"));
    v.push(pair("vary", "Origin"));
    assert(http::headers_view(v@) =~= cors(req@.headers));
    v
}

/// The header fields of a request that are handed on, in their order.
pub open spec fn forwarded(h: Seq<(Seq<char>, Seq<char>)>) -> Seq<(Seq<char>, Seq<char>)>
    decreases h.len(),
{
    if h.len() == 0 {
        Seq::empty()
    } else if http::request_hop(h.last().0) {
        forwarded(h.drop_last())
    } else {
        forwarded(h.drop_last()).push(h.last())
    }
}

/// The header fields of a request that are handed on.
pub fn forward_headers(req: &Request) -> (r: Vec<(String, String)>)
    ensures
        http::headers_view(r@) == forwarded(req@.headers),
{
    let mut out: Vec<(String, String)> = Vec::new();
    let ghost all = req@.headers;
    let mut i: usize = 0;
    while i < req.headers.len()
        invariant
            i <= req.headers@.len(),
            all == http::headers_view(req.headers@),
            http::headers_view(out@) == forwarded(all.take(i as int)),
        decreases req.headers@.len() - i,
    {
        let ghost t = all.take(i + 1);
        assert(t.drop_last() == all.take(i as int));
        assert(t.last() == (req.headers@[i as int].0@, req.headers@[i as int].1@));
        if !http::hop_by_hop(req.headers[i].0.as_str()) {
            let ghost before = out@;
            out.push((req.headers[i].0.clone(), req.headers[i].1.clone()));
            assert(http::headers_view(out@) == http::headers_view(before).push(t.last()));
        }
        i = i + 1;
    }
    assert(all.take(i as int) == all);
    out
}

/// The credentials of the client never reach the upstream as a handed-on header field.
pub proof fn law_own_authorization_is_not_forwarded(h: Seq<(Seq<char>, Seq<char>)>)
    ensures
        forall|i: int|
            0 <= i < forwarded(h).len() ==> !text::same_word(
                (#[trigger] forwarded(h)[i]).0,
                "authorization"@,
            ) && !text::same_word(forwarded(h)[i].0, "host"@),
    decreases h.len(),
{
    if h.len() > 0 {
        let before = forwarded(h.drop_last());
        law_own_authorization_is_not_forwarded(h.drop_last());
        assert forall|i: int| 0 <= i < forwarded(h).len() implies !text::same_word(
            (#[trigger] forwarded(h)[i]).0,
            "authorization"@,
        ) && !text::same_word(forwarded(h)[i].0, "host"@) by {
            if i < before.len() {
                assert(forwarded(h)[i] == before[i]);
            }
        }
    }
}

// ---------------------------------------------------------------------------
// Taking a request in
// ---------------------------------------------------------------------------

/// An answer of the proxy itself.
pub struct Reply {
    pub status: u16,
    pub body: String,
    pub note: Option<Note>,
}

/// What an answer is.
#[verifier::ext_equal]
pub struct ReplyV {
    pub status: u16,
    pub body: Seq<char>,
    pub note: Option<NoteV>,
}

impl View for Reply {
    type V = ReplyV;

    open spec fn view(&self) -> ReplyV {
        ReplyV { status: self.status, body: self.body@, note: opt_note(self.note) }
    }
}

pub(crate) fn reply(status: u16, body: &str, event: &str, detail: String, dedup: bool) -> (r: Reply)
    ensures
        r@ == reply_view(status, body@, event@, detail@, dedup),
{
    Reply { status, body: body.to_owned(), note: Some(note(event, detail, dedup)) }
}

/// An answer with a note.
pub open spec fn reply_view(
    status: u16,
    body: Seq<char>,
    event: Seq<char>,
    detail: Seq<char>,
    dedup: bool,
) -> ReplyV {
    ReplyV { status, body, note: Some(NoteV { event, detail, dedup }) }
}

/// The answer to bytes that are no request.
pub fn bad_request(buf: &[u8]) -> (r: Reply)
    ensures
        r@ == reply_view(
            400,
            "bad request"@,
            "proxy_bad_request"@,
            "请求未读完或不合法，回 400（已收 "@ + number::decimal(buf@.len()) + " 字节）："@
                + text::lossy_text(http::first_bytes(buf@)),
            false,
        ),
{
    let n = number::to_decimal(buf.len() as u64);
    let a = text::plus(
        text::plus("请求未读完或不合法，回 400（已收 ".to_owned(), n.as_str()),
        " 字节）：",
    );
    let detail = text::plus(a, http::head_prefix(buf).as_str());
    reply(400, "bad request", "proxy_bad_request", detail, false)
}

/// The upstream of the real-time channel.
pub struct WsUpstream {
    /// Whether it speaks TLS.
    pub secure: bool,
    pub host: String,
    pub port: u16,
    /// The path under which it is found; empty means anywhere.
    pub path: String,
}

/// A header field asks for a WebSocket, or has its key.
pub open spec fn upgrade_asked(headers: Seq<(Seq<char>, Seq<char>)>) -> bool {
    ||| (http::find_header(headers, "upgrade"@) matches Some(v) && text::same_word(
        v,
        "websocket"@,
    ))
    ||| exists|i: int|
        0 <= i < headers.len() && text::same_word(
            (#[trigger] headers[i]).0,
            "sec-websocket-key"@,
        ) && headers[i].1.len() > 0
}

/// Whether a request asks for a WebSocket.
pub fn is_websocket_upgrade(req: &Request) -> (r: bool)
    ensures
        r == upgrade_asked(req@.headers),
{
    if let Some(v) = http::header_value(req, "upgrade") {
        if text::text_matches_word(v, "websocket") {
            return true;
        }
    }
    let mut i: usize = 0;
    while i < req.headers.len()
        invariant
            i <= req.headers@.len(),
            forall|k: int|
                0 <= k < i ==> !(text::same_word(
                    (#[trigger] req@.headers[k]).0,
                    "sec-websocket-key"@,
                ) && req@.headers[k].1.len() > 0),
        decreases req.headers@.len() - i,
    {
        assert(req@.headers[i as int] == (req.headers@[i as int].0@, req.headers@[i as int].1@));
        if text::text_matches_word(req.headers[i].0.as_str(), "sec-websocket-key")
            && !req.headers[i].1.as_str().is_empty() {
            return true;
        }
        i = i + 1;
    }
    false
}

/// Where a request goes.
pub enum Route {
    /// The proxy answers itself.
    Answer(Reply),
    /// To the real-time channel.
    Realtime,
    /// To the upstream.
    Upstream,
}

/// The words for a path outside of the real-time channel.
pub open spec fn off_channel_words(bare: Seq<char>, prefix: Seq<char>) -> Seq<char> {
    "WebSocket 升级请求的路径 "@ + bare + " 不在 ws 上游前缀 "@ + prefix
        + " 下，已拒绝（避免把非实时请求塞进实时通道）"@
}

/// The path of the request is one of the real-time channel.
pub open spec fn on_channel(bare: Seq<char>, prefix: Seq<char>) -> bool {
    prefix.len() == 0 || text::starts_with(bare, prefix)
}

/// The answer to a request that cannot be routed; none where it can.
pub open spec fn refusal(req: http::RequestV, upstream: bool, ws: Option<Seq<char>>) -> Option<
    ReplyV,
> {
    let bare = http::bare_target(req.target);
    if req.method == "CONNECT"@ {
        Some(
            reply_view(
                405,
                "this endpoint is not a forward proxy\n"@,
                "proxy_bad_request"@,
                "收到 CONNECT：本端点只服务改写后的 TraeWork 请求，不做正向代理隧道（已回 405）"@,
                true,
            ),
        )
    } else if !upstream {
        Some(
            reply_view(
                502,
                "cannot resolve upstream from product.json"@,
                "proxy_error"@,
                "无法从 TraeWork 的 product.json 解析出原始上游域名，接管无法回源"@,
                true,
            ),
        )
    } else if upgrade_asked(req.headers) {
        match ws {
            None => Some(
                reply_view(
                    502,
                    "cannot resolve websocket upstream"@,
                    "proxy_error"@,
                    "收到 WebSocket 升级，但无法从 TraeWork 的 product.json 解析出 ws 上游地址"@,
                    true,
                ),
            ),
            Some(prefix) => if on_channel(bare, prefix) {
                None
            } else {
                Some(
                    reply_view(
                        502,
                        "websocket path not routed"@,
                        "proxy_error"@,
                        off_channel_words(bare, prefix),
                        true,
                    ),
                )
            },
        }
    } else {
        None
    }
}

/// The path of an optional real-time upstream.
pub open spec fn ws_path(ws: Option<&WsUpstream>) -> Option<Seq<char>> {
    match ws {
        Some(u) => Some(u.path@),
        None => None,
    }
}

/// Decides where a request goes; `upstream` tells whether the upstream is known.
pub fn route(req: &Request, upstream: bool, ws: Option<&WsUpstream>) -> (r: Route)
    ensures
        match r {
            Route::Answer(a) => refusal(req@, upstream, ws_path(ws)) == Some(a@),
            Route::Realtime => refusal(req@, upstream, ws_path(ws)) is None && upgrade_asked(
                req@.headers,
            ),
            Route::Upstream => refusal(req@, upstream, ws_path(ws)) is None && !upgrade_asked(
                req@.headers,
            ),
        },
{
    if text::same_text(req.method.as_str(), "CONNECT") {
        return Route::Answer(
            reply(
                405,
                "this endpoint is not a forward proxy\n",
                "proxy_bad_request",
                "收到 CONNECT：本端点只服务改写后的 TraeWork 请求，不做正向代理隧道（已回 405）".to_owned(),
                true,
            ),
        );
    }
    if !upstream {
        return Route::Answer(
            reply(
                502,
                "cannot resolve upstream from product.json",
                "proxy_error",
                "无法从 TraeWork 的 product.json 解析出原始上游域名，接管无法回源".to_owned(),
                true,
            ),
        );
    }
    if !is_websocket_upgrade(req) {
        return Route::Upstream;
    }
    let up = match ws {
        Some(up) => up,
        None => {
            return Route::Answer(
                reply(
                    502,
                    "cannot resolve websocket upstream",
                    "proxy_error",
                    "收到 WebSocket 升级，但无法从 TraeWork 的 product.json 解析出 ws 上游地址".to_owned(),
                    true,
                ),
            );
        },
    };
    let bare = http::normalize_target(req.target.as_str());
    if !up.path.as_str().is_empty() && !text::text_starts_with(
        bare.as_str(),
        up.path.as_str(),
    ) {
        return Route::Answer(
            reply(
                502,
                "websocket path not routed",
                "proxy_error",
                off_channel(bare.as_str(), up.path.as_str()),
                true,
            ),
        );
    }
    Route::Realtime
}

pub(crate) fn off_channel(bare: &str, prefix: &str) -> (r: String)
    ensures
        r@ == off_channel_words(bare@, prefix@),
{
    let a = text::plus("WebSocket 升级请求的路径 ".to_owned(), bare);
    let b = text::plus(text::plus(a, " 不在 ws 上游前缀 "), prefix);
    text::plus(b, " 下，已拒绝（避免把非实时请求塞进实时通道）")
}

// ---------------------------------------------------------------------------
// Handing a request on
// ---------------------------------------------------------------------------

/// A request on its way to the upstream.
pub struct Forward {
    pub url: String,
    /// The path and query, for notes.
    pub bare: String,
    /// The conversation that the request belongs to.
    pub conv: Option<String>,
    /// The header fields that are handed on.
    pub headers: Vec<(String, String)>,
    pub body: Vec<u8>,
    /// The header fields that the response gets.
    pub cors: Vec<(String, String)>,
    /// What is to be noted before the request is sent.
    pub notes: Vec<Note>,
}

/// What to do with a request.
pub enum Plan {
    /// Answer a preflight with this head.
    Preflight(String),
    /// Hand it on with these credentials.
    Pass(Forward, Option<String>),
    /// Hand it on with the credentials of an account of the pool.
    Swap(Forward),
}

/// The conversation of a request: its target or body names it, or else a header field.
pub open spec fn request_conversation(req: http::RequestV, body: Seq<u8>) -> Option<Seq<char>> {
    let c = session::or(
        session::conversation_of(req.target, body),
        http::find_header(req.headers, "x-conversation-id"@),
    );
    match c {
        Some(id) => if id.len() == 0 {
            None
        } else {
            Some(id)
        },
        None => None,
    }
}

/// The URL of a request at the upstream.
pub open spec fn upstream_url(upstream: Seq<char>, target: Seq<char>) -> Seq<char> {
    text::trim_end_char(upstream, '/') + http::bare_target(target)
}

/// A request should name its conversation in the body, and does not.
pub open spec fn unbound(req: http::RequestV, body: Seq<u8>) -> bool {
    request_conversation(req, body) is None && !session::declares_new(body) && body_borne(
        http::bare_target(req.target),
    )
}

/// The words for a request whose conversation cannot be told.
pub open spec fn unbound_words(bare: Seq<char>) -> Seq<char> {
    "["@ + bare
        + "] 这条请求的会话 id 在 body 里，但没能认出来 ⇒ 该域**不能**整体换号，否则同会话的请求会用到不同账号（上游多半报鉴权或限流错）"@
}

/// What was noted of requests so far: their kinds, and those whose conversation could not be told.
pub struct Seen {
    pub paths: Table<()>,
    pub unbound: Table<()>,
}

/// The forwarded request is that of `req`.
pub open spec fn forwards(f: Forward, req: http::RequestV, body: Seq<u8>, upstream: Seq<char>) -> bool {
    &&& f.url@ == upstream_url(upstream, req.target)
    &&& f.bare@ == http::bare_target(req.target)
    &&& text::opt_text(f.conv) == request_conversation(req, body)
    &&& http::headers_view(f.headers@) == forwarded(req.headers)
    &&& f.body@ == body
    &&& http::headers_view(f.cors@) == cors(req.headers)
}

/// Notes a request whose conversation cannot be told, once for each path.
fn note_unbound(warned: &mut Table<()>, bare: &str, is_unbound: bool) -> (r: Option<Note>)
    ensures
        opt_note(r) == (if is_unbound && !old(warned)@.contains_key(bare@) {
            Some(
                NoteV { event: "unbound_session"@, detail: unbound_words(bare@), dedup: false },
            )
        } else {
            None
        }),
        final(warned)@ == (if is_unbound && !old(warned)@.contains_key(bare@) {
            old(warned)@.insert(bare@, (0u64, ()))
        } else {
            old(warned)@
        }),
{
    if is_unbound && warned.get(bare).is_none() {
        warned.put(bare.to_owned(), 0, ());
        let a = text::plus("[".to_owned(), bare);
        Some(
            note(
                "unbound_session",
                text::plus(
                    a,
                    "] 这条请求的会话 id 在 body 里，但没能认出来 ⇒ 该域**不能**整体换号，否则同会话的请求会用到不同账号（上游多半报鉴权或限流错）",
                ),
                false,
            ),
        )
    } else {
        None
    }
}

fn conversation(req: &Request, body: &[u8]) -> (r: Option<String>)
    ensures
        text::opt_text(r) == request_conversation(req@, body@),
{
    let named = session::conversation_key(req.target.as_str(), body);
    let id = match named {
        Some(id) => id,
        None => match http::header_value(req, "x-conversation-id") {
            Some(id) => id.to_owned(),
            None => {
                return None;
            },
        },
    };
    if id.as_str().is_empty() {
        None
    } else {
        Some(id)
    }
}

/// The notes on a request, oldest first.
pub open spec fn notes_view(notes: Seq<Note>) -> Seq<NoteV> {
    notes.map_values(|n: Note| n@)
}

/// The notes of one optional note after another.
pub open spec fn both_notes(a: Option<NoteV>, b: Option<NoteV>) -> Seq<NoteV> {
    (match a {
        Some(x) => seq![x],
        None => Seq::empty(),
    }) + (match b {
        Some(x) => seq![x],
        None => Seq::empty(),
    })
}

/// The note on a request of a kind that was not seen before.
pub open spec fn path_note(seen: Seen, r: Rules, req: http::RequestV, upstream: Seq<char>) -> Option<
    NoteV,
> {
    let bare = http::bare_target(req.target);
    let key = seen_key(req.method, host_name(upstream), bare);
    if seen.paths@.dom().len() < MAX_TRACKED && !seen.paths@.contains_key(key) {
        Some(
            NoteV {
                event: "proxy_path"@,
                detail: "接管收到 ["@ + rule_word(r, bare) + "] "@ + key,
                dedup: false,
            },
        )
    } else {
        None
    }
}

/// The note on a request whose conversation cannot be told.
pub open spec fn unbound_note(seen: Seen, req: http::RequestV, body: Seq<u8>) -> Option<NoteV> {
    let bare = http::bare_target(req.target);
    if unbound(req, body) && !seen.unbound@.contains_key(bare) {
        Some(NoteV { event: "unbound_session"@, detail: unbound_words(bare), dedup: false })
    } else {
        None
    }
}

/// Decides what to do with a request: a preflight is answered, a request that is charged gets the
/// credentials of the pool, and any other keeps its own.
pub fn plan_request(
    seen: &mut Seen,
    buf: &[u8],
    req: &Request,
    upstream: &str,
    rules: &Rules,
) -> (r: Plan)
    ensures
        ({
            let body = http::body_of(buf@, req@.head_end, req@.body_len);
            let bare = http::bare_target(req@.target);
            let swapping = rules::swaps(*rules, bare, billing_paths());
            match r {
                Plan::Preflight(head) => req@.method == "OPTIONS"@ && head@
                    == http::empty_head_text(204, cors(req@.headers)),
                Plan::Pass(f, auth) => {
                    &&& req@.method != "OPTIONS"@
                    &&& !swapping
                    &&& forwards(f, req@, body, upstream@)
                    &&& text::opt_text(auth) == http::find_header(req@.headers, "authorization"@)
                    &&& notes_view(f.notes@) == both_notes(
                        path_note(*old(seen), *rules, req@, upstream@),
                        unbound_note(*old(seen), req@, body),
                    )
                },
                Plan::Swap(f) => {
                    &&& req@.method != "OPTIONS"@
                    &&& swapping
                    &&& forwards(f, req@, body, upstream@)
                    &&& notes_view(f.notes@) == both_notes(
                        path_note(*old(seen), *rules, req@, upstream@),
                        unbound_note(*old(seen), req@, body),
                    )
                },
            }
        }),
        ({
            let body = http::body_of(buf@, req@.head_end, req@.body_len);
            let bare = http::bare_target(req@.target);
            let key = seen_key(req@.method, host_name(upstream@), bare);
            &&& final(seen).paths@ == (if req@.method != "OPTIONS"@ && path_note(
                *old(seen),
                *rules,
                req@,
                upstream@,
            ) is Some {
                old(seen).paths@.insert(key, (0u64, ()))
            } else {
                old(seen).paths@
            })
            &&& final(seen).unbound@ == (if req@.method != "OPTIONS"@ && unbound_note(
                *old(seen),
                req@,
                body,
            ) is Some {
                old(seen).unbound@.insert(bare, (0u64, ()))
            } else {
                old(seen).unbound@
            })
        }),
{
    let cors = cors_headers(req);
    if text::same_text(req.method.as_str(), "OPTIONS") {
        return Plan::Preflight(http::empty_head(204, cors.as_slice()));
    }
    let host = host_of(upstream);
    let body = http::req_body(buf, req);
    let bare = http::normalize_target(req.target.as_str());
    let conv = conversation(req, body);
    let mut notes: Vec<Note> = Vec::new();
    let first = note_path(
        &mut seen.paths,
        rules,
        req.method.as_str(),
        host.as_str(),
        bare.as_str(),
    );
    let is_unbound = conv.is_none() && !session::body_declares_empty_session(body)
        && text::text_starts_with(bare.as_str(), "/api/agent/v3/");
    let second = note_unbound(&mut seen.unbound, bare.as_str(), is_unbound);
    let ghost a = opt_note(first);
    let ghost b = opt_note(second);
    if let Some(n) = first {
        notes.push(n);
    }
    if let Some(n) = second {
        notes.push(n);
    }
    assert(notes_view(notes@) =~= both_notes(a, b));
    let base = text::to_chars(upstream);
    let url = text::plus(
        text::to_text(text::without_trailing_char(base.as_slice(), '/')),
        bare.as_str(),
    );
    let mut data: Vec<u8> = Vec::new();
    text::push_bytes(&mut data, body);
    assert(data@ =~= body@);
    let builtin = billing_prefixes();
    let swapping = rules.should_swap(bare.as_str(), builtin.as_slice());
    let f = Forward {
        url,
        bare,
        conv,
        headers: forward_headers(req),
        body: data,
        cors,
        notes,
    };
    if swapping {
        Plan::Swap(f)
    } else {
        let auth = match http::header_value(req, "authorization") {
            Some(a) => Some(a.to_owned()),
            None => None,
        };
        Plan::Pass(f, auth)
    }
}

// ---------------------------------------------------------------------------
// What the upstream says
// ---------------------------------------------------------------------------

/// What came of sending a request.
pub enum Outcome {
    /// The upstream has answered with this status.
    Status(u16),
    /// The request failed.
    Failed(String),
}

/// What to do next.
pub enum Next {
    /// Choose another account and send the request again.
    Again(Note),
    /// Hand the response on.
    Relay(Option<Note>),
    /// Answer the client.
    Answer(Reply),
}

/// The answer to a request that could not be sent.
pub open spec fn failed_reply(bare: Seq<char>, error: Seq<char>) -> ReplyV {
    reply_view(
        502,
        "upstream error: "@ + error,
        "proxy_error"@,
        "["@ + bare + "] 上游请求失败："@ + ("upstream error: "@ + error),
        false,
    )
}

/// The answer to a request that could not be sent.
pub fn upstream_failed(bare: &str, error: &str) -> (r: Reply)
    ensures
        r@ == failed_reply(bare@, error@),
{
    let message = text::plus("upstream error: ".to_owned(), error);
    let a = text::plus(text::plus("[".to_owned(), bare), "] 上游请求失败：");
    reply(502, message.as_str(), "proxy_error", text::plus(a, message.as_str()), false)
}

/// The answer where no account may serve a request.
pub fn no_account() -> (r: Reply)
    ensures
        r@ == reply_view(
            503,
            "no account available for takeover"@,
            "proxy_error"@,
            "已开启智能接管，但账号池里没有被扣费资格的账号——请到「账号与签到」添账号，或在设置里调整扣费账号白名单"@,
            true,
        ),
{
    reply(
        503,
        "no account available for takeover",
        "proxy_error",
        "已开启智能接管，但账号池里没有被扣费资格的账号——请到「账号与签到」添账号，或在设置里调整扣费账号白名单".to_owned(),
        true,
    )
}

/// The credentials of an account.
pub open spec fn credential_of(token: Seq<char>) -> Seq<char> {
    "Cloud-IDE-JWT "@ + token
}

/// The credentials of an account.
pub fn credential(account: &Account) -> (r: String)
    ensures
        r@ == credential_of(account.token@),
{
    text::plus("Cloud-IDE-JWT ".to_owned(), account.token.as_str())
}

/// The words for an account that was limited.
pub open spec fn limited_words(name: Seq<char>, bare: Seq<char>, again: bool) -> Seq<char> {
    "账号「"@ + name + "」触发限流（429，"@ + bare + (if again {
        "），已无感切换备用账号继续服务"@
    } else {
        "），已无更多备用账号，限流响应原样透传"@
    })
}

fn limited_note(name: &str, bare: &str, again: bool) -> (r: Note)
    ensures
        r@ == (NoteV { event: "failover"@, detail: limited_words(name@, bare@, again), dedup: false }),
{
    let a = text::plus(text::plus("账号「".to_owned(), name), "」触发限流（429，");
    let end = if again {
        "），已无感切换备用账号继续服务"
    } else {
        "），已无更多备用账号，限流响应原样透传"
    };
    note("failover", text::plus(text::plus(a, bare), end), false)
}

/// Besides `account` and the banned ones, some account may serve the request.
pub open spec fn has_another(
    all: Seq<Account>,
    selected: Seq<String>,
    ban: Seq<String>,
    account: Account,
) -> bool {
    routing::eligible(all, selected, ban.push(account.id)).len() > 0
}

/// Whether, besides `account` and the banned ones, some account may serve the request.
pub fn another_left(all: &[Account], selected: &[String], ban: &[String], account: &Account) -> (r:
    bool)
    ensures
        r == (routing::eligible(all@, selected@, ban@.push(account.id)).len() > 0),
{
    let chargeable = routing::billing_candidates(all, selected);
    let mut out = text::clone_texts(ban);
    out.push(account.id.clone());
    routing::drop_banned(chargeable.as_slice(), out.as_slice()).len() > 0
}

/// A request is sent again after a limit, where it was not sent often enough and another account
/// may serve it: `banned` accounts were limited before.
pub open spec fn sent_again(limited: bool, banned: nat, another: bool) -> bool {
    limited && banned + 1 < FAILOVER_MAX_TRIES && another
}

/// Decides what to do after a request was sent with the credentials of `account`. Where that
/// account was limited it cools down, its conversation is unbound, and the request goes to another
/// one; the limit is handed on where no other one is left, or the request was sent often enough.
pub fn after_reply(
    pool: &mut Pool,
    all: &[Account],
    selected: &[String],
    ban: &mut Vec<String>,
    account: &Account,
    conv: &Option<String>,
    bare: &str,
    outcome: Outcome,
    now: u64,
) -> (r: Next)
    ensures
        ({
            let limited = outcome == Outcome::Status(429);
            let again = sent_again(
                limited,
                old(ban)@.len(),
                has_another(all@, selected@, old(ban)@, *account),
            );
            &&& match r {
                Next::Again(n) => again && n@ == (NoteV {
                    event: "failover"@,
                    detail: limited_words(account.name@, bare@, true),
                    dedup: false,
                }),
                Next::Relay(n) => !again && outcome is Status && opt_note(n) == (if limited {
                    Some(
                        NoteV {
                            event: "failover"@,
                            detail: limited_words(account.name@, bare@, false),
                            dedup: false,
                        },
                    )
                } else {
                    None
                }),
                Next::Answer(a) => outcome matches Outcome::Failed(e) && a@ == failed_reply(
                    bare@,
                    e@,
                ),
            }
            &&& final(ban)@ == (if again {
                old(ban)@.push(account.id)
            } else {
                old(ban)@
            })
            &&& final(pool).cooldown@ == (if limited {
                old(pool).cooldown@.insert(account.id@, (now, ()))
            } else {
                old(pool).cooldown@
            })
            &&& final(pool).sticky@ == (if limited && conv is Some {
                old(pool).sticky@.remove(conv->0@)
            } else {
                old(pool).sticky@
            })
        }),
{
    match outcome {
        Outcome::Failed(e) => Next::Answer(upstream_failed(bare, e.as_str())),
        Outcome::Status(status) => {
            if status != 429 {
                return Next::Relay(None);
            }
            pool.cool_down(account.id.as_str(), now);
            if let Some(c) = conv {
                pool.sticky_remove(c.as_str());
            }
            let another = another_left(all, selected, ban.as_slice(), account);
            if ban.len() < FAILOVER_MAX_TRIES - 1 && another {
                ban.push(account.id.clone());
                Next::Again(limited_note(account.name.as_str(), bare, true))
            } else {
                Next::Relay(Some(limited_note(account.name.as_str(), bare, false)))
            }
        },
    }
}

/// The note on a response that is handed on.
pub fn status_note(path: &str, status: u16) -> (r: Option<Note>)
    ensures
        opt_note(r) == (if status >= 400 {
            Some(
                NoteV {
                    event: "proxy_upstream_status"@,
                    detail: "上游对 "@ + path@ + " 返回 "@ + number::decimal(status as nat),
                    dedup: false,
                },
            )
        } else {
            None
        }),
{
    if status >= 400 {
        let n = number::to_decimal(status as u64);
        let a = text::plus(text::plus("上游对 ".to_owned(), path), " 返回 ");
        Some(note("proxy_upstream_status", text::plus(a, n.as_str()), false))
    } else {
        None
    }
}

/// The note on a response that broke off.
pub fn stream_error_note(path: &str, sent: u64, error: &str) -> (r: Note)
    ensures
        r@ == (NoteV {
            event: "proxy_stream_error"@,
            detail: "["@ + path@ + "] 上游读流失败（已转发 "@ + number::decimal(sent as nat)
                + " 字节）："@ + error@,
            dedup: false,
        }),
{
    let n = number::to_decimal(sent);
    let a = text::plus(text::plus("[".to_owned(), path), "] 上游读流失败（已转发 ");
    let b = text::plus(text::plus(a, n.as_str()), " 字节）：");
    note("proxy_stream_error", text::plus(b, error), false)
}

// ---------------------------------------------------------------------------
// Laws
// ---------------------------------------------------------------------------

/// How often a request is sent, where `limited` tells of each account in turn whether it is
/// limited, `another` whether one is left after it, and `banned` accounts were limited already.
pub open spec fn times_sent(
    limited: spec_fn(nat) -> bool,
    another: spec_fn(nat) -> bool,
    banned: nat,
) -> nat
    decreases FAILOVER_MAX_TRIES - banned,
{
    if sent_again(limited(banned), banned, another(banned)) {
        1 + times_sent(limited, another, banned + 1)
    } else {
        1
    }
}

/// A request is sent three times at most, and only after a limit more than once.
pub proof fn law_request_is_sent_three_times_at_most(
    limited: spec_fn(nat) -> bool,
    another: spec_fn(nat) -> bool,
)
    ensures
        1 <= times_sent(limited, another, 0) <= FAILOVER_MAX_TRIES,
        times_sent(limited, another, 0) > 1 ==> limited(0),
        !limited(0) ==> times_sent(limited, another, 0) == 1,
{
    reveal_with_fuel(times_sent, 4);
}

/// Where a request is sent again, an account is there to serve it: only then the limit is not
/// handed on.
pub proof fn law_sent_again_is_served(
    pool: Pool,
    all: Seq<Account>,
    selected: Seq<String>,
    ban: Seq<String>,
    account: Account,
    limited: bool,
    now: u64,
)
    requires
        sent_again(limited, ban.len(), has_another(all, selected, ban, account)),
    ensures
        choosing::open_to(pool, all, selected, ban.push(account.id), now).len() > 0,
{
}

/// A limit of the only account that may serve a request is handed on.
pub proof fn law_last_limit_is_handed_on(
    all: Seq<Account>,
    selected: Seq<String>,
    ban: Seq<String>,
    account: Account,
)
    requires
        forall|i: int|
            0 <= i < routing::eligible(all, selected, ban).len() ==> (#[trigger] routing::eligible(
                all,
                selected,
                ban,
            )[i]).id@ == account.id@,
    ensures
        !sent_again(true, ban.len(), has_another(all, selected, ban, account)),
{
    broadcast use vstd::seq_lib::group_filter_ensures;

    let b = ban.push(account.id);
    let before = routing::eligible(all, selected, ban);
    let after = routing::eligible(all, selected, b);
    if after.len() > 0 {
        let a = after[0];
        let list = routing::chargeable(all, selected);
        assert(routing::not_listed(b)(a));
        assert(after.contains(a));
        list.lemma_filter_contains_rev(routing::not_listed(b), a);
        let n = choose|n: int| 0 <= n < list.len() && list[n] == a;
        assert(!text::has_text(ban, a.id@)) by {
            if text::has_text(ban, a.id@) {
                let k = choose|k: int| 0 <= k < ban.len() && (#[trigger] ban[k])@ == a.id@;
                assert(b[k]@ == a.id@);
            }
        }
        assert(routing::not_listed(ban)(list[n]));
        assert(before.contains(list[n]));
        let i = choose|i: int| 0 <= i < before.len() && before[i] == a;
        assert(before[i].id@ == account.id@);
        assert(b[ban.len() as int]@ == a.id@);
    }
}

/// An account that was limited is not tried again for the same request.
pub proof fn law_limited_account_is_not_tried_again(
    pool: Pool,
    all: Seq<Account>,
    selected: Seq<String>,
    ban: Seq<String>,
    account: Account,
    now: u64,
    i: int,
)
    requires
        0 <= i < choosing::open_to(pool, all, selected, ban.push(account.id), now).len(),
    ensures
        choosing::open_to(pool, all, selected, ban.push(account.id), now)[i].id@ != account.id@,
{
    choosing::law_banned_serves_nothing(pool, all, selected, ban.push(account.id), now, i);
    let b = ban.push(account.id);
    assert(b[ban.len() as int]@ == account.id@);
}

/// A limited account cools down, and its conversation is no longer bound to it.
pub proof fn law_limit_cools_and_unbinds(
    cooldown: Map<Seq<char>, (u64, ())>,
    sticky: Map<Seq<char>, (u64, String)>,
    id: Seq<char>,
    conv: Seq<char>,
    now: u64,
    later: u64,
)
    requires
        later - now < routing::COOLDOWN_TTL,
    ensures
        routing::cools(cooldown.insert(id, (now, ())), id, later),
        routing::stuck_to(sticky.remove(conv), conv, later) is None,
{
}

/// Nothing is swapped while observing, nor, without prefixes of the file, a path that is not charged.
pub proof fn law_uncharged_paths_are_not_swapped(r: Rules, bare: Seq<char>)
    ensures
        r.observe_only ==> !rules::swaps(r, bare, billing_paths()),
        !rules::under_any(bare, billing_paths()) && r.swap_http_prefixes@.len() == 0
            ==> !rules::swaps(r, bare, billing_paths()),
{
}

} // verus!
