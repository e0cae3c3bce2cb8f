//! The real-time channel: a WebSocket that is handed on to its upstream as it is.
use crate::accounts::Account;
use crate::http;
use crate::http::Request;
use crate::number;
use crate::proxy;
use crate::proxy::{Note, NoteV, Reply, WsUpstream};
use crate::rules::Rules;
use crate::session;
use crate::text;
use vstd::prelude::*;
use vstd::slice::slice_subrange;
use vstd::string::*;
use vstd::utf8::*;

verus! {

/// How long a channel may be silent in both directions, in milliseconds.
pub const WS_IDLE_MAX: u64 = 1_800_000;

// ---------------------------------------------------------------------------
// The upstream
// ---------------------------------------------------------------------------

/// The last position of the character `c` before position `n`.
pub open spec fn last_char(s: Seq<char>, c: char, n: int) -> Option<int>
    decreases n,
{
    if n <= 0 || n > s.len() {
        None
    } else if s[n - 1] == c {
        Some(n - 1)
    } else {
        last_char(s, c, n - 1)
    }
}

fn find_last(s: &[char], c: char) -> (r: Option<usize>)
    ensures
        match r {
            Some(i) => last_char(s@, c, s@.len() as int) == Some(i as int) && i < s@.len(),
            None => last_char(s@, c, s@.len() as int) is None,
        },
{
    let mut n: usize = s.len();
    while n > 0
        invariant
            n <= s@.len(),
            last_char(s@, c, s@.len() as int) == last_char(s@, c, n as int),
        decreases n,
    {
        if s[n - 1] == c {
            return Some(n - 1);
        }
        n = n - 1;
    }
    None
}

/// What an upstream of the channel is.
#[verifier::ext_equal]
pub struct WsUpstreamV {
    pub secure: bool,
    pub host: Seq<char>,
    pub port: nat,
    pub path: Seq<char>,
}

impl View for WsUpstream {
    type V = WsUpstreamV;

    open spec fn view(&self) -> WsUpstreamV {
        WsUpstreamV {
            secure: self.secure,
            host: self.host@,
            port: self.port as nat,
            path: self.path@,
        }
    }
}

/// The host and the port of an authority: the port of the scheme where none is named.
pub open spec fn host_port(auth: Seq<char>, secure: bool) -> Option<(Seq<char>, nat)> {
    match last_char(auth, ':', auth.len() as int) {
        Some(i) => match number::unsigned(
            auth.subrange(i + 1, auth.len() as int),
            u16::MAX as nat,
        ) {
            Some(p) => Some((auth.subrange(0, i), p)),
            None => None,
        },
        None => Some(
            (
                auth,
                if secure {
                    443
                } else {
                    80
                },
            ),
        ),
    }
}

/// The upstream that a URL names: scheme, host, port, and the path without query and fragment.
pub open spec fn upstream_of(raw: Seq<char>) -> Option<WsUpstreamV> {
    match text::find_from(raw, "://"@, 0) {
        Some(i) => {
            let secure = text::same_word(raw.subrange(0, i), "wss"@);
            let rest = raw.subrange(i + 3, raw.len() as int);
            let auth = text::before_char(rest, '/');
            let path = match text::after_char(rest, '/') {
                Some(p) => "/"@ + text::before_char(text::before_char(p, '?'), '#'),
                None => ""@,
            };
            match host_port(auth, secure) {
                Some((host, port)) => if host.len() == 0 {
                    None
                } else {
                    Some(WsUpstreamV { secure, host, port, path })
                },
                None => None,
            }
        },
        None => None,
    }
}

/// The view of an optional upstream.
pub open spec fn opt_upstream(u: Option<WsUpstream>) -> Option<WsUpstreamV> {
    match u {
        Some(x) => Some(x@),
        None => None,
    }
}

/// Reads the upstream of the channel out of its URL.
pub fn parse_ws_upstream(raw: &str) -> (r: Option<WsUpstream>)
    ensures
        opt_upstream(r) == upstream_of(raw@),
{
    let chars = text::to_chars(raw);
    let mark = text::to_chars("://");
    proof {
        reveal_strlit("://");
    }
    let i = match text::find(chars.as_slice(), mark.as_slice(), 0) {
        Some(i) => i,
        None => {
            return None;
        },
    };
    let n: usize = chars.len();
    assert(i + 3 <= n);
    let wss = text::to_chars("wss");
    let secure = text::same_ignoring_case(
        slice_subrange(chars.as_slice(), 0, i),
        wss.as_slice(),
    );
    let rest = slice_subrange(chars.as_slice(), i + 3, n);
    let auth = text::head_before(rest, '/');
    let path = match text::tail_after(rest, '/') {
        Some(p) => {
            let end = text::to_text(text::head_before(text::head_before(p, '?'), '#'));
            text::plus("/".to_owned(), end.as_str())
        },
        None => "".to_owned(),
    };
    let (host, port): (String, u16) = match find_last(auth, ':') {
        Some(k) => {
            let m: usize = auth.len();
            match number::parse_unsigned(slice_subrange(auth, k + 1, m), u16::MAX as u64) {
                Some(p) => (text::to_text(slice_subrange(auth, 0, k)), p as u16),
                None => {
                    return None;
                },
            }
        },
        None => (
            text::to_text(auth),
            if secure {
                443
            } else {
                80
            },
        ),
    };
    if host.as_str().is_empty() {
        return None;
    }
    Some(WsUpstream { secure, host, port, path })
}

// ---------------------------------------------------------------------------
// The handshake
// ---------------------------------------------------------------------------

/// The host header field for the upstream: the port is named where it is not that of the scheme.
pub open spec fn host_field(up: WsUpstreamV) -> Seq<char> {
    if up.port == (if up.secure {
        443nat
    } else {
        80nat
    }) {
        up.host
    } else {
        up.host + ":"@ + number::decimal(up.port)
    }
}

/// The name of a header line; empty where the line has no colon.
pub open spec fn line_name(line: Seq<char>) -> Seq<char> {
    match text::after_char(line, ':') {
        Some(_) => text::trim(text::before_char(line, ':')),
        None => ""@,
    }
}

/// A header line of the handshake on its way to the upstream: the host is that of the upstream, the
/// credentials are replaced where others are given, and all else stays.
pub open spec fn line_out(line: Seq<char>, host: Seq<char>, auth: Option<Seq<char>>) -> Seq<char> {
    if text::same_word(line_name(line), "host"@) {
        "Host: "@ + host + "\r\n"@
    } else {
        match auth {
            Some(v) => if text::same_word(line_name(line), "authorization"@) {
                "Authorization: "@ + v + "\r\n"@
            } else {
                line + "\r\n"@
            },
            None => line + "\r\n"@,
        }
    }
}

/// The first `n` lines of the handshake on their way to the upstream; empty lines are left out.
pub open spec fn lines_out(
    lines: Seq<Seq<char>>,
    first: Seq<char>,
    host: Seq<char>,
    auth: Option<Seq<char>>,
) -> Seq<char>
    decreases lines.len(),
{
    if lines.len() == 0 {
        Seq::empty()
    } else {
        let before = lines_out(lines.drop_last(), first, host, auth);
        let line = lines.last();
        if line.len() == 0 {
            before
        } else if lines.len() == 1 {
            before + first
        } else {
            before + line_out(line, host, auth)
        }
    }
}

/// The bytes of the head of a handshake.
pub open spec fn head_bytes(buf: Seq<u8>, req: http::RequestV) -> Seq<u8> {
    if req.head_end < buf.len() {
        buf.subrange(0, req.head_end as int)
    } else {
        buf
    }
}

/// The handshake with the given head on its way to the upstream.
pub open spec fn handshake_text(
    head: Seq<char>,
    req: http::RequestV,
    up: WsUpstreamV,
    auth: Option<Seq<char>>,
) -> Seq<char> {
    let lines = text::split_by(head, "\r\n"@);
    let first = req.method + " "@ + http::bare_target(req.target) + " HTTP/1.1\r\n"@;
    lines_out(lines, first, host_field(up), auth) + "\r\n"@
}

/// The view of optional credentials.
pub open spec fn opt_slice(s: Option<&str>) -> Option<Seq<char>> {
    match s {
        Some(x) => Some(x@),
        None => None,
    }
}

fn write_line(line: &[char], host: &str, auth: Option<&str>) -> (r: String)
    ensures
        r@ == line_out(line@, host@, opt_slice(auth)),
{
    let name = match text::tail_after(line, ':') {
        Some(_) => text::to_text(text::trimmed(text::head_before(line, ':'))),
        None => "".to_owned(),
    };
    if text::text_matches_word(name.as_str(), "host") {
        return text::plus(text::plus("Host: ".to_owned(), host), "\r\n");
    }
    if let Some(v) = auth {
        if text::text_matches_word(name.as_str(), "authorization") {
            return text::plus(text::plus("Authorization: ".to_owned(), v), "\r\n");
        }
    }
    text::plus(text::to_text(line), "\r\n")
}

/// Writes the handshake for the upstream. Only the host changes, and the credentials where others
/// are given. A head that is valid UTF-8 is read as it is.
pub fn build_ws_request(buf: &[u8], req: &Request, up: &WsUpstream, auth: Option<&str>) -> (r: Vec<
    u8,
>)
    ensures
        r@ == encode_utf8(
            handshake_text(text::lossy_text(head_bytes(buf@, req@)), req@, up@, opt_slice(auth)),
        ),
        valid_utf8(head_bytes(buf@, req@)) ==> text::lossy_text(head_bytes(buf@, req@))
            == decode_utf8(head_bytes(buf@, req@)),
{
    let end: usize = if req.head_end < buf.len() {
        req.head_end
    } else {
        buf.len()
    };
    assert(buf@.subrange(0, end as int) =~= head_bytes(buf@, req@));
    let head = text::to_chars(text::utf8_text_lossy(slice_subrange(buf, 0, end)).as_str());
    let default_port: u16 = if up.secure {
        443
    } else {
        80
    };
    let host = if up.port == default_port {
        up.host.clone()
    } else {
        let n = number::to_decimal(up.port as u64);
        text::plus(text::plus(up.host.clone(), ":"), n.as_str())
    };
    let bare = http::normalize_target(req.target.as_str());
    let first = text::plus(
        text::plus(text::plus(req.method.clone(), " "), bare.as_str()),
        " HTTP/1.1\r\n",
    );
    let newline = text::to_chars("\r\n");
    proof {
        reveal_strlit("\r\n");
    }
    let lines = text::split(head.as_slice(), newline.as_slice());
    let ghost all = text::rows(lines@);
    let ghost credentials = opt_slice(auth);
    let mut out: Vec<char> = Vec::new();
    let mut i: usize = 0;
    while i < lines.len()
        invariant
            i <= lines@.len(),
            all == text::rows(lines@),
            credentials == opt_slice(auth),
            out@ == lines_out(all.take(i as int), first@, host@, credentials),
        decreases lines@.len() - i,
    {
        let line = lines[i].as_slice();
        let ghost t = all.take(i + 1);
        assert(t.drop_last() == all.take(i as int));
        assert(t.last() == line@);
        if line.len() > 0 {
            if i == 0 {
                text::push_text(&mut out, first.as_str());
            } else {
                let next = write_line(line, host.as_str(), auth);
                text::push_text(&mut out, next.as_str());
            }
        }
        i = i + 1;
    }
    assert(all.take(i as int) == all);
    text::push_text(&mut out, "\r\n");
    let done = text::to_text(out.as_slice());
    text::text_bytes(done.as_str())
}

/// Without other credentials every header line but the host goes out as it came in.
pub proof fn law_only_the_host_changes(line: Seq<char>, host: Seq<char>)
    requires
        !text::same_word(line_name(line), "host"@),
    ensures
        line_out(line, host, None) == line + "\r\n"@,
{
}

/// Where other credentials are given, those of the client do not go along with them.
pub proof fn law_own_credentials_are_replaced(line: Seq<char>, host: Seq<char>, auth: Seq<char>)
    requires
        text::same_word(line_name(line), "authorization"@),
    ensures
        line_out(line, host, Some(auth)) == "Authorization: "@ + auth + "\r\n"@,
{
    reveal_strlit("authorization");
    reveal_strlit("host");
    assert(text::ascii_lower("authorization"@).len() != text::ascii_lower("host"@).len());
}

// ---------------------------------------------------------------------------
// Notes on the handshake
// ---------------------------------------------------------------------------

/// The texts stand in strictly ascending order.
pub open spec fn strictly_sorted(v: Seq<Seq<char>>) -> bool {
    forall|i: int, j: int|
        0 <= i < j < v.len() ==> text::text_less(#[trigger] v[i], #[trigger] v[j])
}

/// Inserts a text into a list in strictly ascending order, unless it stands there already.
pub fn insert_sorted(v: &mut Vec<String>, s: String)
    requires
        strictly_sorted(text::texts(old(v)@)),
    ensures
        strictly_sorted(text::texts(final(v)@)),
        forall|t: Seq<char>| #[trigger]
            text::has_text(final(v)@, t) <==> text::has_text(old(v)@, t) || t == s@,
{
    let ghost before = v@;
    let mut i: usize = 0;
    while i < v.len() && text::text_comes_before(v[i].as_str(), s.as_str())
        invariant
            i <= v@.len(),
            v@ == before,
            forall|k: int| 0 <= k < i ==> text::text_less((#[trigger] v@[k])@, s@),
        decreases v@.len() - i,
    {
        i = i + 1;
    }
    if i < v.len() && text::same_text(v[i].as_str(), s.as_str()) {
        assert(v@[i as int]@ == s@);
        return;
    }
    v.insert(i, s);
    proof {
        let w = v@;
        let wt = text::texts(w);
        let bt = text::texts(before);
        if i < before.len() {
            text::lemma_text_order_total(before[i as int]@, s@);
        }
        assert forall|a: int, b: int| 0 <= a < b < wt.len() implies text::text_less(
            #[trigger] wt[a],
            #[trigger] wt[b],
        ) by {
            if a < i && b < i {
                assert(text::text_less(bt[a], bt[b]));
            } else if a < i && b == i {
                assert(text::text_less(before[a]@, s@));
            } else if a < i {
                assert(text::text_less(bt[a], bt[b - 1]));
            } else if a == i {
                if b - 1 > i {
                    assert(text::text_less(bt[i as int], bt[b - 1]));
                    text::lemma_text_order_transitive(s@, bt[i as int], bt[b - 1]);
                } else {
                    assert(wt[b] == bt[i as int]);
                }
            } else {
                assert(text::text_less(bt[a - 1], bt[b - 1]));
            }
        }
        assert forall|t: Seq<char>| #[trigger] text::has_text(w, t) <==> text::has_text(before, t)
            || t == s@ by {
            if text::has_text(before, t) {
                let k = choose|k: int| 0 <= k < before.len() && (#[trigger] before[k])@ == t;
                if k < i {
                    assert(w[k]@ == t);
                } else {
                    assert(w[k + 1]@ == t);
                }
            }
            if t == s@ {
                assert(w[i as int]@ == t);
            }
            if text::has_text(w, t) && t != s@ {
                let k = choose|k: int| 0 <= k < w.len() && (#[trigger] w[k])@ == t;
                if k < i {
                    assert(before[k]@ == t);
                } else {
                    assert(before[k - 1]@ == t);
                }
            }
        }
    }
}

/// The list holds the lower-case names of the header fields, each once, in ascending order.
pub open spec fn field_names(headers: Seq<(Seq<char>, Seq<char>)>, names: Seq<String>) -> bool {
    &&& strictly_sorted(text::texts(names))
    &&& forall|t: Seq<char>| #[trigger]
        text::has_text(names, t) <==> exists|i: int|
            0 <= i < headers.len() && text::ascii_lower((#[trigger] headers[i]).0) == t
}

fn sorted_names(req: &Request) -> (r: Vec<String>)
    ensures
        field_names(req@.headers, r@),
{
    let mut names: Vec<String> = Vec::new();
    let ghost all = req@.headers;
    let mut i: usize = 0;
    while i < req.headers.len()
        invariant
            i <= req.headers@.len(),
            all == http::headers_view(req.headers@),
            strictly_sorted(text::texts(names@)),
            forall|t: Seq<char>| #[trigger]
                text::has_text(names@, t) <==> exists|k: int|
                    0 <= k < i && text::ascii_lower((#[trigger] all[k]).0) == t,
        decreases req.headers@.len() - i,
    {
        let name = text::to_chars(req.headers[i].0.as_str());
        let low = text::to_text(text::lowered(name.as_slice()).as_slice());
        let ghost before = names@;
        let ghost t0 = low@;
        assert(t0 == text::ascii_lower(all[i as int].0));
        insert_sorted(&mut names, low);
        assert forall|t: Seq<char>| #[trigger] text::has_text(names@, t) <==> exists|k: int|
            0 <= k < i + 1 && text::ascii_lower((#[trigger] all[k]).0) == t by {
            if text::has_text(before, t) {
                let k = choose|k: int| 0 <= k < i && text::ascii_lower((#[trigger] all[k]).0) == t;
                assert(text::ascii_lower(all[k].0) == t);
            }
            if exists|k: int| 0 <= k < i + 1 && text::ascii_lower((#[trigger] all[k]).0) == t {
                let k = choose|k: int|
                    0 <= k < i + 1 && text::ascii_lower((#[trigger] all[k]).0) == t;
                if k < i {
                    assert(text::has_text(before, t));
                }
            }
        }
        i = i + 1;
    }
    names
}

/// The texts with `sep` in between.
pub open spec fn joined_by(v: Seq<Seq<char>>, sep: Seq<char>) -> Seq<char>
    decreases v.len(),
{
    if v.len() == 0 {
        Seq::empty()
    } else if v.len() == 1 {
        v[0]
    } else {
        joined_by(v.drop_last(), sep) + sep + v.last()
    }
}

/// Joins texts with `sep` in between.
pub fn join_texts(v: &[String], sep: &str) -> (r: String)
    ensures
        r@ == joined_by(text::texts(v@), sep@),
{
    let ghost all = text::texts(v@);
    let mut out: Vec<char> = Vec::new();
    let mut i: usize = 0;
    while i < v.len()
        invariant
            i <= v@.len(),
            all == text::texts(v@),
            out@ == joined_by(all.take(i as int), sep@),
        decreases v@.len() - i,
    {
        let ghost t = all.take(i + 1);
        assert(t.drop_last() == all.take(i as int));
        if i > 0 {
            text::push_text(&mut out, sep);
        }
        text::push_text(&mut out, v[i].as_str());
        assert(t.last() == v@[i as int]@);
        assert(out@ == joined_by(t, sep@));
        i = i + 1;
    }
    assert(all.take(i as int) == all);
    text::to_text(out.as_slice())
}

/// A name that tells of credentials.
pub open spec fn auth_like(name: Seq<char>) -> bool {
    name == "authorization"@ || text::contains(name, "token"@) || text::contains(name, "cookie"@)
}

/// The words on the header fields of a handshake.
pub open spec fn handshake_words(names: Seq<Seq<char>>) -> Seq<char> {
    "WebSocket 握手请求头（仅名字）：["@ + joined_by(names, ", "@) + "] "@ + (if exists|i: int|
        0 <= i < names.len() && auth_like(#[trigger] names[i]) {
        "—— 含鉴权类头，身份很可能就在这里 ⇒ 可在此替换凭据"@
    } else {
        "—— 没有明显的鉴权头，身份多半在握手之后的首帧里（要换得解析帧）"@
    })
}

/// Notes the names of the header fields of the first handshake; never their values.
pub fn note_ws_handshake(req: &Request, done: &mut bool) -> (r: Option<Note>)
    ensures
        *final(done),
        r is Some <==> !*old(done),
        r matches Some(n) ==> n.event@ == "ws_handshake"@ && !n.dedup && exists|names: Seq<String>|
            field_names(req@.headers, names) && n.detail@ == handshake_words(
                #[trigger] text::texts(names),
            ),
{
    if *done {
        return None;
    }
    *done = true;
    let names = sorted_names(req);
    let mut has_auth = false;
    let mut i: usize = 0;
    let ghost all = text::texts(names@);
    while i < names.len()
        invariant
            i <= names@.len(),
            all == text::texts(names@),
            has_auth == exists|k: int| 0 <= k < i && auth_like(#[trigger] all[k]),
        decreases names@.len() - i,
    {
        let n = names[i].as_str();
        assert(all[i as int] == n@);
        if text::same_text(n, "authorization") || text::text_contains(n, "token")
            || text::text_contains(n, "cookie") {
            has_auth = true;
            assert(auth_like(all[i as int]));
        }
        i = i + 1;
    }
    let list = join_texts(names.as_slice(), ", ");
    let a = text::plus(
        text::plus("WebSocket 握手请求头（仅名字）：[".to_owned(), list.as_str()),
        "] ",
    );
    let detail = text::plus(
        a,
        if has_auth {
            "—— 含鉴权类头，身份很可能就在这里 ⇒ 可在此替换凭据"
        } else {
            "—— 没有明显的鉴权头，身份多半在握手之后的首帧里（要换得解析帧）"
        },
    );
    assert(detail@ == handshake_words(text::texts(names@)));
    Some(proxy::note("ws_handshake", detail, false))
}

// ---------------------------------------------------------------------------
// Credentials of the handshake
// ---------------------------------------------------------------------------

/// Whether the handshake gets the credentials of the pool.
pub fn swaps_handshake(rules: &Rules) -> (r: bool)
    ensures
        r == (rules.swap_ws && !rules.observe_only),
{
    rules.swap_ws && !rules.observe_only
}

/// The conversation of a handshake: its path names it, or else a header field.
pub open spec fn handshake_conversation(req: http::RequestV) -> Option<Seq<char>> {
    match session::or(
        session::path_session(req.target),
        http::find_header(req.headers, "x-conversation-id"@),
    ) {
        Some(id) => if id.len() == 0 {
            None
        } else {
            Some(id)
        },
        None => None,
    }
}

/// The conversation of a handshake.
pub fn ws_conversation(req: &Request) -> (r: Option<String>)
    ensures
        text::opt_text(r) == handshake_conversation(req@),
{
    let id = match session::session_id_from_path(req.target.as_str()) {
        Some(id) => id,
        None => match http::header_value(req, "x-conversation-id") {
            Some(id) => id.to_owned(),
            None => {
                return None;
            },
        },
    };
    if id.as_str().is_empty() {
        None
    } else {
        Some(id)
    }
}

/// The credentials of a handshake that goes to an account, and the note on it.
pub fn ws_credentials(account: &Account, bare: &str) -> (r: (String, Note))
    ensures
        r.0@ == proxy::credential_of(account.token@),
        r.1@ == (NoteV {
            event: "ws_swap"@,
            detail: "WebSocket 握手凭据已换成账号「"@ + account.name@ + "」（"@ + bare@ + "）"@,
            dedup: false,
        }),
{
    let a = text::plus(
        text::plus("WebSocket 握手凭据已换成账号「".to_owned(), account.name.as_str()),
        "」（",
    );
    let detail = text::plus(text::plus(a, bare), "）");
    (proxy::credential(account), proxy::note("ws_swap", detail, false))
}

// ---------------------------------------------------------------------------
// The course of the channel
// ---------------------------------------------------------------------------

/// What to do after some bytes of the upstream's answer have come in.
#[derive(Clone, Copy, PartialEq, Eq, Structural)]
pub enum HeadStep {
    /// The head is there.
    Done,
    /// More bytes are needed.
    More,
    /// More has come in than is taken.
    TooLong,
}

/// Decides whether to go on reading the head of an answer.
pub fn head_step(buf: &[u8]) -> (r: HeadStep)
    ensures
        r == (if text::contains(buf@, http::head_mark()) {
            HeadStep::Done
        } else if buf@.len() > http::MAX_HEAD {
            HeadStep::TooLong
        } else {
            HeadStep::More
        }),
{
    let mark: Vec<u8> = vec![13u8, 10u8, 13u8, 10u8];
    assert(mark@ == http::head_mark());
    if http::find_slice(buf, mark.as_slice()).is_some() {
        HeadStep::Done
    } else if buf.len() > http::MAX_HEAD {
        HeadStep::TooLong
    } else {
        HeadStep::More
    }
}

/// What happens to a channel before it is open.
pub enum WsEvent {
    /// The upstream cannot be reached.
    OpenFailed(String),
    /// The handshake cannot be sent.
    WriteFailed(String),
    /// The answer cannot be read.
    ReadFailed(String),
    /// The answer cannot be handed on.
    AnswerFailed(String),
    /// The answer with this head was handed on.
    Answered(Vec<u8>),
}

/// What to do with a channel.
pub enum WsAction {
    /// Answer the client.
    Refuse(Reply),
    /// Give the channel up.
    Drop(Note),
    /// Hand on what is left of the answer, and end.
    Rest(Note),
    /// Hand on bytes in both directions.
    Tunnel(Note),
}

/// The status of an answer; zero where it has none.
pub open spec fn answer_status(head: Seq<u8>) -> nat {
    match http::status_in(head) {
        Some(n) => n,
        None => 0,
    }
}

/// The answer to a handshake whose upstream failed.
pub open spec fn failure_reply(event: WsEvent) -> Option<proxy::ReplyV> {
    match event {
        WsEvent::OpenFailed(e) => Some(
            proxy::reply_view(
                502,
                "websocket upstream error: "@ + e@,
                "proxy_error"@,
                "WebSocket 上游不可用："@ + e@,
                false,
            ),
        ),
        WsEvent::WriteFailed(e) => Some(
            proxy::reply_view(
                502,
                "websocket handshake write failed"@,
                "proxy_error"@,
                "转发 WebSocket 握手失败："@ + e@,
                false,
            ),
        ),
        WsEvent::ReadFailed(e) => Some(
            proxy::reply_view(
                502,
                "websocket handshake read failed: "@ + e@,
                "proxy_error"@,
                "读取 WebSocket 上游应答失败："@ + e@,
                false,
            ),
        ),
        _ => None,
    }
}

/// Decides how a channel goes on: only an answer of status 101 opens it.
pub fn ws_react(event: WsEvent, bare: &str) -> (r: WsAction)
    ensures
        match r {
            WsAction::Refuse(a) => failure_reply(event) == Some(a@),
            WsAction::Drop(n) => event matches WsEvent::AnswerFailed(e) && n@ == (NoteV {
                event: "proxy_error"@,
                detail: "回写 WebSocket 应答失败："@ + e@,
                dedup: false,
            }),
            WsAction::Rest(n) => event matches WsEvent::Answered(h) && answer_status(h@) != 101
                && n@ == (NoteV {
                event: "proxy_upstream_status"@,
                detail: "WebSocket 握手被上游拒绝（"@ + number::decimal(answer_status(h@)) + "，"@
                    + bare@ + "）"@,
                dedup: false,
            }),
            WsAction::Tunnel(n) => event matches WsEvent::Answered(h) && answer_status(h@) == 101
                && n@ == (NoteV {
                event: "ws_open"@,
                detail: "WebSocket 通道已接通，开始原样透传（"@ + bare@ + "）"@,
                dedup: false,
            }),
        },
{
    match event {
        WsEvent::OpenFailed(e) => {
            let body = text::plus("websocket upstream error: ".to_owned(), e.as_str());
            let detail = text::plus("WebSocket 上游不可用：".to_owned(), e.as_str());
            WsAction::Refuse(proxy::reply(502, body.as_str(), "proxy_error", detail, false))
        },
        WsEvent::WriteFailed(e) => {
            let detail = text::plus("转发 WebSocket 握手失败：".to_owned(), e.as_str());
            WsAction::Refuse(
                proxy::reply(502, "websocket handshake write failed", "proxy_error", detail, false),
            )
        },
        WsEvent::ReadFailed(e) => {
            let body = text::plus("websocket handshake read failed: ".to_owned(), e.as_str());
            let detail = text::plus("读取 WebSocket 上游应答失败：".to_owned(), e.as_str());
            WsAction::Refuse(proxy::reply(502, body.as_str(), "proxy_error", detail, false))
        },
        WsEvent::AnswerFailed(e) => {
            let detail = text::plus("回写 WebSocket 应答失败：".to_owned(), e.as_str());
            WsAction::Drop(proxy::note("proxy_error", detail, false))
        },
        WsEvent::Answered(head) => {
            let status: u16 = match http::status_of(head.as_slice()) {
                Some(n) => n,
                None => 0,
            };
            if status != 101 {
                let n = number::to_decimal(status as u64);
                let a = text::plus(
                    text::plus("WebSocket 握手被上游拒绝（".to_owned(), n.as_str()),
                    "，",
                );
                let detail = text::plus(text::plus(a, bare), "）");
                WsAction::Rest(proxy::note("proxy_upstream_status", detail, false))
            } else {
                let detail = text::plus(
                    text::plus("WebSocket 通道已接通，开始原样透传（".to_owned(), bare),
                    "）",
                );
                WsAction::Tunnel(proxy::note("ws_open", detail, false))
            }
        },
    }
}

/// What came of reading from one side of a channel.
#[derive(Clone, Copy, PartialEq, Eq, Structural)]
pub enum Got {
    /// The side has closed.
    Closed,
    /// Bytes have come.
    Bytes,
    /// Nothing has come yet.
    Nothing,
    /// Reading failed.
    Broken,
}

/// What to do after reading from one side.
#[derive(Clone, Copy, PartialEq, Eq, Structural)]
pub enum Turn {
    /// End the channel.
    Stop,
    /// Write the bytes to the other side.
    Forward,
    /// Go on with the other side.
    Skip,
}

/// Decides what to do after reading from one side of a channel.
pub fn relay_turn(got: Got) -> (r: Turn)
    ensures
        r == (match got {
            Got::Closed => Turn::Stop,
            Got::Broken => Turn::Stop,
            Got::Bytes => Turn::Forward,
            Got::Nothing => Turn::Skip,
        }),
{
    match got {
        Got::Closed => Turn::Stop,
        Got::Broken => Turn::Stop,
        Got::Bytes => Turn::Forward,
        Got::Nothing => Turn::Skip,
    }
}

/// The time since which the channel is silent, after a round of reading; none where it was silent
/// for too long.
pub fn relay_idle(moved: bool, since: u64, now: u64) -> (r: Option<u64>)
    ensures
        r == (if moved {
            Some(now)
        } else if now - since > WS_IDLE_MAX {
            None
        } else {
            Some(since)
        }),
{
    if moved {
        Some(now)
    } else if since <= now && now - since > WS_IDLE_MAX {
        None
    } else {
        Some(since)
    }
}

} // verus!
