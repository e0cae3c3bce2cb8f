//! What the gateway and the real-time channel promise of the requests that they hand on.
use crate::accounts::Account;
use crate::gateway;
use crate::http;
use crate::number;
use crate::proxy_laws;
use crate::realtime;
use crate::realtime::{WsEvent, WsUpstreamV};
use crate::routing;
use crate::session;
use crate::text;
use vstd::prelude::*;
use vstd::string::*;

verus! {

// ---------------------------------------------------------------------------
// The upstream of the channel
// ---------------------------------------------------------------------------

/// The text lacks the character.
pub open spec fn free_of(s: Seq<char>, c: char) -> bool {
    forall|k: int| 0 <= k < s.len() ==> #[trigger] s[k] != c
}

/// A text up to a character that does not stand before it.
pub proof fn lemma_cut(a: Seq<char>, c: char, b: Seq<char>)
    requires
        free_of(a, c),
    ensures
        text::before_char(a + seq![c] + b, c) == a,
        text::after_char(a + seq![c] + b, c) == Some(b),
        text::before_char(a, c) == a,
        text::after_char(a, c) is None,
{
    let s = a + seq![c] + b;
    text::law_cut_at_char(s, c);
    text::law_cut_at_char(a, c);
    let n = a.len() as int;
    assert(s[n] == c);
    let p = text::before_char(s, c);
    if let Some(t) = text::after_char(s, c) {
        let w = p + seq![c] + t;
        assert(w[p.len() as int] == c);
        if p.len() < n {
            assert(s[p.len() as int] == a[p.len() as int]);
        } else if n < p.len() {
            assert(p[n] == w[n]);
        }
        assert(s == w);
        assert forall|k: int| 0 <= k < n implies p[k] == a[k] by {
            assert(w[k] == p[k]);
            assert(s[k] == a[k]);
        }
        assert(p =~= a);
        assert(b =~= s.skip(n + 1));
        assert(t =~= s.skip(n + 1));
    } else {
        assert(p[n] == c);
    }
    if let Some(t) = text::after_char(a, c) {
        let q = text::before_char(a, c);
        assert((q + seq![c] + t)[q.len() as int] == c);
    }
}

pub proof fn lemma_last_char(a: Seq<char>, c: char, b: Seq<char>, n: int)
    requires
        free_of(b, c),
        a.len() + 1 <= n <= a.len() + 1 + b.len(),
    ensures
        realtime::last_char(a + seq![c] + b, c, n) == Some(a.len() as int),
    decreases n,
{
    let s = a + seq![c] + b;
    if n > a.len() + 1 {
        assert(s[n - 1] == b[n - a.len() - 2]);
        lemma_last_char(a, c, b, n - 1);
    }
}

proof fn lemma_no_char(s: Seq<char>, c: char, n: int)
    requires
        free_of(s, c),
        0 <= n <= s.len(),
    ensures
        realtime::last_char(s, c, n) is None,
    decreases n,
{
    if n > 0 {
        lemma_no_char(s, c, n - 1);
    }
}

/// The port of an authority is the number behind its last colon, or else that of the scheme.
pub proof fn law_port_behind_the_last_colon(host: Seq<char>, port: nat, secure: bool)
    requires
        port <= 65535,
    ensures
        realtime::host_port(host + seq![':'] + number::decimal(port), secure) == Some((host, port)),
        free_of(host, ':') ==> realtime::host_port(host, true) == Some((host, 443nat)),
        free_of(host, ':') ==> realtime::host_port(host, false) == Some((host, 80nat)),
{
    let d = number::decimal(port);
    number::lemma_decimal_digits(port);
    number::law_decimal_reads_back(port, 65535);
    assert forall|k: int| 0 <= k < d.len() implies #[trigger] d[k] != ':' by {
        assert(number::is_digit_of(d[k], 10));
    }
    let s = host + seq![':'] + d;
    lemma_last_char(host, ':', d, s.len() as int);
    assert(s.subrange((host.len() + 1) as int, s.len() as int) =~= d);
    assert(s.subrange(0, host.len() as int) =~= host);
    if free_of(host, ':') {
        lemma_no_char(host, ':', host.len() as int);
    }
}

/// The host field of a handshake names the upstream: its host and its port are read back from it.
pub proof fn law_host_field_names_the_upstream(up: WsUpstreamV)
    requires
        free_of(up.host, ':'),
        up.port <= 65535,
    ensures
        realtime::host_port(realtime::host_field(up), up.secure) == Some((up.host, up.port)),
        realtime::host_field(up) == up.host <==> up.port == (if up.secure {
            443nat
        } else {
            80nat
        }),
{
    law_port_behind_the_last_colon(up.host, up.port, up.secure);
    reveal_strlit(":");
    assert(":"@ =~= seq![':']);
    assert((up.host + ":"@ + number::decimal(up.port)).len() > up.host.len());
}

/// A URL names the upstream of the channel: whether it is secure by its scheme, the host, the port,
/// and the path without query and fragment.
pub proof fn law_url_names_the_upstream(
    scheme: Seq<char>,
    auth: Seq<char>,
    host: Seq<char>,
    port: nat,
    path: Seq<char>,
    tail: Seq<char>,
)
    requires
        free_of(scheme, ':'),
        free_of(auth, '/'),
        realtime::host_port(auth, text::same_word(scheme, "WSS"@)) == Some((host, port)),
        host.len() > 0,
        free_of(path, '?'),
        free_of(path, '#'),
        tail.len() > 0 ==> tail[0] == '?' || tail[0] == '#',
    ensures
        realtime::upstream_of(scheme + "://"@ + auth + "/"@ + path + tail) == Some(
            WsUpstreamV {
                secure: text::same_word(scheme, "WSS"@),
                host,
                port,
                path: "/"@ + path,
            },
        ),
        realtime::upstream_of(scheme + "://"@ + auth) == Some(
            WsUpstreamV {
                secure: text::same_word(scheme, "WSS"@),
                host,
                port,
                path: Seq::empty(),
            },
        ),
{
    assert(text::ascii_lower("WSS"@) == text::ascii_lower("wss"@)) by {
        reveal_strlit("WSS");
        reveal_strlit("wss");
        assert(text::ascii_lower("WSS"@) =~= text::ascii_lower("wss"@));
    }
    reveal_strlit("://");
    reveal_strlit("/");
    reveal_strlit("");
    assert("/"@ =~= seq!['/']);
    assert(""@ =~= Seq::<char>::empty());
    let rest = auth + "/"@ + path + tail;
    lemma_scheme(scheme, rest);
    lemma_scheme(scheme, auth);
    assert(scheme + "://"@ + auth + "/"@ + path + tail =~= scheme + "://"@ + rest);
    assert(rest =~= auth + seq!['/'] + (path + tail));
    lemma_cut(auth, '/', path + tail);
    let p = path + tail;
    lemma_path(path, tail);
}

proof fn lemma_scheme(scheme: Seq<char>, rest: Seq<char>)
    requires
        free_of(scheme, ':'),
    ensures
        ({
            let raw = scheme + "://"@ + rest;
            &&& text::find_from(raw, "://"@, 0) == Some(scheme.len() as int)
            &&& raw.subrange(0, scheme.len() as int) == scheme
            &&& raw.subrange((scheme.len() + 3) as int, raw.len() as int) == rest
        }),
{
    reveal_strlit("://");
    let raw = scheme + "://"@ + rest;
    let n = scheme.len() as int;
    assert(raw.subrange(n, n + 3) =~= "://"@);
    assert forall|j: int| 0 <= j < n implies !text::occurs_at(raw, "://"@, j) by {
        if text::occurs_at(raw, "://"@, j) {
            assert(raw.subrange(j, j + 3)[0] == raw[j]);
            assert(raw[j] == scheme[j]);
        }
    }
    text::lemma_find_is(raw, "://"@, 0, n);
    assert(raw.subrange(0, n) =~= scheme);
    assert(raw.subrange(n + 3, raw.len() as int) =~= rest);
}

proof fn lemma_path(path: Seq<char>, tail: Seq<char>)
    requires
        free_of(path, '?'),
        free_of(path, '#'),
        tail.len() > 0 ==> tail[0] == '?' || tail[0] == '#',
    ensures
        text::before_char(text::before_char(path + tail, '?'), '#') == path,
{
    let p = path + tail;
    if tail.len() == 0 {
        assert(p =~= path);
        lemma_cut(path, '?', tail);
        lemma_cut(path, '#', tail);
    } else if tail[0] == '?' {
        assert(p =~= path + seq!['?'] + tail.skip(1));
        lemma_cut(path, '?', tail.skip(1));
        lemma_cut(path, '#', tail);
    } else {
        let q = text::before_char(p, '?');
        text::law_cut_at_char(p, '?');
        let n = path.len() as int;
        assert(p[n] == '#');
        proxy_laws::lemma_cut_keeps(p, '?', n + 1);
        assert(q[n] == p[n]);
        assert(q =~= path + seq!['#'] + q.skip(n + 1)) by {
            assert forall|k: int| 0 <= k < q.len() implies q[k] == p[k] by {}
        }
        lemma_cut(path, '#', q.skip(n + 1));
    }
}

/// A text without a scheme, or without a host behind it, names no upstream.
pub proof fn law_what_names_no_upstream(raw: Seq<char>, scheme: Seq<char>, rest: Seq<char>)
    requires
        free_of(scheme, ':'),
    ensures
        !text::contains(raw, "://"@) ==> realtime::upstream_of(raw) is None,
        realtime::upstream_of(scheme + ":///"@ + rest) is None,
{
    reveal_strlit(":///");
    reveal_strlit("://");
    let r = seq!['/'] + rest;
    assert(scheme + ":///"@ + rest =~= scheme + "://"@ + r);
    lemma_scheme(scheme, r);
    let e = Seq::<char>::empty();
    assert(r =~= e + seq!['/'] + rest);
    lemma_cut(e, '/', rest);
    lemma_no_char(e, ':', 0);
}

// ---------------------------------------------------------------------------
// The handshake
// ---------------------------------------------------------------------------

/// Lines, each with its end.
pub open spec fn ended(lines: Seq<Seq<char>>) -> Seq<char>
    decreases lines.len(),
{
    if lines.len() == 0 {
        Seq::empty()
    } else {
        ended(lines.drop_last()) + lines.last() + "\r\n"@
    }
}

proof fn lemma_ended_front(p: Seq<char>, lines: Seq<Seq<char>>)
    ensures
        ended(seq![p] + lines) == p + "\r\n"@ + ended(lines),
    decreases lines.len(),
{
    let all = seq![p] + lines;
    if lines.len() == 0 {
        assert(all.drop_last() =~= Seq::<Seq<char>>::empty());
        assert(ended(all.drop_last()) =~= Seq::<char>::empty());
        assert(all.last() == p);
        assert(ended(all) =~= p + "\r\n"@ + ended(lines));
    } else {
        lemma_ended_front(p, lines.drop_last());
        assert(all.drop_last() =~= seq![p] + lines.drop_last());
        assert(all.last() == lines.last());
        assert(ended(all) =~= p + "\r\n"@ + ended(lines));
    }
}

/// The lines of a text come apart again.
proof fn lemma_lines_come_apart(lines: Seq<Seq<char>>)
    requires
        forall|i: int| 0 <= i < lines.len() ==> free_of(#[trigger] lines[i], '\r'),
    ensures
        text::split_by(ended(lines) + "\r\n"@, "\r\n"@) == lines + seq![
            Seq::<char>::empty(),
            Seq::<char>::empty(),
        ],
    decreases lines.len(),
{
    reveal_strlit("\r\n");
    let e = Seq::<char>::empty();
    let sep = "\r\n"@;
    let s = ended(lines) + sep;
    if lines.len() == 0 {
        assert(s =~= sep);
        assert(s.subrange(0, 2) =~= sep);
        text::lemma_find_is(s, sep, 0, 0);
        assert(s.subrange(0, 0) =~= e);
        assert(s.subrange(2, 2) =~= e);
        text::lemma_find_from(e, sep, 0);
        assert(text::split_by(e, sep) =~= seq![e]);
        assert(text::split_by(s, sep) =~= lines + seq![e, e]);
    } else {
        let p = lines[0];
        let more = lines.skip(1);
        assert(lines =~= seq![p] + more);
        lemma_ended_front(p, more);
        let rest = ended(more) + sep;
        assert(s =~= p + sep + rest);
        let n = p.len() as int;
        assert(s.subrange(n, n + 2) =~= sep);
        assert forall|j: int| 0 <= j < n implies !text::occurs_at(s, sep, j) by {
            if text::occurs_at(s, sep, j) {
                assert(s.subrange(j, j + 2)[0] == s[j]);
                assert(s[j] == p[j]);
            }
        }
        text::lemma_find_is(s, sep, 0, n);
        assert(s.subrange(0, n) =~= p);
        assert(s.subrange(n + 2, s.len() as int) =~= rest);
        assert forall|i: int| 0 <= i < more.len() implies free_of(#[trigger] more[i], '\r') by {
            assert(more[i] == lines[i + 1]);
        }
        lemma_lines_come_apart(more);
        assert(text::split_by(s, sep) =~= lines + seq![e, e]);
    }
}

/// The name of a header line stands before its first colon; a line without one has none.
pub proof fn law_name_of_a_line(name: Seq<char>, rest: Seq<char>)
    requires
        free_of(name, ':'),
    ensures
        realtime::line_name(name + seq![':'] + rest) == text::trim(name),
        realtime::line_name(name).len() == 0,
{
    lemma_cut(name, ':', rest);
    reveal_strlit("");
}

/// A line on its way: the host becomes that of the upstream, the credentials the given ones, and
/// every other line stays.
pub open spec fn sent_as(
    line: Seq<char>,
    out: Seq<char>,
    host: Seq<char>,
    auth: Option<Seq<char>>,
) -> bool {
    let name = realtime::line_name(line);
    if text::same_word(name, "Host"@) {
        out == "Host: "@ + host
    } else if text::same_word(name, "Authorization"@) && auth is Some {
        out == "Authorization: "@ + auth->0
    } else {
        out == line
    }
}

proof fn lemma_line(
    line: Seq<char>,
    out: Seq<char>,
    host: Seq<char>,
    auth: Option<Seq<char>>,
)
    requires
        sent_as(line, out, host, auth),
    ensures
        realtime::line_out(line, host, auth) == out + "\r\n"@,
{
    assert(text::ascii_lower("Host"@) == text::ascii_lower("host"@)) by {
        reveal_strlit("Host");
        reveal_strlit("host");
        assert(text::ascii_lower("Host"@) =~= text::ascii_lower("host"@));
    }
    assert(text::ascii_lower("Authorization"@) == text::ascii_lower("authorization"@)) by {
        reveal_strlit("Authorization");
        reveal_strlit("authorization");
        assert(text::ascii_lower("Authorization"@) =~= text::ascii_lower("authorization"@));
    }
}

proof fn lemma_lines_out(
    request: Seq<char>,
    lines: Seq<Seq<char>>,
    first: Seq<char>,
    out: Seq<Seq<char>>,
    host: Seq<char>,
    auth: Option<Seq<char>>,
)
    requires
        request.len() > 0,
        out.len() == lines.len(),
        forall|i: int|
            0 <= i < lines.len() ==> (#[trigger] lines[i]).len() > 0 && sent_as(
                lines[i],
                out[i],
                host,
                auth,
            ),
    ensures
        realtime::lines_out(seq![request] + lines, first + "\r\n"@, host, auth) == first + "\r\n"@
            + ended(out),
    decreases lines.len(),
{
    let all = seq![request] + lines;
    let f = first + "\r\n"@;
    if lines.len() == 0 {
        assert(all.drop_last() =~= Seq::<Seq<char>>::empty());
        assert(realtime::lines_out(all.drop_last(), f, host, auth) =~= Seq::<char>::empty());
        assert(all.last() == request);
        assert(realtime::lines_out(all, f, host, auth) =~= f + ended(out));
    } else {
        let l = lines.drop_last();
        let o = out.drop_last();
        assert forall|i: int| 0 <= i < l.len() implies (#[trigger] l[i]).len() > 0 && sent_as(
            l[i],
            o[i],
            host,
            auth,
        ) by {
            assert(l[i] == lines[i]);
        }
        lemma_lines_out(request, l, first, o, host, auth);
        assert(all.drop_last() =~= seq![request] + l);
        assert(all.last() == lines.last());
        let last = lines[lines.len() - 1];
        assert(sent_as(last, out.last(), host, auth));
        lemma_line(last, out.last(), host, auth);
        assert(realtime::lines_out(all, f, host, auth) =~= f + ended(out));
    }
}

/// A handshake goes to the upstream line by line and in order: its request line names the method and
/// the whole path and query, each header line goes as it came but for the host and the credentials,
/// and an empty line ends it.
pub proof fn law_handshake_keeps_its_lines(
    req: http::RequestV,
    up: WsUpstreamV,
    auth: Option<Seq<char>>,
    request: Seq<char>,
    lines: Seq<Seq<char>>,
    out: Seq<Seq<char>>,
)
    requires
        request.len() > 0,
        free_of(request, '\r'),
        out.len() == lines.len(),
        forall|i: int|
            0 <= i < lines.len() ==> (#[trigger] lines[i]).len() > 0 && free_of(lines[i], '\r')
                && sent_as(lines[i], out[i], realtime::host_field(up), auth),
    ensures
        realtime::handshake_text(ended(seq![request] + lines) + "\r\n"@, req, up, auth) == ended(
            seq![req.method + " "@ + http::bare_target(req.target) + " HTTP/1.1"@] + out,
        ) + "\r\n"@,
{
    let all = seq![request] + lines;
    let e = Seq::<char>::empty();
    assert forall|i: int| 0 <= i < all.len() implies free_of(#[trigger] all[i], '\r') by {
        if i > 0 {
            assert(all[i] == lines[i - 1]);
        }
    }
    lemma_lines_come_apart(all);
    let first = req.method + " "@ + http::bare_target(req.target) + " HTTP/1.1"@;
    reveal_strlit(" HTTP/1.1\r\n");
    reveal_strlit(" HTTP/1.1");
    reveal_strlit("\r\n");
    assert(req.method + " "@ + http::bare_target(req.target) + " HTTP/1.1\r\n"@ =~= first
        + "\r\n"@);
    let host = realtime::host_field(up);
    lemma_lines_out(request, lines, first, out, host, auth);
    let more = all + seq![e, e];
    let f = first + "\r\n"@;
    assert(more.drop_last() =~= all + seq![e]);
    assert((all + seq![e]).drop_last() =~= all);
    assert(more.last() == e);
    assert((all + seq![e]).last() == e);
    assert(realtime::lines_out(more, f, host, auth) == realtime::lines_out(
        all + seq![e],
        f,
        host,
        auth,
    ));
    assert(realtime::lines_out(all + seq![e], f, host, auth) == realtime::lines_out(
        all,
        f,
        host,
        auth,
    ));
    lemma_ended_front(first, out);
}

/// The conversation of a handshake is the one in its path, or else the first `X-Conversation-Id`
/// that is not empty.
pub proof fn law_conversation_of_a_handshake(req: http::RequestV, value: Option<Seq<char>>)
    requires
        proxy_laws::first_says(req.headers, "X-Conversation-Id"@, value),
    ensures
        session::path_session(req.target) matches Some(id) ==> id.len() > 0
            ==> realtime::handshake_conversation(req) == Some(id),
        session::path_session(req.target) is None ==> realtime::handshake_conversation(req) == (
        if value is Some && value->0.len() > 0 {
            value
        } else {
            None
        }),
{
    assert(text::ascii_lower("X-Conversation-Id"@) == text::ascii_lower("x-conversation-id"@)) by {
        reveal_strlit("X-Conversation-Id");
        reveal_strlit("x-conversation-id");
        assert(text::ascii_lower("X-Conversation-Id"@) =~= text::ascii_lower(
            "x-conversation-id"@,
        ));
    }
    proxy_laws::lemma_first_says(
        req.headers,
        "X-Conversation-Id"@,
        "x-conversation-id"@,
        value,
    );
}

/// Texts that are joined are the texts with the separator between them.
pub proof fn law_joined_texts(v: Seq<Seq<char>>, sep: Seq<char>)
    ensures
        realtime::joined_by(v, sep) == text::glued(v, sep),
    decreases v.len(),
{
    if v.len() > 1 {
        law_joined_texts(v.drop_last(), sep);
    }
}

/// The note on a handshake lists its names, and says whether one of them tells of credentials.
pub proof fn law_words_on_a_handshake(names: Seq<Seq<char>>)
    ensures
        ({
            let head = "WebSocket 握手请求头（仅名字）：["@ + text::glued(names, ", "@) + "] "@;
            let told = exists|i: int|
                0 <= i < names.len() && (names[i] == "authorization"@ || text::contains(
                    #[trigger] names[i],
                    "token"@,
                ) || text::contains(names[i], "cookie"@));
            realtime::handshake_words(names) == head + (if told {
                "—— 含鉴权类头，身份很可能就在这里 ⇒ 可在此替换凭据"@
            } else {
                "—— 没有明显的鉴权头，身份多半在握手之后的首帧里（要换得解析帧）"@
            })
        }),
{
    law_joined_texts(names, ", "@);
    if exists|i: int| 0 <= i < names.len() && realtime::auth_like(#[trigger] names[i]) {
        let i = choose|i: int| 0 <= i < names.len() && realtime::auth_like(#[trigger] names[i]);
        assert(text::contains(names[i], "token"@) || text::contains(names[i], "cookie"@)
            || names[i] == "authorization"@);
    }
    if exists|i: int|
        0 <= i < names.len() && (names[i] == "authorization"@ || text::contains(
            #[trigger] names[i],
            "token"@,
        ) || text::contains(names[i], "cookie"@)) {
        let i = choose|i: int|
            0 <= i < names.len() && (names[i] == "authorization"@ || text::contains(
                #[trigger] names[i],
                "token"@,
            ) || text::contains(names[i], "cookie"@));
        assert(realtime::auth_like(names[i]));
    }
}

/// A channel whose upstream fails before it answers is refused with 502 and the error; one that was
/// answered is not refused.
pub proof fn law_failed_channel_is_refused(event: WsEvent)
    ensures
        event matches WsEvent::OpenFailed(e) ==> ({
            let r = realtime::failure_reply(event);
            r is Some && r->0.status == 502 && r->0.body == "websocket upstream error: "@ + e@
                && r->0.note is Some && e@.is_suffix_of(r->0.note->0.detail)
        }),
        event matches WsEvent::WriteFailed(e) ==> ({
            let r = realtime::failure_reply(event);
            r is Some && r->0.status == 502 && r->0.body == "websocket handshake write failed"@
                && r->0.note is Some && e@.is_suffix_of(r->0.note->0.detail)
        }),
        event matches WsEvent::ReadFailed(e) ==> ({
            let r = realtime::failure_reply(event);
            r is Some && r->0.status == 502 && r->0.body == "websocket handshake read failed: "@
                + e@ && r->0.note is Some && e@.is_suffix_of(r->0.note->0.detail)
        }),
        event is AnswerFailed || event is Answered ==> realtime::failure_reply(event) is None,
        realtime::failure_reply(event) matches Some(r) ==> r.note is Some && r.note->0.event
            == "proxy_error"@ && !r.note->0.dedup,
{
}

// ---------------------------------------------------------------------------
// The gateway
// ---------------------------------------------------------------------------

/// Chat completions are asked for under three paths, in any case; only the usual one may have a
/// query.
pub proof fn law_paths_of_chat_completions(path: Seq<char>, query: Seq<char>)
    requires
        free_of(path, '?'),
        path.len() > 0,
        path[0] == '/',
    ensures
        gateway::chat_target(path) <==> text::same_word(path, "/v1/chat/completions"@)
            || text::same_word(path, "/v1/messages"@) || text::same_word(
            path,
            "/chat/completions"@,
        ),
        gateway::chat_target(path + seq!['?'] + query) <==> text::same_word(
            path,
            "/v1/chat/completions"@,
        ),
{
    let t = path + seq!['?'] + query;
    http::law_origin_form_is_kept(path);
    assert(t[0] == '/');
    http::law_origin_form_is_kept(t);
    text::lemma_find_char(path, '?', 0);
    text::lemma_find_char(t, '?', 0);
    assert(t[path.len() as int] == '?');
    match text::find_char(t, '?', 0) {
        Some(i) => {
            if i < path.len() {
                assert(t[i] == path[i]);
            }
            assert(i == path.len());
            assert(t.subrange(0, i) =~= path);
        },
        None => {},
    }
}

/// The conversation at the gateway is the one under `X-Conversation-Id`, or where there is no such
/// field, the one under `X-Chat-Id`, without the White_Space around it; an empty one is none.
pub proof fn law_conversation_at_the_gateway(
    h: Seq<(Seq<char>, Seq<char>)>,
    conv: Option<Seq<char>>,
    chat: Option<Seq<char>>,
)
    requires
        proxy_laws::first_says(h, "X-Conversation-Id"@, conv),
        proxy_laws::first_says(h, "X-Chat-Id"@, chat),
    ensures
        ({
            let v = if conv is Some {
                conv
            } else {
                chat
            };
            let r = gateway::named_conversation(h);
            &&& r is Some <==> v is Some && text::trim(v->0).len() > 0
            &&& r is Some ==> r->0 == text::trim(v->0)
        }),
{
    assert(text::ascii_lower("X-Conversation-Id"@) == text::ascii_lower("x-conversation-id"@)) by {
        reveal_strlit("X-Conversation-Id");
        reveal_strlit("x-conversation-id");
        assert(text::ascii_lower("X-Conversation-Id"@) =~= text::ascii_lower(
            "x-conversation-id"@,
        ));
    }
    assert(text::ascii_lower("X-Chat-Id"@) == text::ascii_lower("x-chat-id"@)) by {
        reveal_strlit("X-Chat-Id");
        reveal_strlit("x-chat-id");
        assert(text::ascii_lower("X-Chat-Id"@) =~= text::ascii_lower("x-chat-id"@));
    }
    proxy_laws::lemma_first_says(h, "X-Conversation-Id"@, "x-conversation-id"@, conv);
    proxy_laws::lemma_first_says(h, "X-Chat-Id"@, "x-chat-id"@, chat);
}

/// Completions are asked for at the host of the account, without the slashes at its end, or at the
/// default one.
pub proof fn law_completions_go_to_the_host(host: Seq<char>, base: Seq<char>)
    requires
        proxy_laws::is_base(base, host),
    ensures
        gateway::completion_url(Some(host)) == base + "/v1/chat/completions"@,
        gateway::completion_url(None) == "https://api.trae.cn/v1/chat/completions"@,
{
    proxy_laws::lemma_base(host);
    proxy_laws::lemma_base_is_one(base, text::trim_end_char(host, '/'), host);
    let d = "https://api.trae.cn"@;
    assert(d.len() > 0 && d.last() != '/') by {
        reveal_strlit("https://api.trae.cn");
    }
    assert(proxy_laws::is_base(d, d));
    proxy_laws::lemma_base(d);
    proxy_laws::lemma_base_is_one(d, text::trim_end_char(d, '/'), d);
    assert(d + "/v1/chat/completions"@ =~= "https://api.trae.cn/v1/chat/completions"@) by {
        reveal_strlit("https://api.trae.cn");
        reveal_strlit("/v1/chat/completions");
        reveal_strlit("https://api.trae.cn/v1/chat/completions");
    }
}

/// Exactly the accounts that are enabled, may be charged and are not banned may serve a request at
/// the gateway.
pub proof fn law_who_may_serve_at_the_gateway(
    all: Seq<Account>,
    selected: Seq<String>,
    ban: Seq<String>,
    a: Account,
)
    ensures
        gateway::serving(all, selected, ban).contains(a) <==> {
            &&& all.contains(a)
            &&& a.enabled
            &&& proxy_laws::charged(all, selected, a)
            &&& !text::has_text(ban, a.id@)
        },
{
    proxy_laws::lemma_charged(all, selected, a);
    proxy_laws::lemma_filter_holds(
        routing::chargeable(all, selected),
        gateway::may_serve(ban),
        a,
    );
}

/// Whoever serves a request at the gateway may serve it; where anyone may, someone does. Where every
/// account cools down, the first one serves.
pub proof fn law_someone_serves(
    pool: routing::Pool,
    all: Seq<Account>,
    selected: Seq<String>,
    ban: Seq<String>,
    now: u64,
)
    ensures
        gateway::serves(pool, all, selected, ban, None, now) is Some <==> gateway::serving(
            all,
            selected,
            ban,
        ).len() > 0,
        gateway::serves(pool, all, selected, ban, None, now) matches Some(a) ==> gateway::serving(
            all,
            selected,
            ban,
        ).contains(a),
        gateway::serving(all, selected, ban).len() > 0 && (forall|i: int|
            0 <= i < gateway::serving(all, selected, ban).len() ==> routing::cools(
                pool.cooldown@,
                (#[trigger] gateway::serving(all, selected, ban)[i]).id@,
                now,
            )) ==> gateway::serves(pool, all, selected, ban, None, now) == Some(
            gateway::serving(all, selected, ban)[0],
        ),
{
    let list = gateway::serving(all, selected, ban);
    if list.len() > 0 {
        lemma_warm(list, pool.cooldown@, now, 0);
        let k = gateway::first_warm(list, pool.cooldown@, now);
        assert(list.contains(list[k]));
    }
}

proof fn lemma_warm(
    list: Seq<Account>,
    cooldown: Map<Seq<char>, (u64, ())>,
    now: u64,
    i: int,
)
    requires
        0 <= i <= list.len(),
        list.len() > 0,
    ensures
        0 <= gateway::warm_from(list, cooldown, now, i) < list.len(),
        (forall|j: int| i <= j < list.len() ==> routing::cools(cooldown, (#[trigger] list[j]).id@, now))
            ==> gateway::warm_from(list, cooldown, now, i) == 0,
    decreases list.len() - i,
{
    if i < list.len() {
        lemma_warm(list, cooldown, now, i + 1);
    }
}

/// Choosing an account binds the conversation to it; no other one is bound anew, and those that were
/// bound half an hour ago or longer are forgotten.
pub proof fn law_choice_binds_the_conversation(
    sticky: Map<Seq<char>, (u64, String)>,
    conv: Seq<char>,
    chosen: Account,
    now: u64,
    other: Seq<char>,
)
    requires
        other != conv,
    ensures
        ({
            let after = gateway::bound_after(sticky, Some(conv), Some(chosen), now);
            &&& after.contains_key(conv) && after[conv] == (now, chosen.id)
            &&& after.contains_key(other) ==> sticky.contains_key(other) && after[other]
                == sticky[other]
            &&& after.contains_key(other) <==> sticky.contains_key(other) && now - sticky[other].0
                < 1_800_000
        }),
        gateway::bound_after(sticky, None, Some(chosen), now) == sticky,
        gateway::bound_after(sticky, Some(conv), None, now) == sticky,
{
}

/// The head of a response that is handed on carries its status and its content type, and says that
/// it is chunked.
pub proof fn law_stream_head_tells_status_and_type(status: u16, ctype: Seq<char>)
    ensures
        ({
            let s = gateway::stream_head_text(status, ctype);
            let start = "HTTP/1.1 "@ + number::decimal(status as nat) + " "@;
            let end = "\r\nContent-Type: "@ + ctype
                + "\r\nTransfer-Encoding: chunked\r\nCache-Control: no-cache\r\nConnection: close\r\n\r\n"@;
            &&& start.is_prefix_of(s)
            &&& end.is_suffix_of(s)
            &&& s.len() == start.len() + gateway::reason_of(status).len() + end.len()
        }),
        gateway::reason_of(204) == "OK"@,
        status != 204 ==> gateway::reason_of(status) == http::reason_of(status),
{
    let s = gateway::stream_head_text(status, ctype);
    let start = "HTTP/1.1 "@ + number::decimal(status as nat) + " "@;
    let end = "\r\nContent-Type: "@ + ctype
        + "\r\nTransfer-Encoding: chunked\r\nCache-Control: no-cache\r\nConnection: close\r\n\r\n"@;
    assert(s =~= start + gateway::reason_of(status) + end);
}

} // verus!
