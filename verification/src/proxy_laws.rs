//! What the proxy promises of the requests that it hands on: they arrive whole, and only the
//! credentials of charged ones are swapped.
use crate::accounts::Account;
use crate::http;
use crate::http_laws;
use crate::proxy;
use crate::proxy::Forward;
use crate::routing;
use crate::rules;
use crate::rules::Rules;
use crate::session;
use crate::text;
use vstd::prelude::*;
use vstd::string::*;

verus! {

// ---------------------------------------------------------------------------
// Where a request goes
// ---------------------------------------------------------------------------

/// `base` is `upstream` without the slashes at its end.
pub open spec fn is_base(base: Seq<char>, upstream: Seq<char>) -> bool {
    &&& base.is_prefix_of(upstream)
    &&& base.len() > 0 ==> base.last() != '/'
    &&& forall|k: int| base.len() <= k < upstream.len() ==> #[trigger] upstream[k] == '/'
}

pub proof fn lemma_base(upstream: Seq<char>)
    ensures
        is_base(text::trim_end_char(upstream, '/'), upstream),
{
    text::law_trailing_char_goes(upstream, '/');
}

/// There is only one base.
pub proof fn lemma_base_is_one(a: Seq<char>, b: Seq<char>, upstream: Seq<char>)
    requires
        is_base(a, upstream),
        is_base(b, upstream),
    ensures
        a == b,
{
    if a.len() < b.len() {
        assert(b.last() == upstream[b.len() - 1]);
    } else if b.len() < a.len() {
        assert(a.last() == upstream[a.len() - 1]);
    } else {
        assert(a =~= b);
    }
}

/// A request arrives whole: its URL is the upstream followed by every character of the target, the
/// query with it, and its body is the body that came in.
pub proof fn law_request_arrives_whole(
    f: Forward,
    req: http::RequestV,
    body: Seq<u8>,
    upstream: Seq<char>,
    base: Seq<char>,
)
    requires
        proxy::forwards(f, req, body, upstream),
        is_base(base, upstream),
        req.target.len() > 0,
        req.target[0] == '/',
    ensures
        f.url@ == base + req.target,
        f.bare@ == req.target,
        f.body@ == body,
{
    lemma_base(upstream);
    lemma_base_is_one(base, text::trim_end_char(upstream, '/'), upstream);
    http::law_origin_form_is_kept(req.target);
}

/// Of a request for an absolute URI the path and query arrive whole, at the upstream in place of the
/// host that it names.
pub proof fn law_absolute_target_arrives_whole(
    f: Forward,
    req: http::RequestV,
    body: Seq<u8>,
    upstream: Seq<char>,
    base: Seq<char>,
    scheme: Seq<char>,
    host: Seq<char>,
    rest: Seq<char>,
)
    requires
        proxy::forwards(f, req, body, upstream),
        is_base(base, upstream),
        req.target == scheme + "://"@ + host + rest,
        forall|k: int|
            0 <= k < scheme.len() ==> !http::delimits(#[trigger] scheme[k]) && scheme[k] != ':',
        forall|k: int| 0 <= k < host.len() ==> host[k] != '/' && #[trigger] host[k] != '?',
        rest.len() > 0,
        rest[0] == '/' || rest[0] == '?',
    ensures
        f.url@ == base + rest,
        f.body@ == body,
{
    lemma_base(upstream);
    lemma_base_is_one(base, text::trim_end_char(upstream, '/'), upstream);
    http::law_path_and_query_are_kept(scheme, host, rest);
}

/// A header field that stays behind: the host and the credentials, which are set anew, and what
/// speaks of the connection.
pub open spec fn stays_behind(name: Seq<char>) -> bool {
    ||| text::same_word(name, "Host"@)
    ||| text::same_word(name, "Authorization"@)
    ||| text::same_word(name, "Content-Length"@)
    ||| text::same_word(name, "Transfer-Encoding"@)
    ||| text::same_word(name, "Connection"@)
    ||| text::same_word(name, "Keep-Alive"@)
    ||| text::same_word(name, "Accept-Encoding"@)
}

/// The header fields of a request go on with it, unchanged and in their order, but for those that
/// stay behind.
pub proof fn law_other_fields_go_on(h: Seq<(Seq<char>, Seq<char>)>)
    ensures
        proxy::forwarded(h) == h.filter(|f: (Seq<char>, Seq<char>)| !stays_behind(f.0)),
    decreases h.len(),
{
    let keep = |f: (Seq<char>, Seq<char>)| !stays_behind(f.0);
    reveal(Seq::filter);
    if h.len() > 0 {
        law_other_fields_go_on(h.drop_last());
        http_laws::law_fields_that_stay_behind(h.last().0);
        assert(proxy::forwarded(h) =~= h.filter(keep));
    } else {
        assert(proxy::forwarded(h) =~= h.filter(keep));
    }
}

/// The conversation of a request is the one that its target or its body names; only where they name
/// none, the first `X-Conversation-Id` counts, unless it is empty.
pub proof fn law_conversation_of_a_request(
    f: Forward,
    req: http::RequestV,
    body: Seq<u8>,
    upstream: Seq<char>,
)
    requires
        proxy::forwards(f, req, body, upstream),
    ensures
        match session::conversation_of(req.target, body) {
            Some(id) => f.conv matches Some(c) && c@ == id,
            None => {
                &&& (forall|i: int|
                    0 <= i < req.headers.len() ==> !text::same_word(
                        #[trigger] req.headers[i].0,
                        "X-Conversation-Id"@,
                    )) ==> f.conv is None
                &&& forall|i: int|
                    0 <= i < req.headers.len() && text::same_word(
                        #[trigger] req.headers[i].0,
                        "X-Conversation-Id"@,
                    ) && (forall|j: int|
                        0 <= j < i ==> !text::same_word(
                            #[trigger] req.headers[j].0,
                            "X-Conversation-Id"@,
                        )) ==> text::opt_text(f.conv) == (if req.headers[i].1.len() > 0 {
                        Some(req.headers[i].1)
                    } else {
                        None
                    })
            },
        },
{
    session::law_ids_are_not_empty(req.target, body);
    reveal_strlit("X-Conversation-Id");
    reveal_strlit("x-conversation-id");
    assert(text::ascii_lower("X-Conversation-Id"@) =~= text::ascii_lower("x-conversation-id"@));
    lemma_first_named(req.headers, "X-Conversation-Id"@, "x-conversation-id"@);
}

/// The first field with a name is found under any spelling of it.
proof fn lemma_first_named(h: Seq<(Seq<char>, Seq<char>)>, name: Seq<char>, spelt: Seq<char>)
    requires
        text::ascii_lower(name) == text::ascii_lower(spelt),
    ensures
        (forall|i: int| 0 <= i < h.len() ==> !text::same_word(#[trigger] h[i].0, name))
            ==> http::find_header(h, spelt) is None,
        forall|i: int|
            0 <= i < h.len() && text::same_word(#[trigger] h[i].0, name) && (forall|j: int|
                0 <= j < i ==> !text::same_word(#[trigger] h[j].0, name)) ==> http::find_header(
                h,
                spelt,
            ) == Some(h[i].1),
{
    http_laws::law_first_field_counts(h, spelt);
    match http::find_header(h, spelt) {
        Some(v) => {
            let k = choose|k: int|
                0 <= k < h.len() && text::same_word(#[trigger] h[k].0, spelt) && h[k].1 == v
                    && forall|j: int| 0 <= j < k ==> !text::same_word(#[trigger] h[j].0, spelt);
            assert(text::same_word(h[k].0, name));
            assert forall|i: int|
                0 <= i < h.len() && text::same_word(#[trigger] h[i].0, name) && (forall|j: int|
                    0 <= j < i ==> !text::same_word(#[trigger] h[j].0, name)) implies v
                == h[i].1 by {
                if i < k {
                    assert(!text::same_word(h[i].0, spelt));
                } else if k < i {
                    assert(!text::same_word(h[k].0, name));
                }
            }
        },
        None => {
            assert forall|i: int|
                0 <= i < h.len() && text::same_word(#[trigger] h[i].0, name) implies false by {
                assert(!text::same_word(h[i].0, spelt));
            }
        },
    }
}

/// The first header field with a name, in any spelling, has the given value, or there is none.
pub open spec fn first_says(
    h: Seq<(Seq<char>, Seq<char>)>,
    name: Seq<char>,
    value: Option<Seq<char>>,
) -> bool {
    match value {
        Some(v) => exists|i: int|
            0 <= i < h.len() && text::same_word(#[trigger] h[i].0, name) && h[i].1 == v && forall|
                j: int,
            | 0 <= j < i ==> !text::same_word(#[trigger] h[j].0, name),
        None => forall|i: int| 0 <= i < h.len() ==> !text::same_word(#[trigger] h[i].0, name),
    }
}

pub proof fn lemma_first_says(
    h: Seq<(Seq<char>, Seq<char>)>,
    name: Seq<char>,
    spelt: Seq<char>,
    value: Option<Seq<char>>,
)
    requires
        text::ascii_lower(name) == text::ascii_lower(spelt),
        first_says(h, name, value),
    ensures
        http::find_header(h, spelt) == value,
{
    lemma_first_named(h, name, spelt);
    if let Some(v) = value {
        let i = choose|i: int|
            0 <= i < h.len() && text::same_word(#[trigger] h[i].0, name) && h[i].1 == v && forall|
                j: int,
            | 0 <= j < i ==> !text::same_word(#[trigger] h[j].0, name);
        assert(text::same_word(h[i].0, name));
    }
}

/// A page of any origin may read the answer: the origin that asks is the one that is allowed, with
/// its credentials, and the header fields that it asks for are; where nothing is asked, everything
/// is allowed.
pub proof fn law_asking_origin_is_allowed(
    h: Seq<(Seq<char>, Seq<char>)>,
    origin: Option<Seq<char>>,
    asked: Option<Seq<char>>,
)
    requires
        first_says(h, "Origin"@, origin),
        first_says(h, "Access-Control-Request-Headers"@, asked),
    ensures
        proxy::cors(h) == seq![
            (
                "access-control-allow-origin"@,
                if origin is Some {
                    origin->0
                } else {
                    "*"@
                },
            ),
            ("access-control-allow-credentials"@, "true"@),
            ("access-control-allow-methods"@, "GET,POST,PUT,PATCH,DELETE,OPTIONS"@),
            (
                "access-control-allow-headers"@,
                if asked is Some {
                    asked->0
                } else {
                    "*"@
                },
            ),
            ("access-control-expose-headers"@, "*"@),
            ("access-control-max-age"@, "600"@),
            ("vary"@, "Origin"@),
        ],
{
    assert(text::ascii_lower("Origin"@) == text::ascii_lower("origin"@)) by {
        reveal_strlit("Origin");
        reveal_strlit("origin");
        assert(text::ascii_lower("Origin"@) =~= text::ascii_lower("origin"@));
    }
    assert(text::ascii_lower("Access-Control-Request-Headers"@) == text::ascii_lower(
        "access-control-request-headers"@,
    )) by {
        reveal_strlit("Access-Control-Request-Headers");
        reveal_strlit("access-control-request-headers");
        assert(text::ascii_lower("Access-Control-Request-Headers"@) =~= text::ascii_lower(
            "access-control-request-headers"@,
        ));
    }
    lemma_first_says(h, "Origin"@, "origin"@, origin);
    lemma_first_says(
        h,
        "Access-Control-Request-Headers"@,
        "access-control-request-headers"@,
        asked,
    );
}

// ---------------------------------------------------------------------------
// Whose credentials go along
// ---------------------------------------------------------------------------

/// Credentials are swapped exactly where the rules do not only observe, no prefix of the paths that
/// are never swapped begins the path, and one of the charged prefixes does: those of the rules, or
/// the built-in ones where the rules have none.
pub proof fn law_what_is_swapped(r: Rules, path: Seq<char>)
    ensures
        rules::swaps(r, path, proxy::billing_paths()) <==> {
            &&& !r.observe_only
            &&& forall|i: int|
                0 <= i < r.never_swap_prefixes@.len()
                    ==> !(#[trigger] r.never_swap_prefixes@[i])@.is_prefix_of(path)
            &&& r.swap_http_prefixes@.len() > 0 ==> exists|i: int|
                0 <= i < r.swap_http_prefixes@.len()
                    && (#[trigger] r.swap_http_prefixes@[i])@.is_prefix_of(path)
            &&& r.swap_http_prefixes@.len() == 0 ==> "/api/remote/v1/chat_sessions"@.is_prefix_of(
                path,
            ) || "/api/remote/v1/models"@.is_prefix_of(path)
                || "/api/remote/v1/file_converts"@.is_prefix_of(path)
        },
{
    lemma_under_any(path, r.never_swap_prefixes@);
    lemma_under_any(path, r.swap_http_prefixes@);
    let b = proxy::billing_paths();
    lemma_starts(path, b[0]);
    lemma_starts(path, b[1]);
    lemma_starts(path, b[2]);
    if rules::under_any(path, b) {
        let i = choose|i: int| 0 <= i < b.len() && text::starts_with(path, #[trigger] b[i]);
        assert(i == 0 || i == 1 || i == 2);
    }
    if text::starts_with(path, b[0]) || text::starts_with(path, b[1]) || text::starts_with(
        path,
        b[2],
    ) {
        assert(rules::under_any(path, b));
    }
}

/// To begin with a text is to have it as prefix.
pub proof fn lemma_starts(s: Seq<char>, p: Seq<char>)
    ensures
        text::starts_with(s, p) <==> p.is_prefix_of(s),
{
    if text::starts_with(s, p) {
        assert(s.subrange(0, p.len() as int) =~= p);
    }
    if p.is_prefix_of(s) {
        assert(s.subrange(0, p.len() as int) =~= p);
    }
}

proof fn lemma_under_any(path: Seq<char>, v: Seq<String>)
    ensures
        rules::under_any(path, text::texts(v)) <==> exists|i: int|
            0 <= i < v.len() && (#[trigger] v[i])@.is_prefix_of(path),
{
    let t = text::texts(v);
    if rules::under_any(path, t) {
        let i = choose|i: int| 0 <= i < t.len() && text::starts_with(path, #[trigger] t[i]);
        lemma_starts(path, t[i]);
        assert(v[i]@.is_prefix_of(path));
    }
    if exists|i: int| 0 <= i < v.len() && (#[trigger] v[i])@.is_prefix_of(path) {
        let i = choose|i: int| 0 <= i < v.len() && (#[trigger] v[i])@.is_prefix_of(path);
        lemma_starts(path, t[i]);
        assert(text::starts_with(path, t[i]));
    }
}

/// The credentials of an account are its token, behind the name of the scheme.
pub proof fn law_credentials_carry_the_token(token: Seq<char>, other: Seq<char>)
    ensures
        "Cloud-IDE-JWT "@.is_prefix_of(proxy::credential_of(token)),
        token.is_suffix_of(proxy::credential_of(token)),
        proxy::credential_of(token).len() == "Cloud-IDE-JWT "@.len() + token.len(),
        proxy::credential_of(token) == proxy::credential_of(other) ==> token == other,
{
    let c = proxy::credential_of(token);
    let n = "Cloud-IDE-JWT "@.len() as int;
    assert(c.subrange(n, c.len() as int) =~= token);
    if c == proxy::credential_of(other) {
        assert(c.subrange(n, c.len() as int) =~= other);
    }
}

// ---------------------------------------------------------------------------
// Which requests are refused
// ---------------------------------------------------------------------------

/// A tunnel is refused with 405, whatever else holds. Without a known upstream every other request
/// is answered with 502. A WebSocket needs a channel, and a path under the channel's own; any other
/// request goes on.
pub proof fn law_what_is_refused(req: http::RequestV, upstream: bool, ws: Option<Seq<char>>)
    ensures
        ({
            let r = proxy::refusal(req, upstream, ws);
            let upgrade = proxy::upgrade_asked(req.headers);
            &&& req.method == "CONNECT"@ ==> r is Some && r->0.status == 405
            &&& req.method != "CONNECT"@ && !upstream ==> r is Some && r->0.status == 502
            &&& req.method != "CONNECT"@ && upstream && !upgrade ==> r is None
            &&& req.method != "CONNECT"@ && upstream && upgrade && ws is None ==> r is Some
                && r->0.status == 502
            &&& req.method != "CONNECT"@ && upstream && upgrade && ws is Some ==> (r is None
                <==> ws->0.is_prefix_of(http::bare_target(req.target))) && (r is Some
                ==> r->0.status == 502)
        }),
{
    if let Some(p) = ws {
        lemma_starts(http::bare_target(req.target), p);
    }
}

/// A request asks for a WebSocket by an `Upgrade` field that says so, in any case, or by a key.
pub proof fn law_who_asks_for_a_websocket(h: Seq<(Seq<char>, Seq<char>)>)
    ensures
        proxy::upgrade_asked(h) <==> {
            ||| exists|i: int|
                0 <= i < h.len() && text::same_word(#[trigger] h[i].0, "Upgrade"@)
                    && text::same_word(h[i].1, "WebSocket"@) && forall|j: int|
                    0 <= j < i ==> !text::same_word(#[trigger] h[j].0, "Upgrade"@)
            ||| exists|i: int|
                0 <= i < h.len() && text::same_word(#[trigger] h[i].0, "Sec-WebSocket-Key"@)
                    && h[i].1.len() > 0
        },
{
    reveal_strlit("Upgrade");
    reveal_strlit("upgrade");
    reveal_strlit("WebSocket");
    reveal_strlit("websocket");
    reveal_strlit("Sec-WebSocket-Key");
    reveal_strlit("sec-websocket-key");
    assert(text::ascii_lower("Upgrade"@) =~= text::ascii_lower("upgrade"@));
    assert(text::ascii_lower("WebSocket"@) =~= text::ascii_lower("websocket"@));
    assert(text::ascii_lower("Sec-WebSocket-Key"@) =~= text::ascii_lower("sec-websocket-key"@));
    http_laws::law_first_field_counts(h, "upgrade"@);
    lemma_first_named(h, "Upgrade"@, "upgrade"@);
    if proxy::upgrade_asked(h) {
        if exists|i: int|
            0 <= i < h.len() && text::same_word((#[trigger] h[i]).0, "sec-websocket-key"@)
                && h[i].1.len() > 0 {
            let i = choose|i: int|
                0 <= i < h.len() && text::same_word((#[trigger] h[i]).0, "sec-websocket-key"@)
                    && h[i].1.len() > 0;
            assert(text::same_word(h[i].0, "Sec-WebSocket-Key"@));
        } else {
            let v = http::find_header(h, "upgrade"@)->0;
            let i = choose|i: int|
                0 <= i < h.len() && text::same_word(#[trigger] h[i].0, "upgrade"@) && h[i].1 == v
                    && forall|j: int| 0 <= j < i ==> !text::same_word(#[trigger] h[j].0, "upgrade"@);
            assert(text::same_word(h[i].0, "Upgrade"@));
            assert forall|j: int| 0 <= j < i implies !text::same_word(
                #[trigger] h[j].0,
                "Upgrade"@,
            ) by {
                assert(!text::same_word(h[j].0, "upgrade"@));
            }
        }
    }
    if exists|i: int|
        0 <= i < h.len() && text::same_word(#[trigger] h[i].0, "Sec-WebSocket-Key"@) && h[i].1.len()
            > 0 {
        let i = choose|i: int|
            0 <= i < h.len() && text::same_word(#[trigger] h[i].0, "Sec-WebSocket-Key"@)
                && h[i].1.len() > 0;
        assert(text::same_word(h[i].0, "sec-websocket-key"@));
    }
}

/// The host of a URL stands between the scheme and the first slash, question mark or colon; it is
/// noted in lower case.
pub proof fn law_host_stands_behind_the_scheme(scheme: Seq<char>, host: Seq<char>, rest: Seq<char>)
    requires
        forall|k: int| 0 <= k < scheme.len() ==> #[trigger] scheme[k] != ':',
        forall|k: int|
            0 <= k < host.len() ==> #[trigger] host[k] != '/' && host[k] != '?' && host[k] != ':',
        rest.len() > 0 ==> rest[0] == '/' || rest[0] == '?' || rest[0] == ':',
    ensures
        text::same_word(proxy::host_name(scheme + "://"@ + host + rest), host),
        proxy::host_name(scheme + "://"@ + host + rest).len() == host.len(),
{
    reveal_strlit("://");
    let t = scheme + "://"@ + host + rest;
    let n = scheme.len() as int;
    assert(t.subrange(n, n + 3) =~= "://"@);
    assert forall|j: int| 0 <= j < n implies !text::occurs_at(t, "://"@, j) by {
        if text::occurs_at(t, "://"@, j) {
            assert(t.subrange(j, j + 3)[0] == t[j]);
            assert(t[j] == scheme[j]);
        }
    }
    text::lemma_find_is(t, "://"@, 0, n);
    let r = t.subrange(n + 3, t.len() as int);
    assert(r =~= host + rest);
    text::law_cut_at_char(r, '/');
    let a = text::before_char(r, '/');
    text::law_cut_at_char(a, '?');
    let b = text::before_char(a, '?');
    text::law_cut_at_char(b, ':');
    let c = text::before_char(b, ':');
    let m = host.len() as int;
    lemma_cut_keeps(r, '/', m);
    assert(a.take(m) =~= host) by {
        assert(r.take(m) =~= host);
    }
    assert forall|k: int| 0 <= k < m implies #[trigger] a[k] != '?' by {
        assert(a.take(m)[k] == host[k]);
    }
    lemma_cut_keeps(a, '?', m);
    assert forall|k: int| 0 <= k < m implies #[trigger] b[k] != ':' by {
        assert(b.take(m)[k] == host[k]);
    }
    lemma_cut_keeps(b, ':', m);
    assert(c.take(m) =~= host);
    if c.len() > m {
        assert(c[m] == r[m]);
        assert(r[m] == rest[0]);
        assert(a[m] == r[m] && b[m] == a[m]);
    }
    assert(c =~= host);
    assert(text::ascii_lower(text::ascii_lower(host)) =~= text::ascii_lower(host));
}

pub proof fn lemma_cut_keeps(s: Seq<char>, c: char, m: int)
    requires
        0 <= m <= s.len(),
        forall|k: int| 0 <= k < m ==> #[trigger] s[k] != c,
    ensures
        text::before_char(s, c).len() >= m,
        text::before_char(s, c).take(m) == s.take(m),
        text::before_char(s, c).is_prefix_of(s),
        forall|k: int|
            0 <= k < text::before_char(s, c).len() ==> #[trigger] text::before_char(s, c)[k] != c
                && text::before_char(s, c)[k] == s[k],
{
    text::lemma_find_char(s, c, 0);
    let b = text::before_char(s, c);
    assert(b.take(m) =~= s.take(m));
    assert(b =~= s.subrange(0, b.len() as int));
}

/// What a refused request is answered, and what is noted of it.
pub proof fn law_refusals_say_why(req: http::RequestV, upstream: bool, ws: Option<Seq<char>>)
    ensures
        ({
            let r = proxy::refusal(req, upstream, ws);
            let bare = http::bare_target(req.target);
            r matches Some(a) ==> {
                &&& a.note is Some && a.note->0.dedup
                &&& req.method == "CONNECT"@ ==> a.body == "this endpoint is not a forward proxy\n"@
                    && a.note->0.event == "proxy_bad_request"@
                &&& req.method != "CONNECT"@ ==> a.note->0.event == "proxy_error"@
                &&& req.method != "CONNECT"@ && !upstream ==> a.body
                    == "cannot resolve upstream from product.json"@
                &&& req.method != "CONNECT"@ && upstream && ws is None ==> a.body
                    == "cannot resolve websocket upstream"@
                &&& req.method != "CONNECT"@ && upstream && ws is Some ==> a.body
                    == "websocket path not routed"@ && a.note->0.detail
                    == "WebSocket 升级请求的路径 "@ + bare + " 不在 ws 上游前缀 "@ + ws->0
                    + " 下，已拒绝（避免把非实时请求塞进实时通道）"@
            }
        }),
{
}

// ---------------------------------------------------------------------------
// After the upstream has answered
// ---------------------------------------------------------------------------

/// A request goes out again exactly after a limit, where fewer than two accounts were limited
/// before and another one may serve it.
pub proof fn law_when_a_request_is_sent_again(limited: bool, banned: nat, another: bool)
    ensures
        proxy::sent_again(limited, banned, another) <==> limited && banned <= 1 && another,
{
}

/// The account may be charged: it is selected, or nothing is selected that is there.
pub open spec fn charged(all: Seq<Account>, selected: Seq<String>, a: Account) -> bool {
    ||| selected.len() == 0
    ||| text::has_text(selected, a.id@)
    ||| forall|k: int| 0 <= k < all.len() ==> !text::has_text(selected, (#[trigger] all[k]).id@)
}

/// Exactly the accounts that may be charged and are not banned may serve a request.
pub proof fn law_who_may_serve(
    all: Seq<Account>,
    selected: Seq<String>,
    ban: Seq<String>,
    a: Account,
)
    ensures
        routing::eligible(all, selected, ban).contains(a) <==> all.contains(a) && charged(
            all,
            selected,
            a,
        ) && !text::has_text(ban, a.id@),
{
    lemma_charged(all, selected, a);
    let ch = routing::chargeable(all, selected);
    let keep = routing::not_listed(ban);
    lemma_filter_holds(ch, keep, a);
}

/// Exactly the accounts that may be charged are candidates.
pub proof fn lemma_charged(all: Seq<Account>, selected: Seq<String>, a: Account)
    ensures
        routing::chargeable(all, selected).contains(a) <==> all.contains(a) && charged(
            all,
            selected,
            a,
        ),
{
    let pick = routing::listed(selected);
    let picked = all.filter(pick);
    lemma_filter_holds(all, pick, a);
    if picked.len() > 0 {
        lemma_filter_holds(all, pick, picked[0]);
        assert(picked.contains(picked[0]));
        let k = choose|k: int| 0 <= k < all.len() && all[k] == picked[0];
        assert(text::has_text(selected, all[k].id@));
    } else {
        assert forall|k: int| 0 <= k < all.len() implies !text::has_text(
            selected,
            (#[trigger] all[k]).id@,
        ) by {
            lemma_filter_holds(all, pick, all[k]);
            assert(all.contains(all[k]));
        }
    }
}

/// A filtered list holds exactly what the list holds and the test lets through.
pub proof fn lemma_filter_holds(list: Seq<Account>, keep: spec_fn(Account) -> bool, a: Account)
    ensures
        list.filter(keep).contains(a) <==> list.contains(a) && keep(a),
    decreases list.len(),
{
    reveal(Seq::filter);
    let f = list.filter(keep);
    if list.len() > 0 {
        let rest = list.drop_last();
        let g = rest.filter(keep);
        lemma_filter_holds(rest, keep, a);
        if list.contains(a) && a != list.last() {
            let i = choose|i: int| 0 <= i < list.len() && list[i] == a;
            assert(rest[i] == a);
        }
        if rest.contains(a) {
            let i = choose|i: int| 0 <= i < rest.len() && rest[i] == a;
            assert(list[i] == a);
        }
        if keep(list.last()) {
            assert(f =~= g.push(list.last()));
            if g.contains(a) {
                let i = choose|i: int| 0 <= i < g.len() && g[i] == a;
                assert(f[i] == a);
            }
            if a == list.last() {
                assert(f[g.len() as int] == a);
                assert(list[list.len() - 1] == a);
            }
            if f.contains(a) && a != list.last() {
                let i = choose|i: int| 0 <= i < f.len() && f[i] == a;
                assert(g[i] == a);
            }
        }
    }
}

/// Another account is left exactly where one besides the limited and the banned ones may be charged.
pub proof fn law_whether_another_is_left(
    all: Seq<Account>,
    selected: Seq<String>,
    ban: Seq<String>,
    account: Account,
)
    ensures
        proxy::has_another(all, selected, ban, account) <==> exists|k: int|
            0 <= k < all.len() && charged(all, selected, #[trigger] all[k]) && !text::has_text(
                ban,
                all[k].id@,
            ) && all[k].id@ != account.id@,
{
    let more = ban.push(account.id);
    let el = routing::eligible(all, selected, more);
    assert forall|t: Seq<char>| #[trigger] text::has_text(more, t) <==> text::has_text(ban, t) || t
        == account.id@ by {
        if text::has_text(ban, t) {
            let i = choose|i: int| 0 <= i < ban.len() && (#[trigger] ban[i])@ == t;
            assert(more[i]@ == t);
        }
        if t == account.id@ {
            assert(more[ban.len() as int]@ == t);
        }
        if text::has_text(more, t) && t != account.id@ {
            let i = choose|i: int| 0 <= i < more.len() && (#[trigger] more[i])@ == t;
            assert(ban[i]@ == t);
        }
    }
    if el.len() > 0 {
        assert(el.contains(el[0]));
        law_who_may_serve(all, selected, more, el[0]);
        let k = choose|k: int| 0 <= k < all.len() && all[k] == el[0];
        assert(charged(all, selected, all[k]));
    }
    if exists|k: int|
        0 <= k < all.len() && charged(all, selected, #[trigger] all[k]) && !text::has_text(
            ban,
            all[k].id@,
        ) && all[k].id@ != account.id@ {
        let k = choose|k: int|
            0 <= k < all.len() && charged(all, selected, #[trigger] all[k]) && !text::has_text(
                ban,
                all[k].id@,
            ) && all[k].id@ != account.id@;
        assert(all.contains(all[k]));
        law_who_may_serve(all, selected, more, all[k]);
    }
}

/// The words on a limit name the account and the path, and tell whether the request goes on.
pub proof fn law_words_on_a_limit(name: Seq<char>, bare: Seq<char>)
    ensures
        proxy::limited_words(name, bare, true) == "账号「"@ + name + "」触发限流（429，"@ + bare
            + "），已无感切换备用账号继续服务"@,
        proxy::limited_words(name, bare, false) == "账号「"@ + name + "」触发限流（429，"@ + bare
            + "），已无更多备用账号，限流响应原样透传"@,
{
}

/// A request that could not be sent is answered with 502 and the error.
pub proof fn law_failure_is_told(bare: Seq<char>, error: Seq<char>)
    ensures
        ({
            let r = proxy::failed_reply(bare, error);
            &&& r.status == 502
            &&& error.is_suffix_of(r.body)
            &&& "upstream error: "@.is_prefix_of(r.body)
            &&& r.body.len() == "upstream error: "@.len() + error.len()
            &&& r.note is Some && r.note->0.event == "proxy_error"@ && !r.note->0.dedup
            &&& error.is_suffix_of(r.note->0.detail)
        }),
{
    let r = proxy::failed_reply(bare, error);
    assert(r.note->0.detail =~= ("["@ + bare + "] 上游请求失败："@ + "upstream error: "@) + error);
}

/// A request is noted as one without a conversation exactly where its path is one of those that name
/// it in the body, the body does not begin a new one, and none is named.
pub proof fn law_when_a_conversation_is_missing(req: http::RequestV, body: Seq<u8>)
    ensures
        proxy::unbound(req, body) <==> {
            &&& "/api/agent/v3/"@.is_prefix_of(http::bare_target(req.target))
            &&& !session::declares_new(body)
            &&& proxy::request_conversation(req, body) is None
        },
{
    lemma_starts(http::bare_target(req.target), "/api/agent/v3/"@);
}

/// The note on a path says what the rules make of it.
pub proof fn law_word_for_a_rule(r: Rules, bare: Seq<char>)
    ensures
        proxy::rule_word(r, bare) == (if r.observe_only {
            "观察"@
        } else if rules::swaps(r, bare, proxy::billing_paths()) {
            "换号"@
        } else {
            "透传"@
        }),
{
}

/// Two requests are noted under the same key only where method, host and path are the same, as long
/// as neither method nor host holds a blank.
pub proof fn law_kinds_are_told_apart(
    m: Seq<char>,
    h: Seq<char>,
    b: Seq<char>,
    m2: Seq<char>,
    h2: Seq<char>,
    b2: Seq<char>,
)
    requires
        forall|k: int| 0 <= k < m.len() ==> #[trigger] m[k] != ' ',
        forall|k: int| 0 <= k < h.len() ==> #[trigger] h[k] != ' ',
        forall|k: int| 0 <= k < m2.len() ==> #[trigger] m2[k] != ' ',
        forall|k: int| 0 <= k < h2.len() ==> #[trigger] h2[k] != ' ',
        proxy::seen_key(m, h, b) == proxy::seen_key(m2, h2, b2),
    ensures
        m == m2,
        h == h2,
        b == b2,
{
    reveal_strlit(" ");
    let s = proxy::seen_key(m, h, b);
    assert(s =~= m + (" "@ + h + " "@ + b));
    assert(s =~= m2 + (" "@ + h2 + " "@ + b2));
    lemma_same_cut(m, h + " "@ + b, m2, h2 + " "@ + b2, s);
    let t = h + " "@ + b;
    lemma_same_cut(h, b, h2, b2, t);
}

proof fn lemma_same_cut(
    a: Seq<char>,
    b: Seq<char>,
    a2: Seq<char>,
    b2: Seq<char>,
    s: Seq<char>,
)
    requires
        forall|k: int| 0 <= k < a.len() ==> #[trigger] a[k] != ' ',
        forall|k: int| 0 <= k < a2.len() ==> #[trigger] a2[k] != ' ',
        s =~= a + seq![' '] + b,
        s =~= a2 + seq![' '] + b2,
    ensures
        a == a2,
        b == b2,
{
    if a.len() < a2.len() {
        assert(s[a.len() as int] == ' ');
        assert(s[a.len() as int] == a2[a.len() as int]);
    }
    if a2.len() < a.len() {
        assert(s[a2.len() as int] == ' ');
        assert(s[a2.len() as int] == a[a2.len() as int]);
    }
    assert(a =~= s.take(a.len() as int));
    assert(a2 =~= s.take(a.len() as int));
    assert(b =~= s.skip((a.len() + 1) as int));
    assert(b2 =~= s.skip((a.len() + 1) as int));
}

/// A span has passed from its end on.
pub proof fn law_when_a_span_has_passed(since: u64, now: u64, span: u64)
    ensures
        proxy::passed(since, now, span) <==> now >= since + span,
{
}

/// A forwarded request has the header fields of the request that came in, unchanged and in their
/// order, but for those that stay behind; and its answer may be read by the origin that asks.
pub proof fn law_fields_of_a_forwarded_request(
    f: Forward,
    req: http::RequestV,
    body: Seq<u8>,
    upstream: Seq<char>,
    origin: Seq<char>,
)
    requires
        proxy::forwards(f, req, body, upstream),
        first_says(req.headers, "Origin"@, Some(origin)),
    ensures
        http::headers_view(f.headers@) == req.headers.filter(
            |x: (Seq<char>, Seq<char>)| !stays_behind(x.0),
        ),
        http::headers_view(f.cors@).contains(("access-control-allow-origin"@, origin)),
        http::headers_view(f.cors@) == proxy::cors(req.headers),
{
    law_other_fields_go_on(req.headers);
    assert(text::ascii_lower("Origin"@) == text::ascii_lower("origin"@)) by {
        reveal_strlit("Origin");
        reveal_strlit("origin");
        assert(text::ascii_lower("Origin"@) =~= text::ascii_lower("origin"@));
    }
    lemma_first_says(req.headers, "Origin"@, "origin"@, Some(origin));
    let c = proxy::cors(req.headers);
    assert(c[0] == ("access-control-allow-origin"@, origin));
}

/// Also where no origin asks, a forwarded request has all fields but those that stay behind.
pub proof fn law_fields_without_an_origin(
    f: Forward,
    req: http::RequestV,
    body: Seq<u8>,
    upstream: Seq<char>,
)
    requires
        proxy::forwards(f, req, body, upstream),
    ensures
        http::headers_view(f.headers@) == req.headers.filter(
            |x: (Seq<char>, Seq<char>)| !stays_behind(x.0),
        ),
        http::headers_view(f.cors@) == proxy::cors(req.headers),
        f.body@ == body,
        f.bare@ == http::bare_target(req.target),
{
    law_other_fields_go_on(req.headers);
}

} // verus!
