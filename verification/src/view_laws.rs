//! What the views show: nothing of a value is lost on the way to what the contracts speak of.
use crate::accounts;
use crate::accounts::Account;
use crate::checkin;
use crate::checkin::CheckinResult;
use crate::checkin_laws::{has, lemma_member};
use crate::clock;
use crate::endpoint;
use crate::gateway;
use crate::http;
use crate::http::Request;
use crate::inject;
use crate::inject::GatewayModel;
use crate::json;
use crate::json::{Json, JsonV};
use crate::number;
use crate::proxy;
use crate::proxy::{Note, Reply, WsUpstream};
use crate::proxy_laws;
use crate::realtime;
use crate::realtime_laws;
use crate::routing;
use crate::session;
use crate::text;
use vstd::prelude::*;
use vstd::string::*;
use vstd::utf8::*;

verus! {

/// The views of lists keep every item in its place.
pub proof fn law_lists_keep_their_items(
    v: Seq<String>,
    w: Seq<Vec<char>>,
    h: Seq<(String, String)>,
    n: Seq<Note>,
    g: Seq<GatewayModel>,
    i: int,
)
    ensures
        text::texts(v).len() == v.len(),
        0 <= i < v.len() ==> text::texts(v)[i] == v[i]@,
        text::rows(w).len() == w.len(),
        0 <= i < w.len() ==> text::rows(w)[i] == w[i]@,
        http::headers_view(h).len() == h.len(),
        0 <= i < h.len() ==> http::headers_view(h)[i] == (h[i].0@, h[i].1@),
        inject::items_text(h).len() == h.len(),
        0 <= i < h.len() ==> inject::items_text(h)[i] == (h[i].0@, h[i].1@),
        proxy::notes_view(n).len() == n.len(),
        0 <= i < n.len() ==> proxy::notes_view(n)[i] == n[i]@,
        inject::models_view(g).len() == g.len(),
        0 <= i < g.len() ==> inject::models_view(g)[i] == g[i]@,
{
}

/// The views of optional values keep whether there is one, and what it is.
pub proof fn law_optional_values_are_kept(
    s: String,
    t: &str,
    b: &[u8],
    j: &Json,
    n: Note,
    q: Request,
    u: WsUpstream,
)
    ensures
        text::opt_text(Some(s)) == Some(s@) && text::opt_text(None) is None,
        text::result_text(Ok(s)) == Ok::<Seq<char>, Seq<char>>(s@),
        text::result_text(Err(s)) == Err::<Seq<char>, Seq<char>>(s@),
        realtime::opt_slice(Some(t)) == Some(t@) && realtime::opt_slice(None) is None,
        checkin::opt_bytes(Some(b)) == Some(b@) && checkin::opt_bytes(None) is None,
        json::opt_json(Some(j)) == Some(j@) && json::opt_json(None) is None,
        proxy::opt_note(Some(n)) == Some(n@) && proxy::opt_note(None) is None,
        http::opt_request(Some(q)) == Some(q@) && http::opt_request(None) is None,
        realtime::opt_upstream(Some(u)) == Some(u@) && realtime::opt_upstream(None) is None,
        proxy::ws_path(Some(&u)) == Some(u.path@) && proxy::ws_path(None) is None,
{
}

/// The views of requests, answers, notes, outcomes, models and upstreams show all their fields.
pub proof fn law_views_show_all_fields(
    q: Request,
    r: Reply,
    n: Note,
    c: CheckinResult,
    g: GatewayModel,
    u: WsUpstream,
)
    ensures
        q@.method == q.method@ && q@.target == q.target@ && q@.body_len == q.body_len
            && q@.head_end == q.head_end && q@.headers == http::headers_view(q.headers@),
        r@.status == r.status && r@.body == r.body@,
        r@.note is Some <==> r.note is Some,
        r.note matches Some(x) ==> r@.note == Some(x@),
        n@.event == n.event@ && n@.detail == n.detail@ && n@.dedup == n.dedup,
        c@.success == c.success && c@.already == c.already && c@.inactive == c.inactive
            && c@.message == c.message@ && c@.credit == c.credit && c@.at == c.at@ && c@.transient
            == c.transient,
        c.host matches Some(h) ==> c@.host == Some(h@),
        c.host is None ==> c@.host is None,
        g@.db == g.db@ && g@.key == g.key@ && g@.label == g.label@ && g@.name == g.name@
            && g@.provider == g.provider@ && g@.config_source == g.config_source && g@.base_url
            == g.base_url@,
        g.custom_model_id matches Some(x) ==> g@.custom_model_id == Some(x@),
        g.custom_model_id is None ==> g@.custom_model_id is None,
        u@.secure == u.secure && u@.host == u.host@ && u@.port == u.port && u@.path == u.path@,
{
}

/// The tree of a JSON value shows what the value is, at every depth and in order.
pub proof fn law_tree_shows_the_value(
    b: bool,
    n: i64,
    u: u64,
    s: String,
    a: Vec<Json>,
    m: Vec<(String, Json)>,
    i: int,
)
    ensures
        Json::Null@ == JsonV::Null,
        Json::Bool(b)@ == JsonV::Bool(b),
        Json::Int(n)@ == JsonV::Int(n as int),
        Json::Big(u)@ == JsonV::Int(u as int),
        Json::Str(s)@ == JsonV::Str(s@),
        Json::Arr(a)@ is Arr && Json::Arr(a)@->Arr_0.len() == a@.len(),
        0 <= i < a@.len() ==> Json::Arr(a)@->Arr_0[i] == a@[i]@,
        Json::Obj(m)@ is Obj && Json::Obj(m)@->Obj_0.len() == m@.len(),
        0 <= i < m@.len() ==> Json::Obj(m)@->Obj_0[i] == (m@[i].0@, m@[i].1@),
{
    json::lemma_views(Json::Arr(a));
    json::lemma_views(Json::Obj(m));
}

/// An answer is the JSON value that its text holds; where it holds none, it says nothing.
pub proof fn law_what_an_answer_holds(t: Seq<char>, b: Seq<u8>, v: JsonV)
    ensures
        json::parsed_json(t) == Some(v) ==> checkin::claim_json(t) == v,
        json::parsed_json(t) is None ==> checkin::claim_json(t) == JsonV::Null,
        valid_utf8(b) ==> checkin::body_json(Some(b)) == json::parsed_json(decode_utf8(b)),
        !valid_utf8(b) ==> checkin::body_json(Some(b)) is None,
        checkin::body_json(None) is None,
{
}

/// An account that was made ready keeps its own id and time; a missing id is a drawn one of 36
/// characters, a missing time one that the clock tells.
pub proof fn law_what_a_ready_account_has(a: Account, b: Account)
    requires
        accounts::normalized(a, b),
    ensures
        a.id@.len() > 0 ==> b.id == a.id,
        a.id@.len() == 0 ==> b.id@.len() == 36,
        a.created_at@.len() > 0 ==> b.created_at == a.created_at,
        a.created_at@.len() == 0 ==> clock::timestamp_seconds(
            b.created_at@,
            "%Y-%m-%d %H:%M:%S"@,
        ) is Some,
        b == (Account { id: b.id, created_at: b.created_at, ..a }),
{
    let (id, at) = choose|id: String, at: String|
        accounts::drawn(id@, at@) && at@.len() > 0 && b == #[trigger] accounts::filled_in(
            a,
            id,
            at,
        );
    assert(b == accounts::filled_in(a, id, at));
}

/// At the gateway another account is left exactly where one besides the limited and the banned ones
/// is enabled and may be charged.
pub proof fn law_whether_another_serves_at_the_gateway(
    all: Seq<Account>,
    selected: Seq<String>,
    ban: Seq<String>,
    account: Account,
)
    ensures
        gateway::has_another(all, selected, ban, account) <==> exists|k: int|
            0 <= k < all.len() && (#[trigger] all[k]).enabled && proxy_laws::charged(
                all,
                selected,
                all[k],
            ) && !text::has_text(ban, all[k].id@) && all[k].id@ != account.id@,
{
    let more = ban.push(account.id);
    let el = gateway::serving(all, selected, more);
    assert forall|t: Seq<char>| #[trigger] text::has_text(more, t) <==> text::has_text(ban, t) || t
        == account.id@ by {
        if text::has_text(ban, t) {
            let i = choose|i: int| 0 <= i < ban.len() && (#[trigger] ban[i])@ == t;
            assert(more[i]@ == t);
        }
        if t == account.id@ {
            assert(more[ban.len() as int]@ == t);
        }
        if text::has_text(more, t) && t != account.id@ {
            let i = choose|i: int| 0 <= i < more.len() && (#[trigger] more[i])@ == t;
            assert(ban[i]@ == t);
        }
    }
    if el.len() > 0 {
        assert(el.contains(el[0]));
        realtime_laws::law_who_may_serve_at_the_gateway(all, selected, more, el[0]);
        let k = choose|k: int| 0 <= k < all.len() && all[k] == el[0];
        assert(all[k].enabled);
    }
    if exists|k: int|
        0 <= k < all.len() && (#[trigger] all[k]).enabled && proxy_laws::charged(
            all,
            selected,
            all[k],
        ) && !text::has_text(ban, all[k].id@) && all[k].id@ != account.id@ {
        let k = choose|k: int|
            0 <= k < all.len() && (#[trigger] all[k]).enabled && proxy_laws::charged(
                all,
                selected,
                all[k],
            ) && !text::has_text(ban, all[k].id@) && all[k].id@ != account.id@;
        assert(all.contains(all[k]));
        realtime_laws::law_who_may_serve_at_the_gateway(all, selected, more, all[k]);
    }
}

/// With an empty WebSocket address the override leaves the real-time channel alone, as without one.
pub proof fn law_empty_channel_is_left_alone(http: Seq<char>, at: Seq<char>)
    ensures
        endpoint::service_upstream(
            endpoint::override_view(http, Some(Seq::empty()), at),
            "ws"@,
            "ws"@,
        ) is None,
        has(endpoint::mark_view(http, None, at), "ws_base"@, JsonV::Str(""@)),
{
    endpoint::law_override_leaves_ws_alone(http, at);
    let e = endpoint::override_view(http, Some(Seq::empty()), at);
    let f = endpoint::override_view(http, None, at);
    assert(endpoint::boot_members(http, Some(Seq::empty())) == endpoint::boot_members(http, None));
    assert(e->Obj_0[1] == f->Obj_0[1]);
    reveal_strlit("__traeWorkAssistant");
    reveal_strlit("bootConfig");
    reveal_strlit("http_base");
    reveal_strlit("installed_at");
    reveal_strlit("ws_base");
    assert("__traeWorkAssistant"@.len() == 19);
    assert("bootConfig"@.len() == 10);
    assert("http_base"@.len() == 9);
    assert("installed_at"@.len() == 12);
    assert("ws_base"@.len() == 7);
    assert(e->Obj_0[0].0 == "__traeWorkAssistant"@);
    assert(f->Obj_0[0].0 == "__traeWorkAssistant"@);
    assert(e->Obj_0[1].0 == "bootConfig"@);
    let boot = e->Obj_0[1].1;
    assert(has(e, "bootConfig"@, boot));
    assert(has(f, "bootConfig"@, boot));
    lemma_member(e, "bootConfig"@);
    lemma_member(f, "bootConfig"@);
    let m = endpoint::mark_view(http, None, at)->Obj_0;
    assert(m[0].0 == "http_base"@ && m[1].0 == "installed_at"@);
    assert(m[2] == ("ws_base"@, JsonV::Str(""@)));
}

/// An authority whose last colon is not followed by a port names no upstream.
pub proof fn law_odd_ports_are_refused(host: Seq<char>, s: Seq<char>, secure: bool)
    requires
        realtime_laws::free_of(s, ':'),
        number::unsigned(s, 65535) is None,
    ensures
        realtime::host_port(host + seq![':'] + s, secure) is None,
{
    let auth = host + seq![':'] + s;
    realtime_laws::lemma_last_char(host, ':', s, auth.len() as int);
    assert(auth.subrange((host.len() + 1) as int, auth.len() as int) =~= s);
}

/// An address without a scheme has its host in front.
pub proof fn law_host_in_front(host: Seq<char>, rest: Seq<char>)
    requires
        forall|k: int|
            0 <= k < host.len() ==> #[trigger] host[k] != '/' && host[k] != '?' && host[k] != ':',
        rest.len() > 0 ==> rest[0] == '/',
        !text::contains(host + rest, "://"@),
    ensures
        proxy::host_name(host + rest) == text::ascii_lower(host),
{
    let t = host + rest;
    text::lemma_contains(t, "://"@);
    let e = Seq::<char>::empty();
    assert(text::before_char(t, '/') == host) by {
        if rest.len() > 0 {
            assert(t =~= host + seq!['/'] + rest.skip(1));
            realtime_laws::lemma_cut(host, '/', rest.skip(1));
        } else {
            assert(t =~= host);
            realtime_laws::lemma_cut(host, '/', e);
        }
    }
    realtime_laws::lemma_cut(host, '?', e);
    realtime_laws::lemma_cut(host, ':', e);
}

/// A text ends with another one exactly where that is its suffix, and its words are counted from
/// zero.
pub proof fn law_ends_and_words(s: Seq<char>, p: Seq<char>, n: int)
    ensures
        text::ends_with(s, p) <==> p.is_suffix_of(s),
        text::word(s, n) is Some <==> 0 <= n < text::words(s).len(),
        0 <= n < text::words(s).len() ==> text::word(s, n) == Some(text::words(s)[n]),
{
    if text::ends_with(s, p) {
        assert(s.subrange(s.len() - p.len(), s.len() as int) =~= p);
    }
    if p.is_suffix_of(s) {
        assert(s.subrange(s.len() - p.len(), s.len() as int) =~= p);
    }
}

/// A length in hexadecimal notation is worth the length.
pub proof fn law_hexadecimal_is_worth_its_number(n: nat)
    ensures
        number::worth(number::hex(n), 16) == n,
{
    number::law_notation_is_worth_its_number(n, 16);
}

/// A request may go to the accounts that may serve it and do not cool down; where all cool down, to
/// all of them.
pub proof fn law_where_a_request_may_go(
    candidates: Seq<Account>,
    cooldown: Map<Seq<char>, (u64, ())>,
    now: u64,
    a: Account,
)
    ensures
        ({
            let free = |x: Account|
                !cooldown.contains_key(x.id@) || now >= cooldown[x.id@].0 + 600_000;
            let r = routing::usable(candidates, cooldown, now);
            &&& (exists|k: int| 0 <= k < candidates.len() && free(#[trigger] candidates[k])) ==> (
            r.contains(a) <==> candidates.contains(a) && free(a))
            &&& (forall|k: int| 0 <= k < candidates.len() ==> !free(#[trigger] candidates[k]))
                ==> r == candidates
        }),
{
    let free = |x: Account| !cooldown.contains_key(x.id@) || now >= cooldown[x.id@].0 + 600_000;
    let keep = routing::warm(cooldown, now);
    proxy_laws::lemma_filter_holds(candidates, keep, a);
    let kept = candidates.filter(keep);
    if exists|k: int| 0 <= k < candidates.len() && free(#[trigger] candidates[k]) {
        let k = choose|k: int| 0 <= k < candidates.len() && free(#[trigger] candidates[k]);
        proxy_laws::lemma_filter_holds(candidates, keep, candidates[k]);
        assert(candidates.contains(candidates[k]));
        assert(kept.contains(candidates[k]));
    } else if kept.len() > 0 {
        proxy_laws::lemma_filter_holds(candidates, keep, kept[0]);
        assert(kept.contains(kept[0]));
        let k = choose|k: int| 0 <= k < candidates.len() && candidates[k] == kept[0];
        assert(!free(candidates[k]));
    }
}

/// White_Space are the tabulators, line and page ends, the blanks of all widths, and the separators
/// of lines and paragraphs; nothing else is.
pub proof fn law_what_white_space_is(c: char)
    ensures
        text::white(c) <==> {
            ||| '\t' <= c && c <= '\r'
            ||| c == ' '
            ||| c == '\u{85}'
            ||| c == '\u{a0}'
            ||| c == '\u{1680}'
            ||| '\u{2000}' <= c && c <= '\u{200a}'
            ||| c == '\u{2028}'
            ||| c == '\u{2029}'
            ||| c == '\u{202f}'
            ||| c == '\u{205f}'
            ||| c == '\u{3000}'
        },
{
}

/// The lower case of a text is the same word, without a capital of ASCII in it.
pub proof fn law_lower_case_is_the_same_word(s: Seq<char>)
    ensures
        text::ascii_lower(s).len() == s.len(),
        text::same_word(text::ascii_lower(s), s),
        forall|i: int|
            0 <= i < s.len() ==> !('A' <= #[trigger] text::ascii_lower(s)[i] && text::ascii_lower(
                s,
            )[i] <= 'Z'),
        forall|i: int|
            0 <= i < s.len() && !('A' <= s[i] && s[i] <= 'Z') ==> #[trigger] text::ascii_lower(s)[i]
                == s[i],
{
    let l = text::ascii_lower(s);
    assert forall|i: int| 0 <= i < s.len() implies !('A' <= #[trigger] l[i] && l[i] <= 'Z') by {
        assert(l[i] == text::lower(s[i]));
        if 'A' <= s[i] && s[i] <= 'Z' {
            char_u32_cast((s[i] as u32 + 32) as char, (s[i] as u32 + 32) as u32);
        }
    }
    assert(text::ascii_lower(l) =~= l);
}

/// Between the parts of a body a blank, a tabulator, a line feed, a form feed or a carriage return
/// may stand, and no other byte.
pub proof fn law_what_blank_bytes_are(b: u8)
    ensures
        session::blank(b) <==> seq![9u8, 10u8, 12u8, 13u8, 32u8].contains(b),
{
    let all = seq![9u8, 10u8, 12u8, 13u8, 32u8];
    assert(all[0] == 9 && all[1] == 10 && all[2] == 12 && all[3] == 13 && all[4] == 32);
}

/// A target with a slash, a question mark or a number sign before its first `://` is no absolute
/// URI: it is kept whole, as is a target without `://`.
pub proof fn law_other_targets_are_kept(t: Seq<char>, i: int, k: int)
    ensures
        !text::contains(t, "://"@) ==> http::bare_target(t) == t,
        text::find_from(t, "://"@, 0) == Some(i) && 0 <= k < i && (t[k] == '/' || t[k] == '?'
            || t[k] == '#') ==> http::bare_target(t) == t,
{
    if text::find_from(t, "://"@, 0) == Some(i) && 0 <= k < i {
        assert(http::delimits(t[k]) == http::delimits(t[k]));
    }
}

} // verus!
