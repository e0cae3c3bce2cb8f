//! What is said of credits and routes, what is noted of requests, and which limits hold.
use crate::accounts::{Account, CreditSnapshot};
use crate::checkin;
use crate::checkin_laws::{has, lacks, lemma_member};
use crate::choosing;
use crate::clock;
use crate::commands;
use crate::endpoint;
use crate::gate;
use crate::http;
use crate::inject;
use crate::inject::{ClearPlan, Db, GatewayModelV, SelectError, SelectPlan, TakeoverEntry};
use crate::journal;
use crate::json;
use crate::json::JsonV;
use crate::number;
use crate::patch;
use crate::proxy;
use crate::proxy::{NoteV, Seen};
use crate::realtime;
use crate::realtime_laws;
use crate::routing;
use crate::routing::CreditInfo;
use crate::rules;
use crate::rules::Rules;
use crate::scheduler;
use crate::session;
use crate::target;
use crate::text;
use vstd::prelude::*;
use vstd::string::*;
use vstd::utf8::*;

verus! {

// ---------------------------------------------------------------------------
// Credits
// ---------------------------------------------------------------------------

/// Of two accounts the one whose credits expire earlier is used first; of two that expire at the
/// same time the one with more credits. A known expiry comes before an unknown one.
pub proof fn law_which_account_ranks_first(a: CreditInfo, b: CreditInfo)
    ensures
        a.expiry_ms is Some && b.expiry_ms is Some && a.expiry_ms->0 < b.expiry_ms->0
            ==> routing::ranks_before(a, b) && !routing::ranks_before(b, a),
        a.expiry_ms is Some && b.expiry_ms is None && a.expiry_ms->0 < i64::MAX
            ==> routing::ranks_before(a, b) && !routing::ranks_before(b, a),
        a.expiry_ms == b.expiry_ms && a.credits is Some && b.credits is Some
            ==> (routing::ranks_before(a, b) <==> a.credits->0 > b.credits->0),
        a.expiry_ms == b.expiry_ms && a.credits is Some && b.credits is None
            ==> (routing::ranks_before(a, b) <==> a.credits->0 > 0),
        routing::spent(a) <==> a.credits is Some && a.credits->0 == 0,
        !(routing::ranks_before(a, b) && routing::ranks_before(b, a)),
{
}

/// A look-up that tells credits, or that there is no limit, replaces what was known; one that tells
/// nothing only renews the time.
pub proof fn law_what_a_look_up_replaces(s: CreditSnapshot, p: CreditSnapshot)
    ensures
        s.credits is Some || s.unlimited ==> routing::merged(s, Some(p)) == s,
        s.credits is None && !s.unlimited ==> routing::merged(s, Some(p)) == (CreditSnapshot {
            fetched_at: s.fetched_at,
            ..p
        }),
        routing::merged(s, None) == s,
        routing::info_of(Some(p)).credits == p.credits,
        routing::info_of(Some(p)).unlimited == p.unlimited,
        routing::info_of(Some(p)).expiry_ms == p.earliest_expiry_ms,
        routing::info_of(None).credits is None && !routing::info_of(None).unlimited
            && routing::info_of(None).expiry_ms is None,
{
}

/// What is known of a candidate comes from its own look-up.
pub proof fn law_each_candidate_has_its_own_credits(
    list: Seq<Account>,
    fetched: Seq<Option<CreditSnapshot>>,
    i: int,
)
    requires
        0 <= i < list.len() == fetched.len(),
    ensures
        choosing::all_known(list, fetched).len() == list.len(),
        fetched[i] is None ==> choosing::all_known(list, fetched)[i] == routing::info_of(
            list[i].credit_snapshot,
        ),
        fetched[i] matches Some(s) ==> (s.credits is Some || s.unlimited) ==> choosing::all_known(
            list,
            fetched,
        )[i] == routing::info_of(Some(s)),
        choosing::any_fetched(fetched) <==> exists|k: int|
            0 <= k < fetched.len() && !((#[trigger] fetched[k]) is None),
{
}

/// What is said of credits: that they have no limit, or how many are left, or that they are not
/// known; and when they expire, where that is known.
pub proof fn law_words_on_credits(info: CreditInfo, day: Seq<char>, n: i64)
    ensures
        info.unlimited ==> routing::credits_words(info, Some(day)) == "积分不限量"@
            && routing::credits_words(info, None) == "积分不限量"@,
        !info.unlimited && info.credits == Some(n) ==> routing::credits_words(info, None) == "剩 "@
            + number::signed_decimal(n as int) + " 积分"@,
        !info.unlimited && info.credits == Some(n) ==> routing::credits_words(info, Some(day))
            == "剩 "@ + number::signed_decimal(n as int) + " 积分"@ + " · "@ + day + " 到期"@,
        !info.unlimited && info.credits is None ==> routing::credits_words(info, None)
            == "积分未知"@,
        !info.unlimited && info.credits is None ==> routing::credits_words(info, Some(day))
            == "积分未知"@ + " · "@ + day + " 到期"@,
        info.expiry_ms is None ==> !routing::has_expiry_day(info),
        info.expiry_ms matches Some(t) ==> (routing::has_expiry_day(info)
            <==> -8_334_601_228_800_000 <= t <= 8_210_266_876_799_999),
{
}

/// The note on a conversation that begins with an account names both, the credits and the number of
/// candidates.
pub proof fn law_words_on_a_route(conv: Seq<char>, name: Seq<char>, credits: Seq<char>, n: nat)
    ensures
        conv.len() <= 8 ==> choosing::route_words(conv, name, credits, n) == "会话 "@ + conv
            + " 开始使用账号「"@ + name + "」（"@ + credits + "，备选 "@ + number::decimal(n)
            + " 个）"@,
        conv.len() > 8 ==> choosing::route_words(conv, name, credits, n) == "会话 "@ + conv.take(8)
            + " 开始使用账号「"@ + name + "」（"@ + credits + "，备选 "@ + number::decimal(n)
            + " 个）"@,
{
    if conv.len() > 8 {
        assert(conv.subrange(0, 8) =~= conv.take(8));
    }
}

/// What is flagged is left out, in order; where everything is flagged, everything stays.
pub proof fn law_flagged_are_left_out<T>(
    items: Seq<T>,
    flags: Seq<bool>,
    cools: spec_fn(T) -> bool,
)
    requires
        items.len() <= flags.len(),
        forall|i: int| 0 <= i < items.len() ==> flags[i] == cools(#[trigger] items[i]),
    ensures
        routing::unflagged(items, flags) == items.filter(|x: T| !cools(x)),
        items.filter(|x: T| !cools(x)).len() > 0 ==> routing::unflagged_or_all(items, flags)
            == items.filter(|x: T| !cools(x)),
        items.filter(|x: T| !cools(x)).len() == 0 ==> routing::unflagged_or_all(items, flags)
            == items,
    decreases items.len(),
{
    let keep = |x: T| !cools(x);
    reveal(Seq::filter);
    if items.len() > 0 {
        let rest = items.drop_last();
        assert forall|i: int| 0 <= i < rest.len() implies flags[i] == cools(
            #[trigger] rest[i],
        ) by {
            assert(rest[i] == items[i]);
        }
        law_flagged_are_left_out(rest, flags, cools);
        assert(flags[items.len() - 1] == cools(items[items.len() - 1]));
    }
    assert(routing::unflagged(items, flags) =~= items.filter(keep));
}

/// A conversation stays with the first account of its id.
pub proof fn law_first_account_of_an_id(list: Seq<Account>, id: Seq<char>)
    ensures
        match choosing::first_with(list, id) {
            Some(a) => exists|i: int|
                0 <= i < list.len() && #[trigger] list[i] == a && a.id@ == id && forall|j: int|
                    0 <= j < i ==> (#[trigger] list[j]).id@ != id,
            None => forall|i: int| 0 <= i < list.len() ==> (#[trigger] list[i]).id@ != id,
        },
    decreases list.len(),
{
    if list.len() > 0 {
        let rest = list.subrange(1, list.len() as int);
        law_first_account_of_an_id(rest, id);
        if list[0].id@ == id {
            assert(list[0] == choosing::first_with(list, id)->0);
        } else {
            match choosing::first_with(rest, id) {
                Some(a) => {
                    let i = choose|i: int|
                        0 <= i < rest.len() && #[trigger] rest[i] == a && a.id@ == id && forall|
                            j: int,
                        | 0 <= j < i ==> (#[trigger] rest[j]).id@ != id;
                    assert(list[i + 1] == a);
                    assert forall|j: int| 0 <= j < i + 1 implies (#[trigger] list[j]).id@
                        != id by {
                        if j > 0 {
                            assert(rest[j - 1].id@ != id);
                        }
                    }
                },
                None => {
                    assert forall|i: int| 0 <= i < list.len() implies (#[trigger] list[i]).id@
                        != id by {
                        if i > 0 {
                            assert(rest[i - 1].id@ != id);
                        }
                    }
                },
            }
        }
    }
}

// ---------------------------------------------------------------------------
// Requests
// ---------------------------------------------------------------------------

/// A request is complete exactly where it can be read and as many bytes follow its head as it
/// announces; its body are those bytes.
pub proof fn law_when_a_request_is_complete(head: Seq<u8>, body: Seq<u8>, rest: Seq<u8>)
    ensures
        ({
            let buf = head + body + rest;
            &&& http::request_of(buf) matches Some(q) ==> q.head_end == head.len() && q.body_len
                == body.len() ==> http::request_complete(buf) && http::body_of(
                buf,
                q.head_end,
                q.body_len,
            ) == body
            &&& http::request_of(buf) is None ==> !http::request_complete(buf)
            &&& http::request_of(buf) matches Some(q) ==> (q.head_end + q.body_len > buf.len()
                ==> !http::request_complete(buf))
        }),
{
    let buf = head + body + rest;
    assert(buf.subrange(head.len() as int, (head.len() + body.len()) as int) =~= body);
}

/// A diagnosis shows at most the first 512 bytes.
pub proof fn law_what_a_diagnosis_shows(buf: Seq<u8>)
    ensures
        buf.len() <= 512 ==> http::first_bytes(buf) == buf,
        buf.len() > 512 ==> http::first_bytes(buf) == buf.take(512),
{
    if buf.len() <= 512 {
        assert(http::first_bytes(buf) =~= buf);
    } else {
        assert(http::first_bytes(buf) =~= buf.take(512));
    }
}

/// What is said of a port that cannot be listened on: who has it, or why.
pub proof fn law_words_on_a_port(port: u16, hint: Seq<char>, error: Seq<char>)
    ensures
        proxy::bind_error_words(port, Some(hint), error) == "端口 "@ + number::decimal(port as nat)
            + " "@ + hint,
        proxy::bind_error_words(port, None, error) == "端口 "@ + number::decimal(port as nat)
            + " 无法监听："@ + error,
{
}

/// A kind of request is noted the first time that it is seen, as long as fewer than 400 kinds were;
/// the note says what the rules make of it.
pub proof fn law_when_a_kind_is_noted(
    seen: Seen,
    r: Rules,
    req: http::RequestV,
    upstream: Seq<char>,
)
    ensures
        ({
            let bare = http::bare_target(req.target);
            let key = req.method + " "@ + proxy::host_name(upstream) + " "@ + bare;
            let n = proxy::path_note(seen, r, req, upstream);
            &&& n is Some <==> seen.paths@.dom().len() < 400 && !seen.paths@.contains_key(key)
            &&& n is Some ==> n->0.event == "proxy_path"@ && !n->0.dedup && key.is_suffix_of(
                n->0.detail,
            )
            &&& n is Some && r.observe_only ==> n->0.detail == "接管收到 ["@ + "观察"@ + "] "@ + key
            &&& n is Some && rules::swaps(r, bare, proxy::billing_paths()) ==> n->0.detail
                == "接管收到 ["@ + "换号"@ + "] "@ + key
            &&& n is Some && !r.observe_only && !rules::swaps(r, bare, proxy::billing_paths())
                ==> n->0.detail == "接管收到 ["@ + "透传"@ + "] "@ + key
        }),
{
}

/// A request whose conversation is missing is noted once for its path.
pub proof fn law_when_a_missing_conversation_is_noted(
    seen: Seen,
    req: http::RequestV,
    body: Seq<u8>,
)
    ensures
        ({
            let bare = http::bare_target(req.target);
            let n = proxy::unbound_note(seen, req, body);
            &&& n is Some <==> proxy::unbound(req, body) && !seen.unbound@.contains_key(bare)
            &&& n is Some ==> n->0.event == "unbound_session"@ && !n->0.dedup && (("["@ + bare)
                + "] "@).is_prefix_of(n->0.detail)
        }),
{
    let bare = http::bare_target(req.target);
    let n = proxy::unbound_note(seen, req, body);
    reveal_strlit("] ");
    reveal_strlit(
        "] 这条请求的会话 id 在 body 里，但没能认出来 ⇒ 该域**不能**整体换号，否则同会话的请求会用到不同账号（上游多半报鉴权或限流错）",
    );
    if n is Some {
        let h = ("["@ + bare) + "] "@;
        assert(n->0.detail.take(h.len() as int) =~= h);
    }
}

/// Notes are kept in the order in which they come.
pub proof fn law_order_of_notes(a: NoteV, b: NoteV)
    ensures
        proxy::both_notes(Some(a), Some(b)) == seq![a, b],
        proxy::both_notes(Some(a), None) == seq![a],
        proxy::both_notes(None, Some(b)) == seq![b],
        proxy::both_notes(None, None).len() == 0,
{
    assert(proxy::both_notes(Some(a), Some(b)) =~= seq![a, b]);
    assert(proxy::both_notes(Some(a), None) =~= seq![a]);
    assert(proxy::both_notes(None, Some(b)) =~= seq![b]);
}

/// The head of a handshake are the bytes up to the end of its head, or all where there are no more.
pub proof fn law_head_of_a_handshake(head: Seq<u8>, rest: Seq<u8>, req: http::RequestV)
    requires
        req.head_end == head.len(),
    ensures
        realtime::head_bytes(head + rest, req) == head,
{
    let buf = head + rest;
    if rest.len() > 0 {
        assert(buf.subrange(0, head.len() as int) =~= head);
    } else {
        assert(buf =~= head);
    }
}

/// The names of header fields are listed in lower case, each once, in ascending order.
pub proof fn law_names_are_listed_once(
    h: Seq<(Seq<char>, Seq<char>)>,
    names: Seq<String>,
    i: int,
    j: int,
    k: int,
)
    requires
        realtime::field_names(h, names),
    ensures
        0 <= i < j < names.len() ==> text::text_less(names[i]@, names[j]@),
        0 <= k < h.len() ==> text::has_text(names, text::ascii_lower(h[k].0)),
        0 <= i < names.len() ==> exists|n: int|
            0 <= n < h.len() && text::ascii_lower((#[trigger] h[n]).0) == names[i]@,
{
    let t = text::texts(names);
    if 0 <= i < j < names.len() {
        assert(text::text_less(t[i], t[j]));
    }
    if 0 <= k < h.len() {
        assert(text::ascii_lower(h[k].0) == text::ascii_lower(h[k].0));
        assert(text::has_text(names, text::ascii_lower(h[k].0)));
    }
    if 0 <= i < names.len() {
        assert(text::has_text(names, names[i]@));
    }
}

// ---------------------------------------------------------------------------
// Processes, tokens and words
// ---------------------------------------------------------------------------

/// An application runs exactly where the image in some line of the list is its own, whatever the
/// case of its letters.
pub proof fn law_when_an_application_runs(listing: Seq<char>, id: Seq<char>)
    ensures
        target::runs_in(listing, id) <==> exists|i: int|
            0 <= i < text::split_by(listing, seq!['\n']).len() && text::lowercase(
                target::line_image(
                    #[trigger] text::split_by(listing, seq!['\n'])[i],
                    i != text::split_by(listing, seq!['\n']).len() - 1,
                ),
            ) == text::lowercase(id + ".exe"@),
{
    reveal_strlit("\n");
    assert("\n"@ =~= seq!['\n']);
    let lines = text::split_by(listing, seq!['\n']);
    if target::runs_in(listing, id) {
        let i = choose|i: int|
            0 <= i < lines.len() && text::lowercase(
                target::line_image(#[trigger] lines[i], i + 1 < lines.len()),
            ) == text::lowercase(id + ".exe"@);
        assert((i != lines.len() - 1) == (i + 1 < lines.len()));
    }
    if exists|i: int|
        0 <= i < lines.len() && text::lowercase(
            target::line_image(#[trigger] lines[i], i != lines.len() - 1),
        ) == text::lowercase(id + ".exe"@) {
        let i = choose|i: int|
            0 <= i < lines.len() && text::lowercase(
                target::line_image(#[trigger] lines[i], i != lines.len() - 1),
            ) == text::lowercase(id + ".exe"@);
        assert((i != lines.len() - 1) == (i + 1 < lines.len()));
    }
}

/// What is said of an application that does not quit.
pub proof fn law_words_on_what_does_not_quit(id: Seq<char>)
    ensures
        target::will_not_quit_words(id) == "已发起退出请求，但「"@ + id
            + "」未在限时内退出，请手动关闭后重试。"@,
        endpoint::will_not_quit_words()
            == "已发起退出请求，但 TraeWork 未在限时内退出，请手动关闭后重试。"@,
{
}

/// The host of a token is that of the issuer in its payload, which is the part between the first two
/// full stops; a token without one names none.
pub proof fn law_host_of_a_token(
    head: Seq<char>,
    payload: Seq<char>,
    tail: Seq<char>,
    bytes: Seq<u8>,
    v: JsonV,
    iss: Seq<char>,
)
    requires
        realtime_laws::free_of(head, '.'),
        realtime_laws::free_of(payload, '.'),
        realtime_laws::free_of(tail, '.'),
        checkin::base64_decoded(checkin::padded(payload)) == Some(bytes),
        valid_utf8(bytes),
        json::parsed_json(decode_utf8(bytes)) == Some(v),
    ensures
        has(v, "iss"@, JsonV::Str(iss)) ==> checkin::token_host(
            text::glued(seq![head, payload, tail], seq!['.']),
        ) == Some(checkin::issuer_of(iss)),
        lacks(v, "iss"@) ==> checkin::token_host(
            text::glued(seq![head, payload, tail], seq!['.']),
        ) is None,
        checkin::token_host(head) is None,
{
    reveal_strlit(".");
    assert("."@ =~= seq!['.']);
    let three = seq![head, payload, tail];
    assert forall|i: int, k: int|
        0 <= i < three.len() && 0 <= k < three[i].len() implies #[trigger] three[i][k] != '.' by {
        assert(i == 0 || i == 1 || i == 2);
    }
    text::law_glued_pieces_come_apart(three, '.');
    let one = seq![head];
    text::law_glued_pieces_come_apart(one, '.');
    assert(text::glued(one, seq!['.']) == head);
    lemma_member(v, "iss"@);
}

/// What is said where the URL gate cannot be opened or closed.
pub proof fn law_words_on_the_url_gate(n: nat)
    ensures
        ("拒绝打补丁：TraeWork 闸门匹配到 "@ + number::decimal(n)).is_prefix_of(
            gate::patch_count_refusal(n),
        ),
        ("拒绝还原：补丁后的闸门匹配到 "@ + number::decimal(n)).is_prefix_of(
            gate::unpatch_count_refusal(n),
        ),
        gate::patch_array_refusal()
            == "拒绝打补丁：没找到身份头规则的 pattern 数组。只打闸门而漏掉它，会让应用不再给智能体请求带 Authorization（透传路径直接 401）。"@,
        gate::patch_check_refusal() == "拒绝打补丁：替换后的自检没通过（内存里就已不一致）。"@,
        gate::unpatch_check_refusal() == "拒绝还原：反向替换后的自检没通过，一个字节都没写。"@,
        patch::applied_note().event == "patch_apply"@ && !patch::applied_note().dedup,
        patch::reverted_note().event == "patch_revert"@ && !patch::reverted_note().dedup,
{
}

/// Each refusal to open a file has its own reason, and the first that holds is told.
pub proof fn law_why_a_file_is_not_opened(t: Seq<char>)
    ensures
        ({
            let n = gate::gates(t, gate::Side::Before).len();
            &&& n != 2 ==> gate::patch_result(t) == Err::<Seq<char>, Seq<char>>(
                gate::patch_count_refusal(n),
            )
            &&& n == 2 && !text::contains(t, gate::AX_BEFORE@) ==> gate::patch_result(t) == Err::<
                Seq<char>,
                Seq<char>,
            >(gate::patch_array_refusal())
            &&& gate::gates(t, gate::Side::After).len() != 2 ==> gate::unpatch_result(t) == Err::<
                Seq<char>,
                Seq<char>,
            >(gate::unpatch_count_refusal(gate::gates(t, gate::Side::After).len()))
        }),
{
}

/// The words on a fingerprint that differs show the beginnings of both.
pub proof fn law_words_on_a_fingerprint(want: Seq<char>, got: Seq<char>)
    ensures
        ("还原后的文件与记录的原始指纹不一致（期望 "@ + patch::cut(want) + "…，实得 "@
            + patch::cut(got)).is_prefix_of(patch::mismatch_words(want, got)),
{
}

// ---------------------------------------------------------------------------
// Selecting and clearing the model
// ---------------------------------------------------------------------------

/// Nothing is selected or cleared while TraeWork runs; or else every model of the gateway is counted,
/// its label named, and all databases are gone through.
pub proof fn law_outcome_of_selecting(
    dbs: Seq<Db>,
    port: u16,
    running: bool,
    r: Result<SelectPlan, SelectError>,
    c: Result<ClearPlan, String>,
)
    requires
        inject::select_outcome(dbs, port, running, r),
        inject::clear_outcome(dbs, port, running, c),
    ensures
        running ==> r is Err && c is Err,
        r matches Err(SelectError::Running(_)) ==> running,
        c is Err ==> running,
        r matches Ok(p) ==> {
            let models = inject::all_models(dbs, port);
            &&& p.count == models.len()
            &&& inject::writes_all(p.writes@, dbs, models)
            &&& forall|i: int|
                0 <= i < models.len() ==> text::has_text(p.labels@, (#[trigger] models[i]).label)
            &&& forall|k: int|
                0 <= k < p.labels@.len() ==> exists|i: int|
                    0 <= i < models.len() && (#[trigger] models[i]).label == (
                    #[trigger] p.labels@[k])@
        },
        c matches Ok(p) ==> {
            let ids = inject::selection_ids(inject::all_models(dbs, port));
            p.cleared == inject::named_dbs(dbs, ids) && inject::clears_all(p.writes@, dbs, ids)
        },
{
    if let Ok(p) = r {
        let models = inject::all_models(dbs, port);
        assert forall|i: int| 0 <= i < models.len() implies text::has_text(
            p.labels@,
            (#[trigger] models[i]).label,
        ) by {
            assert(inject::labels_one(models, models[i].label));
        }
        assert forall|k: int| 0 <= k < p.labels@.len() implies exists|i: int|
            0 <= i < models.len() && (#[trigger] models[i]).label == (#[trigger] p.labels@[k])@ by {
            assert(text::has_text(p.labels@, p.labels@[k]@));
            assert(inject::labels_one(models, p.labels@[k]@));
        }
    }
}

/// An entry shows its model, and whether it is selected.
pub proof fn law_entry_shows_its_model(e: TakeoverEntry, dbs: Seq<Db>, m: GatewayModelV)
    requires
        inject::entry_shows(e, dbs, m),
    ensures
        e.db@ == m.db,
        e.key@ == m.key,
        e.label@ == m.label,
        e.name@ == m.name,
        e.base_url@ == m.base_url,
        e.selected <==> inject::model_selected(dbs, m),
{
}

/// What is written of a value is its compact form.
pub proof fn law_what_is_written_of_a_value(t: Seq<char>, v: JsonV)
    requires
        inject::writes_tree(t, v),
    ensures
        t == json::compact_json(v),
        json::whole(v) && json::nested(v, 127) ==> json::parsed_json(t) == Some(v),
{
}

/// Setting a member gives it the value, and leaves all others alone.
pub proof fn law_a_member_is_set(
    m: Seq<(Seq<char>, JsonV)>,
    key: Seq<char>,
    v: JsonV,
    other: Seq<char>,
)
    requires
        json::ascending(m),
    ensures
        json::member(JsonV::Obj(json::with_member(m, key, v)), key) == Some(v),
        other != key ==> json::member(JsonV::Obj(json::with_member(m, key, v)), other)
            == json::member(JsonV::Obj(m), other),
        json::ascending(json::with_member(m, key, v)),
{
    json::lemma_with_member(m, key, v, other);
    json::lemma_with_member_ascends(m, key, v);
}

/// A value is read as what it is: a text as its text, a truth value as its truth, an integer as its
/// number where it fits; and as nothing else.
pub proof fn law_values_are_read_as_what_they_are(s: Seq<char>, b: bool, n: int)
    ensures
        json::text_of(Some(JsonV::Str(s))) == Some(s),
        json::bool_of(Some(JsonV::Bool(b))) == Some(b),
        json::signed_of(Some(JsonV::Int(n))) == (if -0x8000_0000_0000_0000 <= n
            <= 0x7fff_ffff_ffff_ffff {
            Some(n)
        } else {
            None
        }),
        json::unsigned_of(Some(JsonV::Int(n))) == (if 0 <= n <= 0xffff_ffff_ffff_ffff {
            Some(n)
        } else {
            None
        }),
        json::text_of(Some(JsonV::Int(n))) is None && json::text_of(Some(JsonV::Bool(b))) is None,
        json::bool_of(Some(JsonV::Str(s))) is None && json::signed_of(Some(JsonV::Str(s))) is None,
        json::text_of(None) is None && json::bool_of(None) is None && json::signed_of(None) is None
            && json::unsigned_of(None) is None,
{
}

// ---------------------------------------------------------------------------
// Limits
// ---------------------------------------------------------------------------

/// The limits: heads of 64 KiB and bodies of 16 MiB, half an hour for a silent channel and for a
/// conversation, ten minutes for a limited account, and so on.
pub proof fn law_limits_and_spans()
    ensures
        http::MAX_HEAD == 64 * 1024,
        http::MAX_BODY == 16 * 1024 * 1024,
        session::BODY_SCAN_MAX == 64 * 1024,
        session::MAX_ID == 128,
        realtime::WS_IDLE_MAX == 30 * 60 * 1000,
        routing::STICKY_TTL == 30 * 60 * 1000,
        routing::COOLDOWN_TTL == 10 * 60 * 1000,
        routing::SNAPSHOT_TTL == 10 * 60,
        proxy::CONFIG_POLL == 500,
        proxy::LEASE_HEARTBEAT == 30 * 1000,
        3 * proxy::LEASE_HEARTBEAT == endpoint::LEASE_TTL_MS,
        proxy::FAILOVER_MAX_TRIES == 3,
        rules::CACHE_TTL == 1000,
        scheduler::MAX_ROUNDS == 3,
        scheduler::ROUND_GAP_SECS == 10 * 60,
        scheduler::REPAIR_OK_GAP_SECS == 5 * 60,
        scheduler::REPAIR_RETRY_GAP_SECS == 20,
        commands::PROXY_TRIES == 30,
        patch::RECORD_SCHEMA == 1,
{
}

/// The names of the files that are kept and changed.
pub proof fn law_names_of_files()
    ensures
        rules::RULES_FILE@ == "proxy-rules.json"@,
        journal::JOURNAL_FILE@ == "takeover-journal.jsonl"@,
        endpoint::OVERRIDE_FILE@ == "product.desktop.local.json"@,
        endpoint::LEASE_FILE@ == "endpoint_lease.json"@,
        endpoint::MARKER_KEY@ == "__traeWorkAssistant"@,
        patch::RECORD_FILE@ == "patch_main_js.json"@,
        patch::MAIN_JS_REL@ == "out/main.js"@,
        target::MAIN_JS_REL@ == patch::MAIN_JS_REL@,
        target::PRODUCT_FILE@ == "product.json"@,
        clock::TIMESTAMP_FORMAT@ == "%Y-%m-%d %H:%M:%S"@,
        clock::DAY_FORMAT@ == "%m-%d"@,
{
}

/// Looking a conversation up renews its binding where that still counts, and forgets every binding
/// that no longer does.
pub proof fn law_looking_up_renews_the_binding(
    sticky: Map<Seq<char>, (u64, String)>,
    conv: Seq<char>,
    other: Seq<char>,
    now: u64,
)
    requires
        other != conv,
    ensures
        ({
            let after = routing::sticky_touched(sticky, conv, now);
            let counts = |c: Seq<char>| sticky.contains_key(c) && now < sticky[c].0 + 1_800_000;
            &&& after.contains_key(conv) <==> counts(conv)
            &&& counts(conv) ==> after[conv] == (now, sticky[conv].1)
            &&& after.contains_key(other) <==> counts(other)
            &&& counts(other) ==> after[other] == sticky[other]
            &&& routing::stuck_to(sticky, conv, now) is Some <==> counts(conv)
            &&& counts(conv) ==> routing::stuck_to(sticky, conv, now) == Some(sticky[conv].1@)
        }),
{
}

/// The first recent selection that is not an object is the one that is told, by its key; the
/// databases and rows before it hold none.
pub proof fn law_first_odd_selection_is_told(
    dbs: Seq<Db>,
    port: u16,
    r: Result<SelectPlan, SelectError>,
)
    requires
        inject::select_outcome(dbs, port, false, r),
    ensures
        r matches Err(SelectError::NotAnObject(key)) ==> exists|d: int, i: int|
            0 <= d < dbs.len() && 0 <= i < dbs[d].recent@.len() && (
            #[trigger] dbs[d].recent@[i]).0@ == key@ && json::parsed_json(
                dbs[d].recent@[i].1@,
            ) is Some && json::parsed_json(dbs[d].recent@[i].1@)->0 !is Obj && forall|j: int|
                0 <= j < i ==> inject::stored_members(
                    json::parsed_json((#[trigger] dbs[d].recent@[j]).1@),
                ) is Some,
{
    if let Err(SelectError::NotAnObject(key)) = r {
        let (d, i) = choose|d: int, i: int|
            0 <= d < dbs.len() && inject::db_items(
                inject::all_models(dbs, port),
                dbs[d].path@,
            ).len() > 0 && 0 <= i < dbs[d].recent@.len() && (#[trigger] dbs[d].recent@[i]).0@
                == key@ && inject::stored_members(json::parsed_json(dbs[d].recent@[i].1@)) is None
                && inject::readable_rows(dbs[d].recent@.take(i)) && inject::readable_dbs(
                dbs,
                inject::all_models(dbs, port),
                d,
            );
        let before = dbs[d].recent@.take(i);
        assert forall|j: int| 0 <= j < i implies inject::stored_members(
            json::parsed_json((#[trigger] dbs[d].recent@[j]).1@),
        ) is Some by {
            assert(before[j] == dbs[d].recent@[j]);
        }
        assert(dbs[d].recent@[i].0@ == key@);
    }
}

} // verus!
