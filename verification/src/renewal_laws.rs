//! What a renewal stores, and what the daily check-in counts.
use crate::accounts::{Account, Settings};
use crate::checkin::CheckinResult;
use crate::checkin_laws::{has, lacks, lemma_member};
use crate::json::JsonV;
use crate::number;
use crate::refresh;
use crate::refresh::{Refresh, RefreshStep};
use crate::scheduler;
use crate::scheduler::EndpointAction;
use crate::text;
use vstd::prelude::*;
use vstd::string::*;

verus! {

// ---------------------------------------------------------------------------
// Renewing a token
// ---------------------------------------------------------------------------

/// What is asked carries the refresh token, and four addresses are asked in their order.
pub proof fn law_what_is_asked(token: Seq<char>)
    ensures
        has(refresh::request_tree(token), "refreshToken"@, JsonV::Str(token)),
        refresh::refresh_paths().len() == 4,
        refresh::refresh_paths()[0] == "/trae/api/v2/user/refresh_token"@,
        refresh::refresh_paths()[1] == "/trae/api/v1/user/refresh_token"@,
        refresh::refresh_paths()[2] == "/api/v2/user/refresh_token"@,
        refresh::refresh_paths()[3] == "/api/v1/auth/refresh"@,
{
    let m = refresh::request_tree(token)->Obj_0;
    assert(m[0] == ("refreshToken"@, JsonV::Str(token)));
}

/// A renewed account holds the token of the answer, under the first of its names, and of the refresh
/// token and the expiry the ones of the answer where it has them; everything else stays.
pub proof fn law_answer_is_stored(
    old: Account,
    data: JsonV,
    new: Account,
    token: Seq<char>,
    fresh: Seq<char>,
    expiry: int,
)
    requires
        refresh::renewed(old, data, new),
        i64::MIN <= expiry <= i64::MAX,
    ensures
        has(data, "token"@, JsonV::Str(token)) ==> new.token@ == token,
        lacks(data, "token"@) && has(data, "accessToken"@, JsonV::Str(token)) ==> new.token@
            == token,
        lacks(data, "token"@) && lacks(data, "accessToken"@) && has(
            data,
            "access_token"@,
            JsonV::Str(token),
        ) ==> new.token@ == token,
        has(data, "refreshToken"@, JsonV::Str(fresh)) ==> text::opt_text(new.refresh_token) == Some(
            fresh,
        ),
        lacks(data, "refreshToken"@) && has(data, "refresh_token"@, JsonV::Str(fresh))
            ==> text::opt_text(new.refresh_token) == Some(fresh),
        lacks(data, "refreshToken"@) && lacks(data, "refresh_token"@) ==> new.refresh_token
            == old.refresh_token,
        has(data, "expiredAt"@, JsonV::Int(expiry)) ==> new.expires_at == Some(expiry as i64),
        lacks(data, "expiredAt"@) && has(data, "expiresAt"@, JsonV::Int(expiry)) ==> new.expires_at
            == Some(expiry as i64),
        has(data, "expiredAt"@, JsonV::Str(number::signed_decimal(expiry))) ==> new.expires_at
            == Some(expiry as i64),
        lacks(data, "expiredAt"@) && lacks(data, "expiresAt"@) ==> new.expires_at
            == old.expires_at,
        new == (Account {
            token: new.token,
            refresh_token: new.refresh_token,
            expires_at: new.expires_at,
            ..old
        }),
{
    lemma_member(data, "token"@);
    lemma_member(data, "accessToken"@);
    lemma_member(data, "access_token"@);
    lemma_member(data, "refreshToken"@);
    lemma_member(data, "refresh_token"@);
    lemma_member(data, "expiredAt"@);
    lemma_member(data, "expiresAt"@);
    number::law_signed_reads_back(expiry as i64);
}

/// What an answer gives stands under `data`; an answer without a token under any name gives none.
pub proof fn law_token_is_under_data(v: JsonV, d: JsonV)
    ensures
        has(v, "data"@, d) ==> refresh::data_of(v) == d,
        lacks(v, "data"@) ==> refresh::data_of(v) == JsonV::Null,
        lacks(d, "token"@) && lacks(d, "accessToken"@) && lacks(d, "access_token"@)
            ==> refresh::new_token(d) is None,
{
    lemma_member(v, "data"@);
    lemma_member(d, "token"@);
    lemma_member(d, "accessToken"@);
    lemma_member(d, "access_token"@);
}

/// A refused renewal tells the message of the answer, or else its code.
pub proof fn law_refused_renewal_says_why(v: JsonV, msg: Seq<char>, code: int)
    requires
        i64::MIN <= code <= i64::MAX,
    ensures
        has(v, "msg"@, JsonV::Str(msg)) ==> refresh::refusal(v) == msg,
        lacks(v, "msg"@) && has(v, "message"@, JsonV::Str(msg)) ==> refresh::refusal(v) == msg,
        lacks(v, "msg"@) && lacks(v, "message"@) && has(v, "code"@, JsonV::Int(code))
            ==> refresh::refusal(v) == "code="@ + ("Some("@ + number::signed_decimal(code) + ")"@),
        lacks(v, "msg"@) && lacks(v, "message"@) && lacks(v, "code"@) ==> refresh::refusal(v)
            == "code="@ + "None"@,
{
    lemma_member(v, "msg"@);
    lemma_member(v, "message"@);
    lemma_member(v, "code"@);
}

/// A renewal that goes on asks the next of the same addresses for the same; it fails after the last
/// one, with the last reason.
pub proof fn law_next_address_is_asked(
    old: Refresh,
    new: Refresh,
    step: RefreshStep,
    reason: Seq<char>,
)
    requires
        refresh::moves_on(old, new, step, reason),
    ensures
        new == (Refresh { tried: (old.tried + 1) as usize, ..old }),
        step is Next <==> old.tried + 1 < old.urls@.len(),
        step matches RefreshStep::Failed(e) ==> e@ == reason,
        step !is Renewed,
{
    assert(new.tried == (old.tried + 1) as usize);
}

/// Storing an account changes the first one with its id, and nothing else.
pub proof fn law_only_the_renewed_account_changes(all: Seq<Account>, a: Account)
    ensures
        refresh::replaced(all, a).len() == all.len(),
        forall|i: int|
            0 <= i < all.len() ==> #[trigger] refresh::replaced(all, a)[i] == (if all[i].id@
                == a.id@ && forall|j: int| 0 <= j < i ==> (#[trigger] all[j]).id@ != a.id@ {
                a
            } else {
                all[i]
            }),
{
    lemma_position(all, a.id@);
}

proof fn lemma_position(all: Seq<Account>, id: Seq<char>)
    ensures
        match refresh::position(all, id) {
            Some(i) => 0 <= i < all.len() && all[i].id@ == id && forall|j: int|
                0 <= j < i ==> (#[trigger] all[j]).id@ != id,
            None => forall|j: int| 0 <= j < all.len() ==> (#[trigger] all[j]).id@ != id,
        },
    decreases all.len(),
{
    if all.len() > 0 {
        let rest = all.drop_last();
        lemma_position(rest, id);
        assert forall|j: int| 0 <= j < rest.len() implies rest[j] == #[trigger] all[j] by {}
    }
}

// ---------------------------------------------------------------------------
// The daily check-in
// ---------------------------------------------------------------------------

/// The check-in is due in its minute of each day on which it was not made, as long as it is switched
/// on.
pub proof fn law_when_the_checkin_is_due(s: Settings, last: Option<i32>, today: i32)
    ensures
        scheduler::due(s, last, today, s.checkin_time@) <==> s.checkin_enabled && (last is None
            || last->0 != today),
        forall|t: Seq<char>|
            t != s.checkin_time@ ==> !#[trigger] scheduler::due(s, last, today, t),
{
}

/// In the first two rounds the accounts for which the server was busy are tried again, in their
/// order, and the outcomes of all others stand; in the third round every outcome stands.
pub proof fn law_what_a_round_leaves(round: usize, seen: Seq<(Account, CheckinResult)>)
    ensures
        round < 2 ==> scheduler::left_over(round, seen) == seen.filter(
            |x: (Account, CheckinResult)| x.1.transient,
        ).map_values(|x: (Account, CheckinResult)| x.0),
        round < 2 ==> scheduler::finished(round, seen) == seen.filter(
            |x: (Account, CheckinResult)| !x.1.transient,
        ).map_values(|x: (Account, CheckinResult)| (x.0.name, x.1)),
        round == 2 ==> scheduler::left_over(round, seen).len() == 0,
        round == 2 ==> scheduler::finished(round, seen) == seen.map_values(
            |x: (Account, CheckinResult)| (x.0.name, x.1),
        ),
    decreases seen.len(),
{
    let busy = |x: (Account, CheckinResult)| x.1.transient;
    let rest = |x: (Account, CheckinResult)| !x.1.transient;
    let account = |x: (Account, CheckinResult)| x.0;
    let outcome = |x: (Account, CheckinResult)| (x.0.name, x.1);
    reveal(Seq::filter);
    if seen.len() > 0 {
        law_what_a_round_leaves(round, seen.drop_last());
    }
    if round < 2 {
        assert(scheduler::left_over(round, seen) =~= seen.filter(busy).map_values(account));
        assert(scheduler::finished(round, seen) =~= seen.filter(rest).map_values(outcome));
    } else if round == 2 {
        assert(scheduler::finished(round, seen) =~= seen.map_values(outcome));
    }
}

/// The summary counts as done those that succeeded now, apart from those that were done before, and
/// lists the others that failed with their names and reasons, but for those without anything to
/// claim.
pub proof fn law_what_the_summary_counts(done: Seq<(String, CheckinResult)>)
    ensures
        scheduler::count_already(done) == done.filter(
            |x: (String, CheckinResult)| x.1.already,
        ).len(),
        scheduler::count_ok(done) == done.filter(
            |x: (String, CheckinResult)| x.1.success && !x.1.already,
        ).len(),
        scheduler::failures(done) == done.filter(
            |x: (String, CheckinResult)| !x.1.success && !x.1.already && !x.1.inactive,
        ).map_values(|x: (String, CheckinResult)| x.0@ + "："@ + x.1.message@),
    decreases done.len(),
{
    let before = |x: (String, CheckinResult)| x.1.already;
    let now = |x: (String, CheckinResult)| x.1.success && !x.1.already;
    let bad = |x: (String, CheckinResult)| !x.1.success && !x.1.already && !x.1.inactive;
    let line = |x: (String, CheckinResult)| x.0@ + "："@ + x.1.message@;
    reveal(Seq::filter);
    if done.len() > 0 {
        law_what_the_summary_counts(done.drop_last());
    }
    assert(scheduler::failures(done) =~= done.filter(bad).map_values(line));
}

/// The note before a further round tells its number and how many accounts are left.
pub proof fn law_words_on_a_round(round: nat, pending: nat)
    ensures
        scheduler::round_words(round, pending) == "第 "@ + number::decimal(round) + " 轮补签："@
            + number::decimal(pending) + " 个账号上一轮被限流（9074），"@ + "10"@
            + " 分钟后重试"@,
{
    reveal_strlit("10");
    number::law_notation_is_worth_its_number(10, 10);
    assert(number::decimal(10) =~= "10"@) by {
        reveal_with_fuel(number::notation, 3);
    }
}

/// An endpoint is made to point to the proxy exactly where its gate is open and the proxy listens,
/// left where only the URL gate is open, and restored otherwise.
pub proof fn law_what_is_done_to_an_endpoint(patched: Result<bool, String>, proxy_ok: bool)
    ensures
        scheduler::endpoint_action(patched, proxy_ok) == EndpointAction::Repair <==> patched == Ok::<
            bool,
            String,
        >(true) && proxy_ok,
        scheduler::endpoint_action(patched, proxy_ok) == EndpointAction::Leave <==> patched == Ok::<
            bool,
            String,
        >(true) && !proxy_ok,
        scheduler::endpoint_action(patched, proxy_ok) == EndpointAction::Uninstall <==> patched
            is Err || patched == Ok::<bool, String>(false),
{
}

/// The note on a gate that cannot be kept open names the application and the error.
pub proof fn law_words_on_a_lost_gate(id: Seq<char>, error: Seq<char>)
    ensures
        ({
            let n = scheduler::gate_lost(id, error);
            &&& n.event == "patch_gone"@ && n.dedup
            &&& ("免证书模式：「"@ + id + "」的闸门补丁无法保证（"@ + error + "）"@).is_prefix_of(
                n.detail,
            )
        }),
{
    let n = scheduler::gate_lost(id, error);
    let head = "免证书模式：「"@ + id + "」的闸门补丁无法保证（"@ + error + "）"@;
    reveal_strlit("）");
    reveal_strlit(
        "）。已放弃对它做端点改写并恢复官方直连 —— 否则它下次启动会因明文端点崩掉",
    );
    assert(n.detail.take(head.len() as int) =~= head);
}

} // verus!
