//! Renewing the token of an account.
use crate::accounts::Account;
use crate::checkin;
use crate::json;
use crate::json::{Json, JsonV};
use crate::number;
use crate::text;
use vstd::prelude::*;
use vstd::string::*;

verus! {

/// The paths under which a token may be renewed, in the order in which they are tried.
pub open spec fn refresh_paths() -> Seq<Seq<char>> {
    seq![
        "/trae/api/v2/user/refresh_token"@,
        "/trae/api/v1/user/refresh_token"@,
        "/api/v2/user/refresh_token"@,
        "/api/v1/auth/refresh"@,
    ]
}

/// A renewal that is under way.
pub struct Refresh {
    /// The addresses that are tried, one after the other.
    pub urls: Vec<String>,
    /// What is sent to each of them.
    pub body: String,
    /// The number of addresses that have been tried.
    pub tried: usize,
}

/// The request that asks for a new token.
pub open spec fn request_tree(token: Seq<char>) -> JsonV {
    JsonV::Obj(seq![("refreshToken"@, JsonV::Str(token))])
}

fn request_text(token: &str) -> (r: String)
    ensures
        r@ == json::compact_json(request_tree(token@)),
{
    let mut m: Vec<(String, Json)> = Vec::new();
    m.push(("refreshToken".to_owned(), Json::Str(token.to_owned())));
    let ghost leaf = m@[0].1;
    let doc = Json::Obj(m);
    proof {
        json::lemma_views(leaf);
        json::lemma_views(doc);
        assert(json::members_view(m@) =~= request_tree(token@)->Obj_0);
        assert(json::orderly(doc@)) by {
            reveal_with_fuel(json::orderly, 2);
        }
    }
    doc.to_compact()
}

/// Begins to renew the token of an account: the addresses that are asked, and what they are sent.
pub fn refresh_account(a: &Account) -> (r: Result<Refresh, String>)
    ensures
        match r {
            Ok(f) => {
                &&& a.refresh_token matches Some(t) && f.body@ == json::compact_json(
                    request_tree(t@),
                )
                &&& f.tried == 0
                &&& text::texts(f.urls@) == refresh_paths().map_values(
                    |p: Seq<char>| checkin::normal_host(checkin::account_host(*a)) + p,
                )
            },
            Err(e) => a.refresh_token is None && e@ == "该账号没有 refresh token"@,
        },
{
    match &a.refresh_token {
        Some(t) => {
            let host = checkin::normalize_host(checkin::host_of(a).as_str());
            let mut urls: Vec<String> = Vec::new();
            urls.push(text::plus(host.clone(), "/trae/api/v2/user/refresh_token"));
            urls.push(text::plus(host.clone(), "/trae/api/v1/user/refresh_token"));
            urls.push(text::plus(host.clone(), "/api/v2/user/refresh_token"));
            urls.push(text::plus(host.clone(), "/api/v1/auth/refresh"));
            assert(text::texts(urls@) =~= refresh_paths().map_values(
                |p: Seq<char>| checkin::normal_host(checkin::account_host(*a)) + p,
            ));
            Ok(Refresh { urls, body: request_text(t.as_str()), tried: 0 })
        },
        None => Err("该账号没有 refresh token".to_owned()),
    }
}

/// The first of two optional values.
pub open spec fn either(a: Option<JsonV>, b: Option<JsonV>) -> Option<JsonV> {
    if a is Some {
        a
    } else {
        b
    }
}

/// What an answer gives: its `data`, or null.
pub open spec fn data_of(v: JsonV) -> JsonV {
    match json::member(v, "data"@) {
        Some(d) => d,
        None => JsonV::Null,
    }
}

/// The new token in an answer.
pub open spec fn new_token(data: JsonV) -> Option<Seq<char>> {
    json::text_of(
        either(
            json::member(data, "token"@),
            either(json::member(data, "accessToken"@), json::member(data, "access_token"@)),
        ),
    )
}

/// The new refresh token in an answer.
pub open spec fn new_refresh_token(data: JsonV) -> Option<Seq<char>> {
    json::text_of(
        either(json::member(data, "refreshToken"@), json::member(data, "refresh_token"@)),
    )
}

/// The new expiry in an answer: an integer, or a text that is one.
pub open spec fn new_expiry(data: JsonV) -> Option<i64> {
    let v = either(json::member(data, "expiredAt"@), json::member(data, "expiresAt"@));
    match v {
        Some(JsonV::Str(s)) => checkin::as_signed(number::signed(s)),
        _ => checkin::as_signed(json::signed_of(v)),
    }
}

/// An account after its token was renewed.
pub open spec fn renewed(old: Account, data: JsonV, new: Account) -> bool {
    &&& new_token(data) == Some(new.token@)
    &&& match new_refresh_token(data) {
        Some(t) => text::opt_text(new.refresh_token) == Some(t),
        None => new.refresh_token == old.refresh_token,
    }
    &&& new.expires_at == match new_expiry(data) {
        Some(t) => Some(t),
        None => old.expires_at,
    }
    &&& new.id == old.id
    &&& new.name == old.name
    &&& new.phone == old.phone
    &&& new.region == old.region
    &&& new.user_id == old.user_id
    &&& new.host == old.host
    &&& new.refresh_expires_at == old.refresh_expires_at
    &&& new.device_id == old.device_id
    &&& new.machine_id == old.machine_id
    &&& new.created_at == old.created_at
    &&& new.enabled == old.enabled
    &&& new.credit_snapshot == old.credit_snapshot
}

/// Why an answer does not renew the token.
pub open spec fn refusal(v: JsonV) -> Seq<char> {
    match json::text_of(either(json::member(v, "msg"@), json::member(v, "message"@))) {
        Some(m) => m,
        None => "code="@ + checkin::code_text(checkin::code_of(v)),
    }
}

/// What follows an answer, or the lack of one.
pub enum RefreshStep {
    /// The next address is asked.
    Next,
    /// The token is renewed; the account is to be stored.
    Renewed,
    /// The token is not renewed.
    Failed(String),
}

/// Another address is asked, or the renewal fails with the last reason.
pub open spec fn moves_on(old: Refresh, new: Refresh, step: RefreshStep, reason: Seq<char>) -> bool {
    &&& new.urls == old.urls
    &&& new.body == old.body
    &&& new.tried == old.tried + 1
    &&& match step {
        RefreshStep::Next => new.tried < new.urls@.len(),
        RefreshStep::Failed(e) => new.tried >= new.urls@.len() && e@ == reason,
        RefreshStep::Renewed => false,
    }
}

fn first_member<'a>(data: &'a Json, a: &str, b: &str) -> (r: Option<&'a Json>)
    ensures
        json::opt_json(r) == either(json::member(data@, a@), json::member(data@, b@)),
{
    match data.get(a) {
        Some(x) => Some(x),
        None => data.get(b),
    }
}

fn text_in(v: Option<&Json>) -> (r: Option<String>)
    ensures
        text::opt_text(r) == json::text_of(json::opt_json(v)),
{
    match v {
        Some(j) => match j.as_text() {
            Some(s) => Some(s.clone()),
            None => None,
        },
        None => None,
    }
}

fn expiry_in(data: &Json) -> (r: Option<i64>)
    ensures
        r == new_expiry(data@),
{
    match first_member(data, "expiredAt", "expiresAt") {
        Some(j) => {
            proof {
                json::lemma_views(*j);
            }
            match j {
                Json::Str(s) => {
                    let chars = text::to_chars(s.as_str());
                    number::parse_signed(chars.as_slice())
                },
                _ => j.as_signed(),
            }
        },
        None => None,
    }
}

fn move_on(f: &mut Refresh, reason: String) -> (r: RefreshStep)
    requires
        old(f).tried < old(f).urls@.len(),
    ensures
        moves_on(*old(f), *final(f), r, reason@),
{
    let n: usize = f.urls.len();
    f.tried = f.tried + 1;
    if f.tried < n {
        RefreshStep::Next
    } else {
        RefreshStep::Failed(reason)
    }
}

/// Takes the answer of the address that was asked. The account changes only where the token is
/// renewed.
pub fn answered(f: &mut Refresh, a: &mut Account, body: &str) -> (r: RefreshStep)
    requires
        old(f).tried < old(f).urls@.len(),
    ensures
        ({
            let v = checkin::claim_json(body@);
            if checkin::code_of(v) != Some(0i64) {
                moves_on(*old(f), *final(f), r, refusal(v)) && *final(a) == *old(a)
            } else if new_token(data_of(v)) is None {
                (r matches RefreshStep::Failed(e) && e@ == "刷新响应缺少 token"@) && *final(a)
                    == *old(a) && *final(f) == *old(f)
            } else {
                r is Renewed && renewed(*old(a), data_of(v), *final(a)) && *final(f) == *old(f)
            }
        }),
{
    let v = match Json::parse(body) {
        Some(j) => j,
        None => Json::Null,
    };
    proof {
        json::lemma_views(v);
        json::lemma_views(Json::Null);
    }
    let code = match v.get("code") {
        Some(c) => c.as_signed(),
        None => None,
    };
    let zero = match code {
        Some(n) => n == 0,
        None => false,
    };
    if !zero {
        let reason = match text_in(first_member(&v, "msg", "message")) {
            Some(m) => m,
            None => {
                let shown = checkin::show_code(code);
                text::plus("code=".to_owned(), shown.as_str())
            },
        };
        return move_on(f, reason);
    }
    let null = Json::Null;
    let data = match v.get("data") {
        Some(d) => d,
        None => &null,
    };
    let token = match data.get("token") {
        Some(t) => Some(t),
        None => first_member(data, "accessToken", "access_token"),
    };
    match text_in(token) {
        Some(t) => {
            a.token = t;
            if let Some(n) = text_in(first_member(data, "refreshToken", "refresh_token")) {
                a.refresh_token = Some(n);
            }
            if let Some(e) = expiry_in(data) {
                a.expires_at = Some(e);
            }
            RefreshStep::Renewed
        },
        None => RefreshStep::Failed("刷新响应缺少 token".to_owned()),
    }
}

/// Takes note that the address could not be asked.
pub fn not_answered(f: &mut Refresh, error: &str) -> (r: RefreshStep)
    requires
        old(f).tried < old(f).urls@.len(),
    ensures
        moves_on(
            *old(f),
            *final(f),
            r,
            old(f).urls@[old(f).tried as int]@ + " 请求失败："@ + error@,
        ),
{
    let url = f.urls[f.tried].clone();
    let reason = text::plus(text::plus(url, " 请求失败："), error);
    move_on(f, reason)
}

/// The position of the first account with the given id.
pub open spec fn position(all: Seq<Account>, id: Seq<char>) -> Option<int>
    decreases all.len(),
{
    if all.len() == 0 {
        None
    } else {
        match position(all.drop_last(), id) {
            Some(i) => Some(i),
            None => if all.last().id@ == id {
                Some(all.len() - 1)
            } else {
                None
            },
        }
    }
}

/// The accounts with the one of the same id replaced, if it is there.
pub open spec fn replaced(all: Seq<Account>, a: Account) -> Seq<Account> {
    match position(all, a.id@) {
        Some(i) => all.update(i, a),
        None => all,
    }
}

/// Replaces the stored account with the same id; where there is none, nothing changes.
pub fn store_account(all: &mut Vec<Account>, a: &Account)
    ensures
        final(all)@ == replaced(old(all)@, *a),
{
    let ghost start = all@;
    let mut i: usize = 0;
    while i < all.len()
        invariant
            i <= all@.len(),
            all@ == start,
            start == old(all)@,
            position(start.take(i as int), a.id@) is None,
        decreases all@.len() - i,
    {
        let ghost t = start.take(i + 1);
        assert(t.drop_last() == start.take(i as int));
        if text::same_text(all[i].id.as_str(), a.id.as_str()) {
            proof {
                assert(position(t, a.id@) == Some(i as int));
                lemma_position_extends(start, a.id@, i + 1);
            }
            all.set(i, a.clone());
            return;
        }
        i = i + 1;
    }
    assert(start.take(i as int) == start);
}

proof fn lemma_position_extends(all: Seq<Account>, id: Seq<char>, n: int)
    requires
        0 <= n <= all.len(),
        position(all.take(n), id) is Some,
    ensures
        position(all, id) == position(all.take(n), id),
    decreases all.len() - n,
{
    if n < all.len() {
        let t = all.take(n + 1);
        assert(t.drop_last() == all.take(n));
        lemma_position_extends(all, id, n + 1);
    } else {
        assert(all.take(n) == all);
    }
}

/// A renewal asks each address once at most: every answer that does not end it takes it to the
/// next one.
pub proof fn law_refresh_ends(old: Refresh, new: Refresh, step: RefreshStep, reason: Seq<char>)
    requires
        moves_on(old, new, step, reason),
    ensures
        new.urls@.len() - new.tried < old.urls@.len() - old.tried,
        step is Next ==> new.tried < new.urls@.len(),
{
}

} // verus!
