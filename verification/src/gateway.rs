//! The local gateway: an endpoint for chat completions in front of the pool.
use crate::accounts::Account;
use crate::choosing;
use crate::http;
use crate::http::Request;
use crate::number;
use crate::proxy;
use crate::proxy::Outcome;
use crate::routing;
use crate::routing::Pool;
use crate::text;
use vstd::prelude::*;
use vstd::slice::slice_subrange;
use vstd::string::*;

verus! {

/// Whether the gateway listens.
pub struct GatewayStatus {
    pub active: bool,
    pub port: u16,
    pub error: Option<String>,
}

impl Clone for GatewayStatus {
    fn clone(&self) -> (r: Self)
        ensures
            r == *self,
    {
        GatewayStatus { active: self.active, port: self.port, error: text::clone_opt(&self.error) }
    }
}

impl Default for GatewayStatus {
    fn default() -> (r: Self)
        ensures
            !r.active,
            r.port == 0,
            r.error is None,
    {
        GatewayStatus { active: false, port: 0, error: None }
    }
}

/// The status that is shown: the current one, or that of a gateway that does not run where the
/// current one cannot be read.
pub fn status(current: Option<&GatewayStatus>) -> (r: GatewayStatus)
    ensures
        match current {
            Some(s) => r == *s,
            None => !r.active && r.port == 0 && r.error is None,
        },
{
    match current {
        Some(s) => s.clone(),
        None => GatewayStatus::default(),
    }
}

/// The status of a gateway that listens.
pub fn listening(port: u16) -> (r: GatewayStatus)
    ensures
        r.active,
        r.port == port,
        r.error is None,
{
    GatewayStatus { active: true, port, error: None }
}

/// The status of a gateway that cannot listen.
pub fn bind_failed(port: u16, error: &str) -> (r: GatewayStatus)
    ensures
        !r.active,
        r.port == port,
        text::opt_text(r.error) == Some(proxy::bind_error_words(port, None, error@)),
{
    let n = number::to_decimal(port as u64);
    let a = text::plus(text::plus("端口 ".to_owned(), n.as_str()), " 无法监听：");
    GatewayStatus { active: false, port, error: Some(text::plus(a, error)) }
}

/// Whether a gateway that listens on `port` goes on, by the settings.
pub fn keeps_listening(enabled: bool, wanted: u16, port: u16) -> (r: bool)
    ensures
        r == (enabled && wanted == port),
{
    enabled && wanted == port
}

// ---------------------------------------------------------------------------
// Requests
// ---------------------------------------------------------------------------

/// A target that asks for a chat completion; one with a query only under its usual path.
pub open spec fn chat_target(target: Seq<char>) -> bool {
    let bare = http::bare_target(target);
    match text::find_char(bare, '?', 0) {
        Some(i) => text::same_word(bare.subrange(0, i), "/v1/chat/completions"@),
        None => text::same_word(bare, "/v1/chat/completions"@) || text::same_word(
            bare,
            "/v1/messages"@,
        ) || text::same_word(bare, "/chat/completions"@),
    }
}

/// Whether a request asks for a chat completion.
pub fn is_chat_path(target: &str) -> (r: bool)
    ensures
        r == chat_target(target@),
{
    let bare = http::normalize_target(target);
    let chars = text::to_chars(bare.as_str());
    match text::find_char_at(chars.as_slice(), '?', 0) {
        Some(i) => {
            let path = text::to_text(slice_subrange(chars.as_slice(), 0, i));
            text::text_matches_word(path.as_str(), "/v1/chat/completions")
        },
        None => text::text_matches_word(bare.as_str(), "/v1/chat/completions")
            || text::text_matches_word(bare.as_str(), "/v1/messages") || text::text_matches_word(
            bare.as_str(),
            "/chat/completions",
        ),
    }
}

/// The body of the answer to any other request: a list with one model.
pub fn model_list() -> (r: String)
    ensures
        r@ == "{\"object\":\"list\",\"data\":[{\"id\":\"trae-pool\",\"object\":\"model\"}]}"@,
{
    "{\"object\":\"list\",\"data\":[{\"id\":\"trae-pool\",\"object\":\"model\"}]}".to_owned()
}

/// The conversation that the header fields name.
pub open spec fn named_conversation(headers: Seq<(Seq<char>, Seq<char>)>) -> Option<Seq<char>> {
    let v = match http::find_header(headers, "x-conversation-id"@) {
        Some(v) => Some(v),
        None => http::find_header(headers, "x-chat-id"@),
    };
    match v {
        Some(v) => if text::trim(v).len() == 0 {
            None
        } else {
            Some(text::trim(v))
        },
        None => None,
    }
}

/// The conversation of a request.
pub fn conversation(req: &Request) -> (r: Option<String>)
    ensures
        text::opt_text(r) == named_conversation(req@.headers),
{
    let value = match http::header_value(req, "x-conversation-id") {
        Some(v) => v,
        None => match http::header_value(req, "x-chat-id") {
            Some(v) => v,
            None => {
                return None;
            },
        },
    };
    let id = text::trim_text(value);
    if id.as_str().is_empty() {
        None
    } else {
        Some(id)
    }
}

/// The URL at which an account asks for a chat completion.
pub open spec fn completion_url(host: Option<Seq<char>>) -> Seq<char> {
    text::trim_end_char(
        match host {
            Some(h) => h,
            None => "https://api.trae.cn"@,
        },
        '/',
    ) + "/v1/chat/completions"@
}

/// The URL at which an account asks for a chat completion.
pub fn upstream_url(account: &Account) -> (r: String)
    ensures
        r@ == completion_url(text::opt_text(account.host)),
{
    let host = match &account.host {
        Some(h) => h.clone(),
        None => "https://api.trae.cn".to_owned(),
    };
    let chars = text::to_chars(host.as_str());
    text::plus(
        text::to_text(text::without_trailing_char(chars.as_slice(), '/')),
        "/v1/chat/completions",
    )
}

// ---------------------------------------------------------------------------
// Accounts
// ---------------------------------------------------------------------------

/// The test for an account that may serve a request.
pub open spec fn may_serve(ban: Seq<String>) -> spec_fn(Account) -> bool {
    |a: Account| a.enabled && !text::has_text(ban, a.id@)
}

/// The accounts that may serve a request.
pub open spec fn serving(all: Seq<Account>, selected: Seq<String>, ban: Seq<String>) -> Seq<Account> {
    routing::chargeable(all, selected).filter(may_serve(ban))
}

/// The first account that does not cool down, or the first one where every one does.
pub open spec fn first_warm(list: Seq<Account>, cooldown: Map<Seq<char>, (u64, ())>, now: u64) -> int
    recommends
        list.len() > 0,
{
    warm_from(list, cooldown, now, 0)
}

/// The first place at or after `i` of an account that does not cool down; zero where there is none.
pub open spec fn warm_from(
    list: Seq<Account>,
    cooldown: Map<Seq<char>, (u64, ())>,
    now: u64,
    i: int,
) -> int
    decreases list.len() - i,
{
    if i < 0 || i >= list.len() {
        0
    } else if !routing::cools(cooldown, list[i].id@, now) {
        i
    } else {
        warm_from(list, cooldown, now, i + 1)
    }
}

fn serving_accounts(list: &[Account], ban: &[String]) -> (r: Vec<Account>)
    ensures
        r@ == list@.filter(may_serve(ban@)),
{
    let mut out: Vec<Account> = Vec::new();
    let ghost keep = may_serve(ban@);
    let mut i: usize = 0;
    proof {
        reveal(Seq::filter);
        assert(list@.take(0).filter(keep) =~= Seq::empty());
    }
    while i < list.len()
        invariant
            i <= list@.len(),
            keep == may_serve(ban@),
            out@ == list@.take(i as int).filter(keep),
        decreases list@.len() - i,
    {
        proof {
            reveal(Seq::filter);
            assert(list@.take(i + 1).drop_last() =~= list@.take(i as int));
        }
        if list[i].enabled && !text::contains_text(ban, list[i].id.as_str()) {
            out.push(list[i].clone());
        }
        i = i + 1;
    }
    assert(list@.take(i as int) =~= list@);
    out
}

/// The account that serves a request: that of its conversation, or the first that does not cool
/// down.
pub open spec fn serves(
    pool: Pool,
    all: Seq<Account>,
    selected: Seq<String>,
    ban: Seq<String>,
    conv: Option<Seq<char>>,
    now: u64,
) -> Option<Account> {
    let list = serving(all, selected, ban);
    if list.len() == 0 {
        None
    } else {
        match choosing::settled(pool, list, conv, now) {
            Some(a) => Some(a),
            None => Some(list[first_warm(list, pool.cooldown@, now)]),
        }
    }
}

/// What is remembered of conversations after an account was chosen.
pub open spec fn bound_after(
    sticky: Map<Seq<char>, (u64, String)>,
    conv: Option<Seq<char>>,
    chosen: Option<Account>,
    now: u64,
) -> Map<Seq<char>, (u64, String)> {
    match (conv, chosen) {
        (Some(c), Some(a)) => routing::sticky_touched(sticky, c, now).insert(c, (now, a.id)),
        _ => sticky,
    }
}

/// Chooses the account that serves a request, and binds its conversation to it.
pub fn choose_account(
    pool: &mut Pool,
    all: &[Account],
    selected: &[String],
    ban: &[String],
    conv: &Option<String>,
    now: u64,
) -> (r: Option<Account>)
    ensures
        r == serves(*old(pool), all@, selected@, ban@, text::opt_text(*conv), now),
        final(pool).cooldown@ == old(pool).cooldown@,
        final(pool).sticky@ == bound_after(old(pool).sticky@, text::opt_text(*conv), r, now),
{
    let chargeable = routing::billing_candidates(all, selected);
    let list = serving_accounts(chargeable.as_slice(), ban);
    if list.len() == 0 {
        return None;
    }
    if let Some(c) = conv {
        if let Some(id) = pool.sticky_hit(c.as_str(), now) {
            if let Some(a) = choosing::find_account(list.as_slice(), id.as_str()) {
                pool.sticky_put(c.as_str(), a.id.clone(), now);
                return Some(a);
            }
        }
    }
    let mut i: usize = 0;
    while i < list.len() && pool.cooling(list[i].id.as_str(), now)
        invariant
            i <= list@.len(),
            warm_from(list@, pool.cooldown@, now, 0) == warm_from(
                list@,
                pool.cooldown@,
                now,
                i as int,
            ),
        decreases list@.len() - i,
    {
        i = i + 1;
    }
    let index: usize = if i < list.len() {
        i
    } else {
        0
    };
    let a = list[index].clone();
    if let Some(c) = conv {
        pool.sticky_put(c.as_str(), a.id.clone(), now);
    }
    Some(a)
}

/// What to do next.
pub enum Next {
    /// Choose another account and send the request again.
    Again,
    /// Hand the response on.
    Relay,
    /// Answer with status 502 and this body.
    Fail(String),
}

/// Besides `account` and the banned ones, some account may serve the request.
pub open spec fn has_another(
    all: Seq<Account>,
    selected: Seq<String>,
    ban: Seq<String>,
    account: Account,
) -> bool {
    serving(all, selected, ban.push(account.id)).len() > 0
}

/// Whether, besides `account` and the banned ones, some account may serve the request.
pub fn another_left(all: &[Account], selected: &[String], ban: &[String], account: &Account) -> (r:
    bool)
    ensures
        r == (serving(all@, selected@, ban@.push(account.id)).len() > 0),
{
    let chargeable = routing::billing_candidates(all, selected);
    let mut out = text::clone_texts(ban);
    out.push(account.id.clone());
    serving_accounts(chargeable.as_slice(), out.as_slice()).len() > 0
}

/// Decides what to do after a request was sent with the credentials of `account`. Where that
/// account was limited it cools down, its conversation is unbound, and the request goes to another
/// one; the limit is handed on where no other one is left, or the request was sent often enough.
pub fn after_reply(
    pool: &mut Pool,
    all: &[Account],
    selected: &[String],
    ban: &mut Vec<String>,
    account: &Account,
    conv: &Option<String>,
    outcome: Outcome,
    now: u64,
) -> (r: Next)
    ensures
        ({
            let limited = outcome == Outcome::Status(429);
            let again = proxy::sent_again(
                limited,
                old(ban)@.len(),
                has_another(all@, selected@, old(ban)@, *account),
            );
            &&& match r {
                Next::Again => again,
                Next::Relay => !again && outcome is Status,
                Next::Fail(b) => outcome matches Outcome::Failed(e) && b@ == "upstream error: "@
                    + e@,
            }
            &&& final(ban)@ == (if again {
                old(ban)@.push(account.id)
            } else {
                old(ban)@
            })
            &&& final(pool).cooldown@ == (if limited {
                old(pool).cooldown@.insert(account.id@, (now, ()))
            } else {
                old(pool).cooldown@
            })
            &&& final(pool).sticky@ == (if limited && conv is Some {
                old(pool).sticky@.remove(conv->0@)
            } else {
                old(pool).sticky@
            })
        }),
{
    match outcome {
        Outcome::Failed(e) => Next::Fail(text::plus("upstream error: ".to_owned(), e.as_str())),
        Outcome::Status(status) => {
            if status != 429 {
                return Next::Relay;
            }
            pool.cool_down(account.id.as_str(), now);
            if let Some(c) = conv {
                pool.sticky_remove(c.as_str());
            }
            let another = another_left(all, selected, ban.as_slice(), account);
            if ban.len() < proxy::FAILOVER_MAX_TRIES - 1 && another {
                ban.push(account.id.clone());
                Next::Again
            } else {
                Next::Relay
            }
        },
    }
}

// ---------------------------------------------------------------------------
// Responses
// ---------------------------------------------------------------------------

/// The reason phrase of a status; a response without content gets none of its own.
pub open spec fn reason_of(status: u16) -> Seq<char> {
    if status == 204 {
        "OK"@
    } else {
        http::reason_of(status)
    }
}

/// The reason phrase of a status.
pub fn reason(status: u16) -> (r: &'static str)
    ensures
        r@ == reason_of(status),
{
    if status == 204 {
        "OK"
    } else {
        http::reason(status)
    }
}

/// The head of a response that is handed on.
pub open spec fn stream_head_text(status: u16, ctype: Seq<char>) -> Seq<char> {
    "HTTP/1.1 "@ + number::decimal(status as nat) + " "@ + reason_of(status) + "\r\nContent-Type: "@
        + ctype
        + "\r\nTransfer-Encoding: chunked\r\nCache-Control: no-cache\r\nConnection: close\r\n\r\n"@
}

/// Writes the head of a response that is handed on; `ctype` is its content type, if it has one.
pub fn stream_head(status: u16, ctype: Option<String>) -> (r: String)
    ensures
        r@ == stream_head_text(
            status,
            match ctype {
                Some(c) => c@,
                None => "application/json"@,
            },
        ),
{
    let kind = match ctype {
        Some(c) => c,
        None => "application/json".to_owned(),
    };
    let n = number::to_decimal(status as u64);
    let a = text::plus(text::plus("HTTP/1.1 ".to_owned(), n.as_str()), " ");
    let b = text::plus(text::plus(a, reason(status)), "\r\nContent-Type: ");
    text::plus(
        text::plus(b, kind.as_str()),
        "\r\nTransfer-Encoding: chunked\r\nCache-Control: no-cache\r\nConnection: close\r\n\r\n",
    )
}

// ---------------------------------------------------------------------------
// Laws
// ---------------------------------------------------------------------------

/// A conversation goes on with the account that served it last, as long as that was not too long
/// ago and the account may still serve it.
pub proof fn law_conversation_goes_on(
    before: Map<Seq<char>, (u64, String)>,
    after: Pool,
    chosen: Account,
    conv: Seq<char>,
    bound: u64,
    all: Seq<Account>,
    selected: Seq<String>,
    ban: Seq<String>,
    now: u64,
)
    requires
        after.sticky@ == bound_after(before, Some(conv), Some(chosen), bound),
        now - bound < routing::STICKY_TTL,
        exists|i: int|
            0 <= i < serving(all, selected, ban).len() && (#[trigger] serving(
                all,
                selected,
                ban,
            )[i]).id@ == chosen.id@,
    ensures
        serves(after, all, selected, ban, Some(conv), now) matches Some(a) && a.id@ == chosen.id@,
{
    choosing::law_conversation_stays(
        routing::sticky_touched(before, conv, bound),
        after,
        serving(all, selected, ban),
        conv,
        chosen.id,
        bound,
        now,
    );
}

/// Where a request is sent again, an account serves it: only then the limit is not handed on.
pub proof fn law_sent_again_is_served(
    pool: Pool,
    all: Seq<Account>,
    selected: Seq<String>,
    ban: Seq<String>,
    account: Account,
    limited: bool,
    conv: Option<Seq<char>>,
    now: u64,
)
    requires
        proxy::sent_again(limited, ban.len(), has_another(all, selected, ban, account)),
    ensures
        serves(pool, all, selected, ban.push(account.id), conv, now) is Some,
{
}

/// Of the accounts that may serve a request, the first that does not cool down serves it.
pub proof fn law_first_warm_serves(
    list: Seq<Account>,
    cooldown: Map<Seq<char>, (u64, ())>,
    now: u64,
    i: int,
)
    requires
        0 <= i < list.len(),
        !routing::cools(cooldown, list[i].id@, now),
        forall|j: int| 0 <= j < i ==> routing::cools(cooldown, (#[trigger] list[j]).id@, now),
    ensures
        first_warm(list, cooldown, now) == i,
{
    lemma_warm_from(list, cooldown, now, 0, i);
}

proof fn lemma_warm_from(
    list: Seq<Account>,
    cooldown: Map<Seq<char>, (u64, ())>,
    now: u64,
    from: int,
    i: int,
)
    requires
        0 <= from <= i < list.len(),
        !routing::cools(cooldown, list[i].id@, now),
        forall|j: int| 0 <= j < i ==> routing::cools(cooldown, (#[trigger] list[j]).id@, now),
    ensures
        warm_from(list, cooldown, now, from) == i,
    decreases i - from,
{
    if from < i {
        assert(routing::cools(cooldown, list[from].id@, now));
        lemma_warm_from(list, cooldown, now, from + 1, i);
    }
}

} // verus!
