//! What the user asks for: accounts, the state of the takeover, and switching it on and off.
use crate::accounts;
use crate::accounts::{Account, CreditSnapshot, Settings, TraeLocalAccount};
use crate::checkin;
use crate::checkin::{CheckinResult, CheckinStatus};
use crate::clock;
use crate::endpoint;
use crate::endpoint::EndpointStatus;
use crate::json;
use crate::json::Json;
use crate::number;
use crate::patch::PatchStatus;
use crate::proxy;
use crate::proxy::{Note, NoteV, ProxyStatus};
use crate::rules::Rules;
use crate::text;
use vstd::prelude::*;
use vstd::string::*;

verus! {

// ---------------------------------------------------------------------------
// Accounts
// ---------------------------------------------------------------------------

/// The accounts with others added, but for those of a person who is there already.
pub open spec fn with_imported(list: Seq<Account>, more: Seq<Account>) -> Seq<Account>
    decreases more.len(),
{
    if more.len() == 0 {
        list
    } else {
        let before = with_imported(list, more.drop_last());
        if accounts::has_equivalent(before, more.last()) {
            before
        } else {
            before.push(more.last())
        }
    }
}

/// Adds accounts, but for those of a person who is there already.
pub fn add_accounts(list: Vec<Account>, more: &[Account]) -> (r: Vec<Account>)
    ensures
        r@ == with_imported(list@, more@),
{
    let mut out = list;
    let ghost all = more@;
    let ghost start = out@;
    let mut i: usize = 0;
    while i < more.len()
        invariant
            i <= more@.len(),
            all == more@,
            out@ == with_imported(start, all.take(i as int)),
        decreases more@.len() - i,
    {
        let ghost t = all.take(i + 1);
        assert(t.drop_last() == all.take(i as int));
        assert(t.last() == more@[i as int]);
        if !accounts::contains_equivalent(out.as_slice(), &more[i]) {
            out.push(more[i].clone());
        }
        i = i + 1;
    }
    assert(all.take(i as int) == all);
    out
}

/// The second list is the first one with ids and creation times for those that have none.
pub open spec fn all_normalized(more: Seq<Account>, ready: Seq<Account>) -> bool {
    &&& ready.len() == more.len()
    &&& forall|i: int|
        0 <= i < more.len() ==> accounts::normalized(#[trigger] more[i], ready[i])
}

/// Imports accounts: each one gets an id and a creation time where it has none, and is added unless
/// its person is there already.
pub fn import_accounts(list: Vec<Account>, more: Vec<Account>) -> (r: Vec<Account>)
    ensures
        exists|ready: Seq<Account>|
            all_normalized(more@, ready) && r@ == #[trigger] with_imported(list@, ready),
{
    let mut ready: Vec<Account> = Vec::new();
    let mut i: usize = 0;
    while i < more.len()
        invariant
            i <= more@.len(),
            ready@.len() == i,
            forall|k: int|
                0 <= k < i ==> accounts::normalized(#[trigger] more@[k], ready@[k]),
        decreases more@.len() - i,
    {
        ready.push(accounts::normalize(more[i].clone()));
        i = i + 1;
    }
    assert(all_normalized(more@, ready@));
    add_accounts(list, ready.as_slice())
}

/// An account has another id than the given one.
pub open spec fn has_other_id(id: Seq<char>) -> spec_fn(Account) -> bool {
    |a: Account| a.id@ != id
}

/// Removes the accounts with the given id.
pub fn remove_account(list: &[Account], id: &str) -> (r: Vec<Account>)
    ensures
        r@ == list@.filter(has_other_id(id@)),
{
    let mut out: Vec<Account> = Vec::new();
    let mut i: usize = 0;
    proof {
        reveal(Seq::filter);
    }
    while i < list.len()
        invariant
            i <= list@.len(),
            out@ == list@.take(i as int).filter(has_other_id(id@)),
        decreases list@.len() - i,
    {
        let ghost t = list@.take(i + 1);
        assert(t.drop_last() == list@.take(i as int));
        proof {
            reveal(Seq::filter);
        }
        if !text::same_text(list[i].id.as_str(), id) {
            out.push(list[i].clone());
        }
        i = i + 1;
    }
    assert(list@.take(i as int) == list@);
    out
}

/// A local login belongs to someone among the accounts.
pub open spec fn known(existing: Seq<Account>, a: TraeLocalAccount) -> bool {
    exists|i: int|
        0 <= i < existing.len() && match ((#[trigger] existing[i]).phone, a.phone) {
            (Some(p), Some(q)) => p@ == q@,
            _ => existing[i].token@ == a.token@,
        }
}

/// The local logins of persons that are not among the accounts.
pub open spec fn unknown(existing: Seq<Account>, found: Seq<TraeLocalAccount>) -> Seq<
    TraeLocalAccount,
>
    decreases found.len(),
{
    if found.len() == 0 {
        Seq::empty()
    } else {
        let before = unknown(existing, found.drop_last());
        if known(existing, found.last()) {
            before
        } else {
            before.push(found.last())
        }
    }
}

fn is_known(existing: &[Account], a: &TraeLocalAccount) -> (r: bool)
    ensures
        r == known(existing@, *a),
{
    let mut i: usize = 0;
    while i < existing.len()
        invariant
            i <= existing@.len(),
            forall|k: int|
                0 <= k < i ==> !(match ((#[trigger] existing@[k]).phone, a.phone) {
                    (Some(p), Some(q)) => p@ == q@,
                    _ => existing@[k].token@ == a.token@,
                }),
        decreases existing@.len() - i,
    {
        let same = match (&existing[i].phone, &a.phone) {
            (Some(p), Some(q)) => text::same_text(p.as_str(), q.as_str()),
            _ => text::same_text(existing[i].token.as_str(), a.token.as_str()),
        };
        if same {
            return true;
        }
        i = i + 1;
    }
    false
}

/// The accounts that can be imported: one for each local login of a person who is not among the
/// accounts, under a fresh id.
pub fn discover_local(existing: &[Account], found: Vec<TraeLocalAccount>) -> (r: Vec<Account>)
    ensures
        r@.len() == unknown(existing@, found@).len(),
        forall|i: int|
            0 <= i < r@.len() ==> accounts::imported(
                unknown(existing@, found@)[i],
                (#[trigger] r@[i]).id,
                r@[i].created_at,
                r@[i],
            ) && accounts::drawn(r@[i].id@, r@[i].created_at@),
{
    let mut out: Vec<Account> = Vec::new();
    let ghost all = found@;
    let mut rest = found;
    let n: usize = rest.len();
    let mut i: usize = 0;
    assert(all.skip(0) == all);
    while i < n
        invariant
            i <= n,
            n == all.len(),
            rest@ == all.skip(i as int),
            out@.len() == unknown(existing@, all.take(i as int)).len(),
            forall|k: int|
                0 <= k < out@.len() ==> accounts::imported(
                    unknown(existing@, all.take(i as int))[k],
                    (#[trigger] out@[k]).id,
                    out@[k].created_at,
                    out@[k],
                ) && accounts::drawn(out@[k].id@, out@[k].created_at@),
        decreases n - i,
    {
        let ghost t = all.take(i + 1);
        assert(t.drop_last() == all.take(i as int));
        let login = rest.remove(0);
        assert(rest@ == all.skip(i + 1));
        assert(t.last() == login);
        if !is_known(existing, &login) {
            out.push(accounts::new_account(login));
        }
        i = i + 1;
    }
    assert(all.take(i as int) == all);
    out
}

/// The first account with the given id.
pub fn find_account(list: &[Account], id: &str) -> (r: Result<Account, String>)
    ensures
        match r {
            Ok(a) => exists|i: int|
                0 <= i < list@.len() && #[trigger] list@[i] == a && a.id@ == id@ && forall|k: int|
                    0 <= k < i ==> (#[trigger] list@[k]).id@ != id@,
            Err(e) => e@ == "账号不存在"@ && forall|k: int|
                0 <= k < list@.len() ==> (#[trigger] list@[k]).id@ != id@,
        },
{
    let mut i: usize = 0;
    while i < list.len()
        invariant
            i <= list@.len(),
            forall|k: int| 0 <= k < i ==> (#[trigger] list@[k]).id@ != id@,
        decreases list@.len() - i,
    {
        if text::same_text(list[i].id.as_str(), id) {
            let a = list[i].clone();
            assert(list@[i as int] == a);
            return Ok(a);
        }
        i = i + 1;
    }
    Err("账号不存在".to_owned())
}

/// What the log says of a check-in.
pub fn checkin_log(r: &CheckinResult) -> (s: String)
    ensures
        s@ == "签到："@ + r.message@,
{
    text::plus("签到：".to_owned(), r.message.as_str())
}

/// What the log says of a token that was renewed, or could not be.
pub fn renewal_log(message: &str) -> (s: String)
    ensures
        s@ == "续签："@ + message@,
{
    text::plus("续签：".to_owned(), message)
}

// ---------------------------------------------------------------------------
// The state of the accounts
// ---------------------------------------------------------------------------

/// The check-in and the credits of an account.
pub struct AccountStatus {
    pub id: String,
    pub checked_in: bool,
    pub message: String,
    pub credits: Option<i64>,
    pub unlimited: bool,
    pub earliest_expiry_ms: Option<i64>,
}

/// The credits of an account as they were told.
pub struct Usage {
    pub remaining: Option<i64>,
    pub unlimited: bool,
    pub earliest_expiry_ms: Option<i64>,
}

/// A snapshot says the same as what was told.
pub open spec fn same_credits(s: Option<CreditSnapshot>, u: Usage) -> bool {
    s matches Some(p) && p.credits == u.remaining && p.unlimited == u.unlimited
        && p.earliest_expiry_ms == u.earliest_expiry_ms
}

fn same_option(a: Option<i64>, b: Option<i64>) -> (r: bool)
    ensures
        r == (a == b),
{
    match (a, b) {
        (Some(x), Some(y)) => x == y,
        (None, None) => true,
        _ => false,
    }
}

/// Takes the credits down that were told, unless they are what is known already. Where nothing was
/// told, what is known stays. Tells whether the account has changed.
pub fn note_usage(a: &mut Account, told: Option<Usage>) -> (r: bool)
    ensures
        r == (told matches Some(u) && !same_credits(old(a).credit_snapshot, u)),
        r ==> same_credits(final(a).credit_snapshot, told->0),
        r ==> clock::is_timestamp(final(a).credit_snapshot->0.fetched_at@),
        !r ==> *final(a) == *old(a),
        *final(a) == (Account { credit_snapshot: final(a).credit_snapshot, ..*old(a) }),
{
    match told {
        Some(u) => {
            let same = match &a.credit_snapshot {
                Some(p) => same_option(p.credits, u.remaining) && p.unlimited == u.unlimited
                    && same_option(p.earliest_expiry_ms, u.earliest_expiry_ms),
                None => false,
            };
            if same {
                return false;
            }
            a.credit_snapshot = Some(
                CreditSnapshot::now(u.remaining, u.unlimited, u.earliest_expiry_ms),
            );
            true
        },
        None => false,
    }
}

/// The state of one account: its check-in as it was answered, and the credits that are known.
pub fn checkin_status(a: &Account, state: Option<Json>) -> (r: AccountStatus)
    ensures
        r.id == a.id,
        match state {
            Some(v) => r.checked_in == checkin::says_checked_in(v@) && r.message@
                == match json::text_of(json::member(v@, "message"@)) {
                Some(m) => m,
                None => "success"@,
            },
            None => !r.checked_in && r.message@ == ""@,
        },
        match a.credit_snapshot {
            Some(s) => r.credits == s.credits && r.unlimited == s.unlimited && r.earliest_expiry_ms
                == s.earliest_expiry_ms,
            None => r.credits is None && !r.unlimited && r.earliest_expiry_ms is None,
        },
{
    let (checked_in, message) = match CheckinStatus::from_status(state) {
        Some(s) => (s.checked_in, s.message),
        None => (false, "".to_owned()),
    };
    let (credits, unlimited, earliest_expiry_ms) = match &a.credit_snapshot {
        Some(s) => (s.credits, s.unlimited, s.earliest_expiry_ms),
        None => (None, false, None),
    };
    AccountStatus { id: a.id.clone(), checked_in, message, credits, unlimited, earliest_expiry_ms }
}

// ---------------------------------------------------------------------------
// The state of the takeover
// ---------------------------------------------------------------------------

/// The state of the takeover.
pub struct TakeoverStatus {
    pub enabled: bool,
    pub port: u16,
    pub proxy_active: bool,
    pub proxy_error: Option<String>,
    pub trae_running: bool,
    pub supported: bool,
    pub app_dir: Option<String>,
    pub installed: bool,
    pub ours: bool,
    pub writable: bool,
    pub endpoint_base: String,
    pub rules: Rules,
    pub patch: PatchStatus,
    pub upstream_http: Option<String>,
    pub upstream_ws: Option<String>,
    pub lease_fresh: bool,
    pub message: String,
}

/// The one thing to say: what stands in the way now.
pub open spec fn takeover_words(
    enabled: bool,
    ep: EndpointStatus,
    px: ProxyStatus,
    patch: PatchStatus,
) -> Seq<char> {
    if !ep.supported {
        ep.message@
    } else if !patch.patched {
        patch.message@
    } else if !ep.writable && !enabled {
        ep.message@
    } else if ep.installed && !ep.ours {
        ep.message@
    } else if enabled && !px.active {
        "已开启接管，但本地反代未在监听——请检查端口是否被占用。"@
    } else if enabled && !ep.installed {
        "本地反代已就绪，但 TraeWork 的端点还没指过来（TraeWork 升级后会丢失）。重新开启一次开关即可。"@
    } else if enabled {
        "接管已生效：端点走明文回环，不需要任何证书。"@
    } else {
        ep.message@
    }
}

/// Puts the state of the takeover together.
pub fn build_status(
    s: &Settings,
    ep: EndpointStatus,
    px: ProxyStatus,
    patch: PatchStatus,
    rules: Rules,
    trae_running: bool,
) -> (r: TakeoverStatus)
    ensures
        r.enabled == s.takeover_enabled,
        r.port == s.takeover_port,
        r.proxy_active == px.active,
        r.proxy_error == px.error,
        r.trae_running == trae_running,
        r.supported == ep.supported,
        r.app_dir == ep.app_dir,
        r.installed == ep.installed,
        r.ours == ep.ours,
        r.writable == ep.writable,
        r.endpoint_base@ == endpoint::local_base(s.takeover_port),
        r.rules == rules,
        r.patch == patch,
        r.upstream_http == ep.upstream_http,
        r.upstream_ws == ep.upstream_ws,
        r.lease_fresh == ep.lease_fresh,
        r.message@ == takeover_words(s.takeover_enabled, ep, px, patch),
{
    let on = s.takeover_enabled;
    let message = if !ep.supported {
        ep.message.clone()
    } else if !patch.patched {
        patch.message.clone()
    } else if !ep.writable && !on {
        ep.message.clone()
    } else if ep.installed && !ep.ours {
        ep.message.clone()
    } else if on && !px.active {
        "已开启接管，但本地反代未在监听——请检查端口是否被占用。".to_owned()
    } else if on && !ep.installed {
        "本地反代已就绪，但 TraeWork 的端点还没指过来（TraeWork 升级后会丢失）。重新开启一次开关即可。".to_owned()
    } else if on {
        "接管已生效：端点走明文回环，不需要任何证书。".to_owned()
    } else {
        ep.message.clone()
    };
    TakeoverStatus {
        enabled: on,
        port: s.takeover_port,
        proxy_active: px.active,
        proxy_error: px.error,
        trae_running,
        supported: ep.supported,
        app_dir: ep.app_dir,
        installed: ep.installed,
        ours: ep.ours,
        writable: ep.writable,
        endpoint_base: endpoint::base_url(s.takeover_port),
        rules,
        patch,
        upstream_http: ep.upstream_http,
        upstream_ws: ep.upstream_ws,
        lease_fresh: ep.lease_fresh,
        message,
    }
}

// ---------------------------------------------------------------------------
// The port
// ---------------------------------------------------------------------------

/// The proxy listens on the port.
pub open spec fn listens(st: ProxyStatus, port: u16) -> bool {
    st.active && st.port == port
}

/// Tells whether the proxy listens on the port.
pub fn proxy_ready(st: &ProxyStatus, port: u16) -> (r: bool)
    ensures
        r == listens(*st, port),
{
    st.active && st.port == port
}

/// How often the proxy is looked at while it is waited for.
pub const PROXY_TRIES: u32 = 30;

/// What one look at the proxy tells while it is waited for.
#[derive(Clone, Copy, PartialEq, Eq, Structural)]
pub enum Waiting {
    /// It listens.
    Ready,
    /// It does not listen yet; it is looked at again a tenth of a second later.
    Wait,
    /// It was looked at often enough.
    Late,
}

/// Decides whether to go on waiting for the proxy, after it was looked at `tries` times.
pub fn proxy_wait(st: &ProxyStatus, port: u16, tries: u32) -> (r: Waiting)
    ensures
        r == (if tries >= PROXY_TRIES {
            Waiting::Late
        } else if listens(*st, port) {
            Waiting::Ready
        } else {
            Waiting::Wait
        }),
{
    if tries >= PROXY_TRIES {
        Waiting::Late
    } else if proxy_ready(st, port) {
        Waiting::Ready
    } else {
        Waiting::Wait
    }
}

/// Decides whether the port can be used: the proxy listens on it already, or nobody does. The hint
/// says who does.
pub fn ensure_port_free(st: &ProxyStatus, port: u16, can_bind: bool, hint: &str) -> (r: Result<
    (),
    String,
>)
    ensures
        match r {
            Ok(_) => listens(*st, port) || can_bind,
            Err(e) => !listens(*st, port) && !can_bind && e@ == "端口 "@ + number::decimal(
                port as nat,
            ) + " "@ + hint@ + "。改好端口再开接管即可。"@,
        },
{
    if proxy_ready(st, port) || can_bind {
        return Ok(());
    }
    let n = number::to_decimal(port as u64);
    let a = text::plus(text::plus("端口 ".to_owned(), n.as_str()), " ");
    Err(text::plus(text::plus(a, hint), "。改好端口再开接管即可。"))
}

/// The reason why the proxy does not listen, in brackets.
pub open spec fn bracketed(error: Seq<char>) -> Seq<char> {
    if error.len() == 0 {
        ""@
    } else {
        "（"@ + error + "）"@
    }
}

/// The words where the proxy does not listen.
pub open spec fn not_listening(port: u16, error: Seq<char>) -> Seq<char> {
    "本地代理未能在 127.0.0.1:"@ + number::decimal(port as nat) + " 监听"@ + bracketed(error)
}

fn say_not_listening(port: u16, error: &str) -> (r: String)
    ensures
        r@ == not_listening(port, error@),
{
    let n = number::to_decimal(port as u64);
    let a = text::plus(text::plus("本地代理未能在 127.0.0.1:".to_owned(), n.as_str()), " 监听");
    let tail = if error.is_empty() {
        "".to_owned()
    } else {
        text::plus(text::plus("（".to_owned(), error), "）")
    };
    text::plus(a, tail.as_str())
}

// ---------------------------------------------------------------------------
// Switching the takeover on
// ---------------------------------------------------------------------------

/// What is done next to switch the takeover on.
pub enum EnableStage {
    /// The rules are written, unless they are there.
    Rules,
    /// The URL gate of TraeWork is opened.
    Patch,
    /// The endpoint is looked over.
    Preflight,
    /// The port is looked over.
    Port,
    /// The switch is stored as on.
    SwitchOn,
    /// The proxy is waited for.
    Proxy,
    /// The endpoint is made to point to the proxy, and TraeWork is restarted.
    Install,
    /// The switch is stored as off again, since the proxy does not listen; the reason.
    UndoProxy(String),
    /// The switch is stored as off again, since the endpoint could not be changed; the reason.
    UndoInstall(String),
    /// The takeover is on.
    Done,
    /// The takeover could not be switched on; the reason.
    Failed(String),
}

/// Switching the takeover on.
pub struct Enable {
    pub stage: EnableStage,
    pub port: u16,
    /// Whether the switch was on at the beginning.
    pub was_on: bool,
    /// Whether the switch is stored as on.
    pub on: bool,
    /// Whether the switch could not be stored as off again.
    pub stuck: bool,
    /// Whether the URL gate is known to be open.
    pub open: bool,
    /// Whether the endpoint is known to be sound.
    pub sound: bool,
    /// Whether the proxy was seen to listen.
    pub listening: bool,
}

/// Begins to switch the takeover on.
pub fn enable_endpoint(s: &Settings) -> (r: Enable)
    ensures
        r.wf(),
        r.stage is Rules,
        r.port == s.takeover_port,
        r.on == s.takeover_enabled,
        r.was_on == s.takeover_enabled,
        !r.stuck,
{
    Enable {
        stage: EnableStage::Rules,
        port: s.takeover_port,
        was_on: s.takeover_enabled,
        on: s.takeover_enabled,
        stuck: false,
        open: false,
        sound: false,
        listening: false,
    }
}

impl Enable {
    /// Nothing is done before what it rests on: the switch goes on after the URL gate is open and the
    /// endpoint is sound, and the endpoint is changed after the proxy listens. Where it fails, the
    /// switch is on only if it was, or could not be stored as off.
    pub open spec fn wf(self) -> bool {
        match self.stage {
            EnableStage::Rules | EnableStage::Patch => !self.open && !self.sound && !self.listening
                && self.on == self.was_on,
            EnableStage::Preflight => self.open && !self.sound && !self.listening && self.on
                == self.was_on,
            EnableStage::Port => self.open && self.sound && !self.listening && self.on
                == self.was_on,
            EnableStage::SwitchOn => self.open && self.sound && !self.listening && !self.on
                && !self.was_on,
            EnableStage::Proxy | EnableStage::UndoProxy(_) => self.open && self.sound
                && !self.listening && self.on,
            EnableStage::Install | EnableStage::UndoInstall(_) | EnableStage::Done => self.open
                && self.sound && self.on && self.listening,
            EnableStage::Failed(_) => self.on ==> self.was_on || self.stuck,
        }
    }

    /// Both are about the same port, and began with the same switch.
    pub open spec fn same_start(self, other: Enable) -> bool {
        self.port == other.port && self.was_on == other.was_on
    }

    /// Only the stage and what is known have changed.
    pub open spec fn same_switch(self, other: Enable) -> bool {
        self.same_start(other) && self.on == other.on && self.stuck == other.stuck
    }

    /// The rules were written, or not: that is noted and stops nothing.
    pub fn rules_written(&mut self, result: Result<(), String>) -> (r: Option<Note>)
        requires
            old(self).wf(),
            old(self).stage is Rules,
        ensures
            final(self).wf(),
            final(self).stage is Patch,
            final(self).same_switch(*old(self)),
            match (result, r) {
                (Ok(_), None) => true,
                (Err(e), Some(n)) => n@ == (NoteV {
                    event: "rules_write"@,
                    detail: "规则文件落地失败："@ + e@,
                    dedup: false,
                }),
                _ => false,
            },
    {
        self.stage = EnableStage::Patch;
        match result {
            Ok(_) => None,
            Err(e) => {
                let detail = text::plus("规则文件落地失败：".to_owned(), e.as_str());
                Some(proxy::note("rules_write", detail, false))
            },
        }
    }

    /// The URL gate was opened, or not: then nothing else is touched.
    pub fn patched(&mut self, result: Result<PatchStatus, String>) -> (r: Option<Note>)
        requires
            old(self).wf(),
            old(self).stage is Patch,
        ensures
            final(self).wf(),
            final(self).same_switch(*old(self)),
            match result {
                Ok(p) => r is None && if p.patched {
                    final(self).stage is Preflight
                } else {
                    final(self).stage matches EnableStage::Failed(e) && e@ == p.message@
                },
                Err(why) => {
                    &&& final(self).stage matches EnableStage::Failed(e) && e@ == why@
                    &&& r matches Some(n) && n@ == (NoteV {
                        event: "patch_apply"@,
                        detail: "打免证书补丁失败："@ + why@,
                        dedup: false,
                    })
                },
            },
    {
        match result {
            Ok(p) => {
                if p.patched {
                    self.open = true;
                    self.stage = EnableStage::Preflight;
                } else {
                    self.stage = EnableStage::Failed(p.message);
                }
                None
            },
            Err(why) => {
                let detail = text::plus("打免证书补丁失败：".to_owned(), why.as_str());
                self.stage = EnableStage::Failed(why);
                Some(proxy::note("patch_apply", detail, false))
            },
        }
    }

    /// The endpoint was looked over.
    pub fn preflighted(&mut self, result: Result<(), String>)
        requires
            old(self).wf(),
            old(self).stage is Preflight,
        ensures
            final(self).wf(),
            final(self).same_switch(*old(self)),
            match result {
                Ok(_) => final(self).stage is Port,
                Err(why) => final(self).stage == EnableStage::Failed(why),
            },
    {
        match result {
            Ok(_) => {
                self.sound = true;
                self.stage = EnableStage::Port;
            },
            Err(why) => {
                self.stage = EnableStage::Failed(why);
            },
        }
    }

    /// The port was looked over.
    pub fn port_checked(&mut self, result: Result<(), String>)
        requires
            old(self).wf(),
            old(self).stage is Port,
        ensures
            final(self).wf(),
            final(self).same_switch(*old(self)),
            match result {
                Ok(_) => if old(self).on {
                    final(self).stage is Proxy
                } else {
                    final(self).stage is SwitchOn
                },
                Err(why) => final(self).stage == EnableStage::Failed(why),
            },
    {
        match result {
            Ok(_) => {
                if self.on {
                    self.stage = EnableStage::Proxy;
                } else {
                    self.stage = EnableStage::SwitchOn;
                }
            },
            Err(why) => {
                self.stage = EnableStage::Failed(why);
            },
        }
    }

    /// The switch was stored as on, or could not be stored.
    pub fn switched_on(&mut self, result: Result<(), String>)
        requires
            old(self).wf(),
            old(self).stage is SwitchOn,
        ensures
            final(self).wf(),
            final(self).same_start(*old(self)),
            match result {
                Ok(_) => final(self).stage is Proxy && final(self).on && final(self).stuck == old(
                    self).stuck,
                Err(why) => final(self).stage == EnableStage::Failed(why) && final(
                    self).same_switch(*old(self)),
            },
    {
        match result {
            Ok(_) => {
                self.on = true;
                self.stage = EnableStage::Proxy;
            },
            Err(why) => {
                self.stage = EnableStage::Failed(why);
            },
        }
    }

    /// The proxy was waited for. Where it does not listen, the switch goes back.
    pub fn proxy_awaited(&mut self, ready: bool, error: &str)
        requires
            old(self).wf(),
            old(self).stage is Proxy,
        ensures
            final(self).wf(),
            final(self).same_switch(*old(self)),
            if ready {
                final(self).stage is Install
            } else {
                final(self).stage matches EnableStage::UndoProxy(e) && e@ == not_listening(
                    old(self).port,
                    error@,
                )
            },
    {
        if ready {
            self.listening = true;
            self.stage = EnableStage::Install;
        } else {
            self.stage = EnableStage::UndoProxy(say_not_listening(self.port, error));
        }
    }

    /// The switch was stored as off again, or could not be stored.
    pub fn proxy_undone(&mut self, result: Result<(), String>) -> (r: Option<Note>)
        requires
            old(self).wf(),
            old(self).stage is UndoProxy,
        ensures
            final(self).same_start(*old(self)),
            final(self).wf(),
            match result {
                Ok(_) => {
                    let words = old(self).stage->UndoProxy_0@;
                    &&& !final(self).on
                    &&& final(self).stuck == old(self).stuck
                    &&& final(self).stage matches EnableStage::Failed(e) && e@ == words
                        + "，已回滚，未改动 TraeWork。"@
                    &&& r matches Some(n) && n@ == (NoteV {
                        event: "proxy_error"@,
                        detail: words + "，已回滚，TraeWork 未被改动"@,
                        dedup: false,
                    })
                },
                Err(why) => r is None && final(self).stage == EnableStage::Failed(why) && final(
                    self).on && final(self).stuck,
            },
    {
        match result {
            Ok(_) => {
                let words = match &self.stage {
                    EnableStage::UndoProxy(w) => w.clone(),
                    _ => "".to_owned(),
                };
                self.on = false;
                let detail = text::plus(words.clone(), "，已回滚，TraeWork 未被改动");
                self.stage = EnableStage::Failed(text::plus(words, "，已回滚，未改动 TraeWork。"));
                Some(proxy::note("proxy_error", detail, false))
            },
            Err(why) => {
                self.stuck = true;
                self.stage = EnableStage::Failed(why);
                None
            },
        }
    }

    /// The endpoint was changed, and TraeWork restarted if it ran; or the change has failed, and
    /// the switch goes back.
    pub fn installed(&mut self, result: Result<bool, String>) -> (r: Option<Note>)
        requires
            old(self).wf(),
            old(self).stage is Install,
        ensures
            final(self).wf(),
            final(self).same_switch(*old(self)),
            match result {
                Ok(restarted) => {
                    &&& final(self).stage is Done
                    &&& match r {
                        Some(n) => restarted && n@ == (NoteV {
                            event: "restart_trae"@,
                            detail: "为让端点改写生效，已退出并重启 TraeWork（未保存的输入请自行确认）"@,
                            dedup: false,
                        }),
                        None => !restarted,
                    }
                },
                Err(why) => r is None && final(self).stage == EnableStage::UndoInstall(why),
            },
    {
        match result {
            Ok(restarted) => {
                self.stage = EnableStage::Done;
                if restarted {
                    Some(
                        proxy::note(
                            "restart_trae",
                            "为让端点改写生效，已退出并重启 TraeWork（未保存的输入请自行确认）".to_owned(),
                            false,
                        ),
                    )
                } else {
                    None
                }
            },
            Err(why) => {
                self.stage = EnableStage::UndoInstall(why);
                None
            },
        }
    }

    /// The switch was stored as off again, or could not be stored: the reason is that of the
    /// change in either case.
    pub fn install_undone(&mut self, stored: bool)
        requires
            old(self).wf(),
            old(self).stage is UndoInstall,
        ensures
            final(self).same_start(*old(self)),
            final(self).wf(),
            final(self).on == !stored,
            final(self).stuck == (old(self).stuck || !stored),
            final(self).stage == EnableStage::Failed(old(self).stage->UndoInstall_0),
    {
        let why = match &self.stage {
            EnableStage::UndoInstall(w) => w.clone(),
            _ => "".to_owned(),
        };
        self.on = !stored;
        self.stuck = self.stuck || !stored;
        self.stage = EnableStage::Failed(why);
    }
}

// ---------------------------------------------------------------------------
// Switching the takeover off
// ---------------------------------------------------------------------------

/// What is done next to switch the takeover off.
pub enum DisableStage {
    /// A proxy setting that an old version has left in TraeWork is removed, if it is there.
    Legacy,
    /// TraeWork quits, if it runs.
    Quit,
    /// The endpoint is restored.
    Endpoint,
    /// The URL gate is closed.
    Patch,
    /// TraeWork is started again, if it ran, and the switch is stored as off.
    SwitchOff,
    /// The takeover is off.
    Done,
    /// The takeover could not be switched off; the reason.
    Failed(String),
}

/// Switching the takeover off.
pub struct Disable {
    pub stage: DisableStage,
    /// Whether TraeWork has to be started again.
    pub restart: bool,
    /// Whether the endpoint is restored.
    pub restored: bool,
}

/// Begins to switch the takeover off.
pub fn takeover_disable() -> (r: Disable)
    ensures
        r.wf(),
        r.stage is Legacy,
        !r.restart,
        !r.restored,
{
    Disable { stage: DisableStage::Legacy, restart: false, restored: false }
}

impl Disable {
    /// The URL gate is closed, and the switch goes off, only after the endpoint is restored.
    pub open spec fn wf(self) -> bool {
        match self.stage {
            DisableStage::Patch | DisableStage::SwitchOff | DisableStage::Done => self.restored,
            _ => true,
        }
    }

    /// The setting of an old version was removed, or could not be; or there was none.
    pub fn legacy_cleared(&mut self, result: Option<Result<String, String>>) -> (r: Option<Note>)
        requires
            old(self).wf(),
            old(self).stage is Legacy,
        ensures
            final(self).wf(),
            final(self).stage is Quit,
            final(self).restart == old(self).restart,
            final(self).restored == old(self).restored,
            match (result, r) {
                (None, None) => true,
                (Some(Ok(m)), Some(n)) => n@ == (NoteV {
                    event: "legacy_proxy_clear"@,
                    detail: m@,
                    dedup: false,
                }),
                (Some(Err(e)), Some(n)) => n@ == (NoteV {
                    event: "legacy_proxy_clear"@,
                    detail: "清理 TraeWork 遗留代理设置失败："@ + e@,
                    dedup: false,
                }),
                _ => false,
            },
    {
        self.stage = DisableStage::Quit;
        match result {
            None => None,
            Some(Ok(m)) => Some(proxy::note("legacy_proxy_clear", m, false)),
            Some(Err(e)) => {
                let detail = text::plus("清理 TraeWork 遗留代理设置失败：".to_owned(), e.as_str());
                Some(proxy::note("legacy_proxy_clear", detail, false))
            },
        }
    }

    /// TraeWork has quit, or does not run, or does not quit: then nothing is changed.
    pub fn quit(&mut self, was_running: bool, has_quit: bool)
        requires
            old(self).wf(),
            old(self).stage is Quit,
        ensures
            final(self).wf(),
            final(self).restored == old(self).restored,
            if was_running && !has_quit {
                final(self).stage matches DisableStage::Failed(e) && e@
                    == endpoint::will_not_quit_words() && final(self).restart == old(self).restart
            } else {
                final(self).stage is Endpoint && final(self).restart == was_running
            },
    {
        match endpoint::with_trae_restart(was_running, has_quit) {
            Ok(again) => {
                self.restart = again;
                self.stage = DisableStage::Endpoint;
            },
            Err(e) => {
                self.stage = DisableStage::Failed(e);
            },
        }
    }

    /// The endpoint was restored, or could not be: then nothing else is changed.
    pub fn uninstalled(&mut self, result: Result<bool, String>)
        requires
            old(self).wf(),
            old(self).stage is Endpoint,
        ensures
            final(self).wf(),
            final(self).restart == old(self).restart,
            match result {
                Ok(_) => final(self).stage is Patch && final(self).restored,
                Err(why) => final(self).stage == DisableStage::Failed(why) && final(self).restored
                    == old(self).restored,
            },
    {
        match result {
            Ok(_) => {
                self.restored = true;
                self.stage = DisableStage::Patch;
            },
            Err(why) => {
                self.stage = DisableStage::Failed(why);
            },
        }
    }

    /// The URL gate was closed, or could not be: that is noted and stops nothing.
    pub fn reverted(&mut self, result: Result<bool, String>) -> (r: Option<Note>)
        requires
            old(self).wf(),
            old(self).stage is Patch,
        ensures
            final(self).wf(),
            final(self).stage is SwitchOff,
            final(self).restart == old(self).restart,
            final(self).restored,
            match (result, r) {
                (Ok(_), None) => true,
                (Err(e), Some(n)) => n@ == (NoteV {
                    event: "patch_revert"@,
                    detail: "还原免证书补丁失败（端点已恢复官方直连、不影响使用，下次开启接管会重打）："@ + e@,
                    dedup: false,
                }),
                _ => false,
            },
    {
        self.stage = DisableStage::SwitchOff;
        match result {
            Ok(_) => None,
            Err(e) => {
                let detail = text::plus(
                    "还原免证书补丁失败（端点已恢复官方直连、不影响使用，下次开启接管会重打）：".to_owned(),
                    e.as_str(),
                );
                Some(proxy::note("patch_revert", detail, false))
            },
        }
    }

    /// The switch was stored as off, or could not be stored.
    pub fn switched_off(&mut self, result: Result<(), String>) -> (r: Option<Note>)
        requires
            old(self).wf(),
            old(self).stage is SwitchOff,
        ensures
            final(self).wf(),
            final(self).restart == old(self).restart,
            final(self).restored,
            match result {
                Ok(_) => {
                    &&& final(self).stage is Done
                    &&& match r {
                        Some(n) => old(self).restart && n@ == (NoteV {
                            event: "restart_trae"@,
                            detail: "为恢复官方直连已重启 TraeWork（端点改写与免证书补丁一并还原）"@,
                            dedup: false,
                        }),
                        None => !old(self).restart,
                    }
                },
                Err(why) => r is None && final(self).stage == DisableStage::Failed(why),
            },
    {
        match result {
            Ok(_) => {
                self.stage = DisableStage::Done;
                if self.restart {
                    Some(
                        proxy::note(
                            "restart_trae",
                            "为恢复官方直连已重启 TraeWork（端点改写与免证书补丁一并还原）".to_owned(),
                            false,
                        ),
                    )
                } else {
                    None
                }
            },
            Err(why) => {
                self.stage = DisableStage::Failed(why);
                None
            },
        }
    }
}

// ---------------------------------------------------------------------------
// Rules and start-up
// ---------------------------------------------------------------------------

/// A truth value, as it is shown.
pub open spec fn bool_text(b: bool) -> Seq<char> {
    if b {
        "true"@
    } else {
        "false"@
    }
}

fn show_bool(b: bool) -> (r: &'static str)
    ensures
        r@ == bool_text(b),
{
    if b {
        "true"
    } else {
        "false"
    }
}

/// The note that the rules were saved.
pub fn rules_note(rules: &Rules) -> (r: Note)
    ensures
        r@ == (NoteV {
            event: "rules_save"@,
            detail: "接管规则已更新：观察模式="@ + bool_text(rules.observe_only) + " · 换号前缀 "@
                + number::decimal(rules.swap_http_prefixes@.len()) + " 条 · 换 WS 凭据="@
                + bool_text(rules.swap_ws) + " · 强制透传 "@ + number::decimal(
                rules.never_swap_prefixes@.len(),
            ) + " 条"@,
            dedup: false,
        }),
{
    let n = number::to_decimal(rules.swap_http_prefixes.len() as u64);
    let m = number::to_decimal(rules.never_swap_prefixes.len() as u64);
    let a = text::plus("接管规则已更新：观察模式=".to_owned(), show_bool(rules.observe_only));
    let b = text::plus(text::plus(a, " · 换号前缀 "), n.as_str());
    let c = text::plus(text::plus(b, " 条 · 换 WS 凭据="), show_bool(rules.swap_ws));
    let d = text::plus(text::plus(c, " · 强制透传 "), m.as_str());
    proxy::note("rules_save", text::plus(d, " 条"), false)
}

/// The hosts that updates are fetched from past any proxy.
pub const GITHUB_NO_PROXY: &'static str =
    "github.com,.github.com,githubusercontent.com,.githubusercontent.com";

/// The hosts that no proxy is used for, with those of the updates.
pub fn no_proxy(current: Option<&str>) -> (r: String)
    ensures
        match current {
            Some(v) => if v@.len() > 0 {
                r@ == v@ + ", "@ + GITHUB_NO_PROXY@
            } else {
                r@ == GITHUB_NO_PROXY@
            },
            None => r@ == GITHUB_NO_PROXY@,
        },
{
    match current {
        Some(v) => if v.is_empty() {
            GITHUB_NO_PROXY.to_owned()
        } else {
            text::plus(text::plus(v.to_owned(), ", "), GITHUB_NO_PROXY)
        },
        None => GITHUB_NO_PROXY.to_owned(),
    }
}

/// Decides at start-up whether the endpoint override stays: the takeover is on and the proxy
/// listens.
pub fn keeps_override(s: &Settings, px: &ProxyStatus) -> (r: bool)
    ensures
        r == (s.takeover_enabled && px.active),
{
    s.takeover_enabled && px.active
}

// ---------------------------------------------------------------------------
// Laws
// ---------------------------------------------------------------------------

/// No two accounts of a list belong to the same person.
pub open spec fn all_distinct(list: Seq<Account>) -> bool {
    forall|i: int, j: int|
        0 <= i < j < list.len() ==> !accounts::equivalent(#[trigger] list[i], #[trigger] list[j])
}

/// Importing keeps every account in its place, and adds nobody twice.
pub proof fn law_import_adds_nobody_twice(list: Seq<Account>, more: Seq<Account>)
    ensures
        list.is_prefix_of(with_imported(list, more)),
        all_distinct(list) ==> all_distinct(with_imported(list, more)),
        forall|k: int|
            0 <= k < more.len() ==> accounts::has_equivalent(
                with_imported(list, more),
                #[trigger] more[k],
            ),
    decreases more.len(),
{
    if more.len() > 0 {
        let short = more.drop_last();
        let before = with_imported(list, short);
        let after = with_imported(list, more);
        law_import_adds_nobody_twice(list, short);
        assert(before.is_prefix_of(after));
        assert forall|k: int| 0 <= k < more.len() implies accounts::has_equivalent(
            after,
            #[trigger] more[k],
        ) by {
            if k < more.len() - 1 {
                assert(short[k] == more[k]);
                let i = choose|i: int|
                    0 <= i < before.len() && accounts::equivalent(#[trigger] before[i], more[k]);
                assert(after[i] == before[i]);
            } else if !accounts::has_equivalent(before, more.last()) {
                assert(after[before.len() as int] == more[k]);
                assert(accounts::equivalent(after[before.len() as int], more[k]));
            }
        }
        if all_distinct(list) {
            assert forall|i: int, j: int| 0 <= i < j < after.len() implies !accounts::equivalent(
                #[trigger] after[i],
                #[trigger] after[j],
            ) by {
                assert(after[i] == before[i]);
                if j < before.len() {
                    assert(after[j] == before[j]);
                }
            }
        }
    }
}

/// Every account that an import adds has an id.
pub proof fn law_imported_have_ids(list: Seq<Account>, more: Seq<Account>, ready: Seq<Account>, i: int)
    requires
        all_normalized(more, ready),
        list.len() <= i < with_imported(list, ready).len(),
    ensures
        with_imported(list, ready)[i].id@.len() > 0,
    decreases ready.len(),
{
    if ready.len() > 0 {
        let before = with_imported(list, ready.drop_last());
        if i < before.len() {
            let a = more.drop_last();
            let b = ready.drop_last();
            assert forall|k: int| 0 <= k < a.len() implies accounts::normalized(
                #[trigger] a[k],
                b[k],
            ) by {
                assert(accounts::normalized(more[k], ready[k]));
            }
            law_imported_have_ids(list, a, b, i);
        } else {
            assert(accounts::normalized(more[ready.len() - 1], ready[ready.len() - 1]));
        }
    }
}

/// An account that was removed is gone, and every other one stays.
pub proof fn law_removed_is_gone(list: Seq<Account>, id: Seq<char>, a: Account)
    requires
        list.contains(a),
    ensures
        list.filter(has_other_id(id)).contains(a) <==> a.id@ != id,
{
    broadcast use vstd::seq_lib::group_filter_ensures;

    let kept = list.filter(has_other_id(id));
    if kept.contains(a) {
        let i = choose|i: int| 0 <= i < kept.len() && kept[i] == a;
        assert(has_other_id(id)(kept[i]));
    }
    let k = choose|k: int| 0 <= k < list.len() && list[k] == a;
    if a.id@ != id {
        assert(has_other_id(id)(list[k]));
    }
}

/// While the takeover is switched on, the endpoint is changed only past an open gate and with the
/// proxy listening; and where it fails, the switch is not left on.
pub proof fn law_no_half_open(e: Enable)
    requires
        e.wf(),
    ensures
        e.stage is Install || e.stage is Done ==> e.open && e.sound && e.listening && e.on,
        e.stage is Failed && !e.was_on && !e.stuck ==> !e.on,
{
}

/// While the takeover is switched off, the URL gate is closed only after the endpoint is restored.
pub proof fn law_endpoint_goes_first(d: Disable)
    requires
        d.wf(),
    ensures
        d.stage is Patch || d.stage is SwitchOff || d.stage is Done ==> d.restored,
{
}

} // verus!
