//! Accounts and settings.
use crate::clock;
use crate::json::Json;
use crate::json;
use crate::text;
use vstd::prelude::*;
use vstd::string::*;

verus! {

/// An account in the pool.
pub struct Account {
    pub id: String,
    pub name: String,
    pub phone: Option<String>,
    pub region: Option<String>,
    pub user_id: Option<String>,
    pub token: String,
    pub refresh_token: Option<String>,
    pub host: Option<String>,
    pub expires_at: Option<i64>,
    pub refresh_expires_at: Option<i64>,
    /// The device that the account was used on; sent as `X-Device-Id`.
    pub device_id: Option<String>,
    /// The machine that the account was used on; sent as `X-Machine-Id`.
    pub machine_id: Option<String>,
    pub created_at: String,
    /// Whether the gateway may use the account.
    pub enabled: bool,
    /// The credits that were last seen.
    pub credit_snapshot: Option<CreditSnapshot>,
}

/// The credits of an account at some time.
pub struct CreditSnapshot {
    /// The credits that are left, if known.
    pub credits: Option<i64>,
    /// Whether the credits have no limit; then there is no number.
    pub unlimited: bool,
    /// The earliest expiry of a package with credits left, in milliseconds since 1970, if known.
    pub earliest_expiry_ms: Option<i64>,
    /// The local time of the snapshot.
    pub fetched_at: String,
}

/// An account that the desktop application is logged in with.
pub struct TraeLocalAccount {
    pub nickname: Option<String>,
    pub phone: Option<String>,
    pub region: Option<String>,
    pub user_id: Option<String>,
    pub token: String,
    pub refresh_token: Option<String>,
    pub host: Option<String>,
    pub expires_at: Option<i64>,
    pub refresh_expires_at: Option<i64>,
    pub device_id: Option<String>,
    pub machine_id: Option<String>,
}

/// What the user has set.
pub struct Settings {
    pub checkin_enabled: bool,
    /// The time of the daily check-in, such as `10:00`.
    pub checkin_time: String,
    /// Whether the local proxy runs and the endpoint override is installed.
    pub takeover_enabled: bool,
    /// The port of the local proxy.
    pub takeover_port: u16,
    /// The accounts that may be charged; none means all.
    pub billing_account_ids: Vec<String>,
    /// Where alarms are sent to; empty means nowhere.
    pub webhook_url: String,
}

impl Clone for CreditSnapshot {
    fn clone(&self) -> (r: Self)
        ensures
            r == *self,
    {
        CreditSnapshot {
            credits: self.credits,
            unlimited: self.unlimited,
            earliest_expiry_ms: self.earliest_expiry_ms,
            fetched_at: self.fetched_at.clone(),
        }
    }
}

impl Clone for Account {
    fn clone(&self) -> (r: Self)
        ensures
            r == *self,
    {
        Account {
            id: self.id.clone(),
            name: self.name.clone(),
            phone: text::clone_opt(&self.phone),
            region: text::clone_opt(&self.region),
            user_id: text::clone_opt(&self.user_id),
            token: self.token.clone(),
            refresh_token: text::clone_opt(&self.refresh_token),
            host: text::clone_opt(&self.host),
            expires_at: self.expires_at,
            refresh_expires_at: self.refresh_expires_at,
            device_id: text::clone_opt(&self.device_id),
            machine_id: text::clone_opt(&self.machine_id),
            created_at: self.created_at.clone(),
            enabled: self.enabled,
            credit_snapshot: match &self.credit_snapshot {
                Some(s) => Some(s.clone()),
                None => None,
            },
        }
    }
}

impl CreditSnapshot {
    /// A snapshot that was taken just now. Its time is a time that the clock has told.
    pub fn now(credits: Option<i64>, unlimited: bool, earliest_expiry_ms: Option<i64>) -> (r:
        CreditSnapshot)
        ensures
            r.credits == credits,
            r.unlimited == unlimited,
            r.earliest_expiry_ms == earliest_expiry_ms,
            clock::is_timestamp(r.fetched_at@),
    {
        CreditSnapshot {
            credits,
            unlimited,
            earliest_expiry_ms,
            fetched_at: clock::local_now(clock::TIMESTAMP_FORMAT),
        }
    }
}

/// Two accounts belong to the same person: their phone numbers are equal, or, where one has none,
/// their tokens are.
pub open spec fn equivalent(x: Account, y: Account) -> bool {
    match (x.phone, y.phone) {
        (Some(p), Some(q)) => p@ == q@,
        _ => x.token@ == y.token@,
    }
}

/// Some account of the list belongs to the same person as the candidate.
pub open spec fn has_equivalent(list: Seq<Account>, cand: Account) -> bool {
    exists|i: int| 0 <= i < list.len() && equivalent(#[trigger] list[i], cand)
}

/// Whether two accounts belong to the same person.
pub fn same_person(x: &Account, y: &Account) -> (r: bool)
    ensures
        r == equivalent(*x, *y),
{
    match (&x.phone, &y.phone) {
        (Some(p), Some(q)) => text::same_text(p.as_str(), q.as_str()),
        _ => text::same_text(x.token.as_str(), y.token.as_str()),
    }
}

/// Whether some account of the list belongs to the same person as the candidate.
pub fn contains_equivalent(list: &[Account], cand: &Account) -> (r: bool)
    ensures
        r == has_equivalent(list@, *cand),
{
    let mut i: usize = 0;
    while i < list.len()
        invariant
            i <= list@.len(),
            forall|k: int| 0 <= k < i ==> !equivalent(#[trigger] list@[k], *cand),
        decreases list@.len() - i,
    {
        if same_person(&list[i], cand) {
            return true;
        }
        i = i + 1;
    }
    false
}

/// The account of a local login, under the given id and creation time.
pub open spec fn imported(a: TraeLocalAccount, id: String, created_at: String, r: Account) -> bool {
    &&& r.id == id
    &&& r.name@ == match (a.nickname, a.phone) {
        (Some(n), _) => n@,
        (None, Some(p)) => p@,
        (None, None) => "未命名账号"@,
    }
    &&& r.phone == a.phone
    &&& r.region == a.region
    &&& r.user_id == a.user_id
    &&& r.token == a.token
    &&& r.refresh_token == a.refresh_token
    &&& r.host == a.host
    &&& r.expires_at == a.expires_at
    &&& r.refresh_expires_at == a.refresh_expires_at
    &&& r.device_id == a.device_id
    &&& r.machine_id == a.machine_id
    &&& r.created_at == created_at
    &&& r.enabled
    &&& r.credit_snapshot is None
}

/// Makes an account of a local login.
pub fn import_account(a: TraeLocalAccount, id: String, created_at: String) -> (r: Account)
    ensures
        imported(a, id, created_at, r),
{
    let name = match (&a.nickname, &a.phone) {
        (Some(n), _) => n.clone(),
        (None, Some(p)) => p.clone(),
        (None, None) => "未命名账号".to_owned(),
    };
    Account {
        id,
        name,
        phone: a.phone,
        region: a.region,
        user_id: a.user_id,
        token: a.token,
        refresh_token: a.refresh_token,
        host: a.host,
        expires_at: a.expires_at,
        refresh_expires_at: a.refresh_expires_at,
        device_id: a.device_id,
        machine_id: a.machine_id,
        created_at,
        enabled: true,
        credit_snapshot: None,
    }
}

/// `uuid::Uuid::new_v4` as text: a random id. Its text has 36 characters, five groups of digits
/// with hyphens between them; which ones is chance.
#[verifier::external_body]
fn new_id() -> (r: String)
    ensures
        r@.len() == 36,
{
    uuid::Uuid::new_v4().to_string()
}

/// The id and the creation time are such as are drawn for an account: a random id in its usual
/// length, and a time that the clock has told.
pub open spec fn drawn(id: Seq<char>, created_at: Seq<char>) -> bool {
    id.len() == 36 && clock::is_timestamp(created_at)
}

/// Makes an account of a local login, under a fresh id and with the present time.
pub fn new_account(a: TraeLocalAccount) -> (r: Account)
    ensures
        imported(a, r.id, r.created_at, r),
        drawn(r.id@, r.created_at@),
{
    import_account(a, new_id(), clock::local_now(clock::TIMESTAMP_FORMAT))
}

/// An account with an id and a creation time: its own, or the given ones where it has none.
pub open spec fn filled_in(a: Account, id: String, created_at: String) -> Account {
    Account {
        id: if a.id@.len() > 0 {
            a.id
        } else {
            id
        },
        created_at: if a.created_at@.len() > 0 {
            a.created_at
        } else {
            created_at
        },
        ..a
    }
}

/// Gives an account the id and the creation time that it has not.
pub fn fill_in(a: Account, id: String, created_at: String) -> (r: Account)
    ensures
        r == filled_in(a, id, created_at),
{
    let mut r = a;
    if r.id.as_str().is_empty() {
        r.id = id;
    }
    if r.created_at.as_str().is_empty() {
        r.created_at = created_at;
    }
    r
}

/// `b` is `a` with an id and a creation time; those that `a` has not were drawn.
pub open spec fn normalized(a: Account, b: Account) -> bool {
    exists|id: String, created_at: String|
        drawn(id@, created_at@) && created_at@.len() > 0 && b == #[trigger] filled_in(
            a,
            id,
            created_at,
        )
}

/// Gives an account a fresh id and the present time, where it has none.
pub fn normalize(a: Account) -> (r: Account)
    ensures
        normalized(a, r),
{
    let id = new_id();
    let at = clock::local_now(clock::TIMESTAMP_FORMAT);
    let ghost drawn_id = id;
    let ghost drawn_at = at;
    let r = fill_in(a, id, at);
    assert(r == filled_in(a, drawn_id, drawn_at));
    r
}

impl Default for Settings {
    fn default() -> (r: Self)
        ensures
            r.checkin_enabled,
            r.checkin_time@ == "10:00"@,
            !r.takeover_enabled,
            r.takeover_port == 8788,
            r.billing_account_ids@.len() == 0,
            r.webhook_url@ == ""@,
    {
        Settings {
            checkin_enabled: true,
            checkin_time: "10:00".to_owned(),
            takeover_enabled: false,
            takeover_port: 8788,
            billing_account_ids: Vec::new(),
            webhook_url: "".to_owned(),
        }
    }
}

/// The file of the accounts, in the data directory.
pub fn accounts_path() -> (r: String)
    ensures
        r@ == "accounts.json"@,
{
    "accounts.json".to_owned()
}

/// The file of the settings, in the data directory.
pub fn settings_path() -> (r: String)
    ensures
        r@ == "settings.json"@,
{
    "settings.json".to_owned()
}

/// A switch of an early settings file is on.
pub open spec fn legacy_on(raw: json::JsonV, key: Seq<char>) -> bool {
    json::bool_of(json::member(raw, key)) == Some(true)
}

/// The port of an early settings file, brought into the range of ports.
pub open spec fn legacy_port(raw: json::JsonV) -> Option<int> {
    match json::unsigned_of(json::member(raw, "gateway_port"@)) {
        Some(n) => Some(
            if n < 1 {
                1
            } else if n > 65535 {
                65535
            } else {
                n
            },
        ),
        None => None,
    }
}

/// Takes over what an early settings file called otherwise: either of its two switches turns the
/// takeover on, and its port counts where the file names no other one.
pub fn migrate_settings(parsed: Settings, raw: &Json) -> (r: Settings)
    ensures
        r.checkin_enabled == parsed.checkin_enabled,
        r.checkin_time == parsed.checkin_time,
        r.billing_account_ids == parsed.billing_account_ids,
        r.webhook_url == parsed.webhook_url,
        r.takeover_enabled == (parsed.takeover_enabled || legacy_on(raw@, "intercept_enabled"@)
            || legacy_on(raw@, "gateway_enabled"@)),
        r.takeover_port == (if json::member(raw@, "takeover_port"@) is None {
            match legacy_port(raw@) {
                Some(p) => p,
                None => parsed.takeover_port as int,
            }
        } else {
            parsed.takeover_port as int
        }),
{
    let mut s = parsed;
    if switched_on(raw, "intercept_enabled") || switched_on(raw, "gateway_enabled") {
        s.takeover_enabled = true;
    }
    if raw.get("takeover_port").is_none() {
        if let Some(v) = raw.get("gateway_port") {
            if let Some(port) = v.as_unsigned() {
                let clamped: u64 = if port < 1 {
                    1
                } else if port > 65535 {
                    65535
                } else {
                    port
                };
                s.takeover_port = clamped as u16;
            }
        }
    }
    s
}

fn switched_on(raw: &Json, key: &str) -> (r: bool)
    ensures
        r == legacy_on(raw@, key@),
{
    match raw.get(key) {
        Some(v) => match v.as_bool() {
            Some(b) => b,
            None => false,
        },
        None => false,
    }
}

} // verus!
