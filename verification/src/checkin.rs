//! The daily check-in: what is asked, and what the answers mean.
use crate::accounts::Account;
use crate::clock;
use crate::http;
use crate::json;
use crate::json::{Json, JsonV};
use crate::number;
use crate::text;
use vstd::prelude::*;
use vstd::string::*;
use vstd::utf8::*;

verus! {

/// Where the state of the check-in is asked for.
pub const STATUS_PATH: &'static str = "/trae/api/v2/ug/checkin_credits/status";

/// Where the credits are claimed.
pub const CLAIM_PATH: &'static str = "/trae/api/v2/ug/checkin_credits/claim";

/// The host of an account that names none.
pub const DEFAULT_HOST: &'static str = "https://api.trae.cn";

/// How often the credits are claimed at most.
pub const MAX_CLAIM_ATTEMPTS: u32 = 3;

/// What a message says where the credits were claimed before.
pub const ALREADY: &'static str =
    "已签到|已领取|already\\s*(?:checked[- ]?in|claimed)|daily.*already";

/// What a message says where there is nothing to claim.
pub const INACTIVE: &'static str = "未开启|未开始|未开放|无.*活动|活动.*(?:结束|关闭|暂停)";

/// The outcome of a check-in.
#[derive(Debug)]
pub struct CheckinResult {
    pub success: bool,
    pub already: bool,
    pub inactive: bool,
    pub message: String,
    /// The credits that the check-in has brought.
    pub credit: Option<i64>,
    pub host: Option<String>,
    pub at: String,
    /// The server was busy: only then the check-in is worth another try.
    pub transient: bool,
}

/// What the outcome of a check-in is.
#[verifier::ext_equal]
pub struct CheckinResultV {
    pub success: bool,
    pub already: bool,
    pub inactive: bool,
    pub message: Seq<char>,
    pub credit: Option<i64>,
    pub host: Option<Seq<char>>,
    pub at: Seq<char>,
    pub transient: bool,
}

impl View for CheckinResult {
    type V = CheckinResultV;

    open spec fn view(&self) -> CheckinResultV {
        CheckinResultV {
            success: self.success,
            already: self.already,
            inactive: self.inactive,
            message: self.message@,
            credit: self.credit,
            host: text::opt_text(self.host),
            at: self.at@,
            transient: self.transient,
        }
    }
}

// ---------------------------------------------------------------------------
// What is sent
// ---------------------------------------------------------------------------

/// The host that an account names.
pub open spec fn account_host(a: Account) -> Seq<char> {
    match a.host {
        Some(h) => h@,
        None => DEFAULT_HOST@,
    }
}

/// The host that an account names.
pub fn host_of(a: &Account) -> (r: String)
    ensures
        r@ == account_host(*a),
{
    match &a.host {
        Some(h) => h.clone(),
        None => DEFAULT_HOST.to_owned(),
    }
}

/// An address with a scheme and without slashes at its end.
pub open spec fn normal_host(url: Seq<char>) -> Seq<char> {
    let u = text::trim_end_char(text::trim(url), '/');
    if text::starts_with(u, "http://"@) || text::starts_with(u, "https://"@) {
        u
    } else {
        "https://"@ + u
    }
}

/// Gives an address a scheme, and takes the slashes off its end.
pub fn normalize_host(url: &str) -> (r: String)
    ensures
        r@ == normal_host(url@),
{
    let chars = text::to_chars(url);
    let u = text::to_text(text::without_trailing_char(text::trimmed(chars.as_slice()), '/'));
    if text::text_starts_with(u.as_str(), "http://") || text::text_starts_with(
        u.as_str(),
        "https://",
    ) {
        u
    } else {
        text::plus("https://".to_owned(), u.as_str())
    }
}

/// The first of an own id, the user's id and the account's id that is there.
pub open spec fn device_of(own: Option<String>, a: Account) -> Seq<char> {
    match (own, a.user_id) {
        (Some(d), _) => d@,
        (None, Some(u)) => u@,
        (None, None) => a.id@,
    }
}

fn first_id(own: &Option<String>, a: &Account) -> (r: String)
    ensures
        r@ == device_of(*own, *a),
{
    match (own, &a.user_id) {
        (Some(d), _) => d.clone(),
        (None, Some(u)) => u.clone(),
        (None, None) => a.id.clone(),
    }
}

/// The device and the machine of an account: those that it was used on, or else something that is
/// the same each time.
pub fn device_ids(a: &Account) -> (r: (String, String))
    ensures
        r.0@ == device_of(a.device_id, *a),
        r.1@ == device_of(a.machine_id, *a),
{
    (first_id(&a.device_id, a), first_id(&a.machine_id, a))
}

/// The credential of an account.
pub open spec fn authorization(a: Account) -> Seq<char> {
    "Cloud-IDE-JWT "@ + a.token@
}

/// The header lines of a request, but for the credential.
pub open spec fn header_lines(a: Account) -> Seq<(Seq<char>, Seq<char>)> {
    let fixed = seq![
        ("Content-Type"@, "application/json"@),
        ("Accept"@, "application/json"@),
        ("X-Device-Id"@, device_of(a.device_id, a)),
        ("X-Machine-Id"@, device_of(a.machine_id, a)),
    ];
    let placed = match a.region {
        Some(r) => fixed.push(("X-User-Region"@, r@)),
        None => fixed,
    };
    match a.user_id {
        Some(u) => if u@.len() > 0 {
            placed.push(("X-User-Id"@, u@))
        } else {
            placed
        },
        None => placed,
    }
}

fn push_header(out: &mut Vec<(String, String)>, name: &str, value: String)
    ensures
        http::headers_view(final(out)@) == http::headers_view(old(out)@).push((name@, value@)),
{
    let ghost before = out@;
    out.push((name.to_owned(), value));
    assert(http::headers_view(out@) =~= http::headers_view(before).push((name@, value@)));
}

/// The credential and the header lines of a request.
pub fn headers(a: &Account) -> (r: (String, Vec<(String, String)>))
    ensures
        r.0@ == authorization(*a),
        http::headers_view(r.1@) == header_lines(*a),
{
    let (dev, mach) = device_ids(a);
    let mut out: Vec<(String, String)> = Vec::new();
    assert(http::headers_view(out@) =~= Seq::empty());
    push_header(&mut out, "Content-Type", "application/json".to_owned());
    push_header(&mut out, "Accept", "application/json".to_owned());
    push_header(&mut out, "X-Device-Id", dev);
    push_header(&mut out, "X-Machine-Id", mach);
    assert(http::headers_view(out@) =~= seq![
        ("Content-Type"@, "application/json"@),
        ("Accept"@, "application/json"@),
        ("X-Device-Id"@, device_of(a.device_id, *a)),
        ("X-Machine-Id"@, device_of(a.machine_id, *a)),
    ]);
    if let Some(region) = &a.region {
        push_header(&mut out, "X-User-Region", region.clone());
    }
    if let Some(u) = &a.user_id {
        if !u.as_str().is_empty() {
            push_header(&mut out, "X-User-Id", u.clone());
        }
    }
    (text::plus("Cloud-IDE-JWT ".to_owned(), a.token.as_str()), out)
}

// ---------------------------------------------------------------------------
// What the answers mean
// ---------------------------------------------------------------------------

/// A failure will pass: the server is busy.
pub open spec fn busy(code: Option<i64>, msg: Seq<char>) -> bool {
    let m = text::ascii_lower(msg);
    ||| code == Some(9074i64)
    ||| text::contains(m, "9074"@)
    ||| text::contains(m, "繁忙"@)
    ||| text::contains(m, "busy"@)
    ||| text::contains(m, "too many"@)
    ||| text::contains(m, "rate limit"@)
    ||| text::contains(m, "participants"@)
}

/// Tells whether a failure will pass because the server is busy.
pub fn is_transient_busy(code: Option<i64>, msg: &str) -> (r: bool)
    ensures
        r == busy(code, msg@),
{
    if let Some(c) = code {
        if c == 9074 {
            return true;
        }
    }
    let chars = text::to_chars(msg);
    let lower = text::lowered(chars.as_slice());
    let m = text::to_text(lower.as_slice());
    text::text_contains(m.as_str(), "9074") || text::text_contains(m.as_str(), "繁忙")
        || text::text_contains(m.as_str(), "busy") || text::text_contains(m.as_str(), "too many")
        || text::text_contains(m.as_str(), "rate limit") || text::text_contains(
        m.as_str(),
        "participants",
    )
}

/// A value as a number of credits: an integer, or a text that is one.
pub open spec fn credit_number(v: Option<JsonV>) -> Option<int> {
    match v {
        Some(JsonV::Str(s)) => number::signed(text::trim(s)),
        _ => json::signed_of(v),
    }
}

fn read_number(v: Option<&Json>) -> (r: Option<i64>)
    ensures
        match r {
            Some(n) => credit_number(json::opt_json(v)) == Some(n as int),
            None => credit_number(json::opt_json(v)) is None,
        },
{
    match v {
        Some(j) => {
            proof {
                json::lemma_views(*j);
            }
            match j {
                Json::Str(s) => {
                    let chars = text::to_chars(s.as_str());
                    number::parse_signed(text::trimmed(chars.as_slice()))
                },
                _ => j.as_signed(),
            }
        },
        None => None,
    }
}

/// The credits that are shown where an answer tells `credits` at its top: those of a member come
/// with extra ones, unless the sum is out of range.
pub open spec fn with_extra(body: JsonV, credits: int) -> int {
    match (
        json::signed_of(json::member(body, "credits"@)),
        json::signed_of(json::member(body, "extra_credits"@)),
    ) {
        (Some(_), Some(extra)) => if i64::MIN <= credits + extra <= i64::MAX {
            credits + extra
        } else {
            credits
        },
        _ => credits,
    }
}

/// The first of several optional numbers.
pub open spec fn first_of(a: Option<int>, b: Option<int>) -> Option<int> {
    if a is Some {
        a
    } else {
        b
    }
}

/// The credits that one level of an answer tells, given those under `credits`.
pub open spec fn level_credit(level: JsonV, credits: Option<int>) -> Option<int> {
    first_of(
        credit_number(json::member(level, "credit"@)),
        first_of(
            credits,
            first_of(
                credit_number(json::member(level, "gain_credit"@)),
                credit_number(json::member(level, "today_credit"@)),
            ),
        ),
    )
}

/// The credits under `credits` at the top of an answer, with the extra ones.
pub open spec fn top_credits(body: JsonV) -> Option<int> {
    match credit_number(json::member(body, "credits"@)) {
        Some(n) => Some(with_extra(body, n)),
        None => None,
    }
}

/// The credits inside the `data` of an answer.
pub open spec fn data_credit(body: JsonV) -> Option<int> {
    match json::member(body, "data"@) {
        Some(d) => level_credit(d, credit_number(json::member(d, "credits"@))),
        None => None,
    }
}

/// The credits that an answer tells: those in its `data`, or else those at its top.
pub open spec fn credit_of(body: JsonV) -> Option<int> {
    first_of(data_credit(body), level_credit(body, top_credits(body)))
}

fn read_level(level: &Json, credits: Option<i64>) -> (r: Option<i64>)
    ensures
        match r {
            Some(n) => level_credit(
                level@,
                match credits {
                    Some(c) => Some(c as int),
                    None => None,
                },
            ) == Some(n as int),
            None => level_credit(
                level@,
                match credits {
                    Some(c) => Some(c as int),
                    None => None,
                },
            ) is None,
        },
{
    if let Some(n) = read_number(level.get("credit")) {
        return Some(n);
    }
    if let Some(n) = credits {
        return Some(n);
    }
    if let Some(n) = read_number(level.get("gain_credit")) {
        return Some(n);
    }
    read_number(level.get("today_credit"))
}

fn read_top(body: &Json) -> (r: Option<i64>)
    ensures
        match r {
            Some(n) => top_credits(body@) == Some(n as int),
            None => top_credits(body@) is None,
        },
{
    match read_number(body.get("credits")) {
        Some(n) => {
            let base = match body.get("credits") {
                Some(v) => v.as_signed(),
                None => None,
            };
            let extra = match body.get("extra_credits") {
                Some(v) => v.as_signed(),
                None => None,
            };
            match (base, extra) {
                (Some(_), Some(e)) => match n.checked_add(e) {
                    Some(sum) => Some(sum),
                    None => Some(n),
                },
                _ => Some(n),
            }
        },
        None => None,
    }
}

/// Reads the credits out of an answer: those in its `data`, or else those at its top, where a
/// member's extra credits are counted in.
pub fn parse_credit(body: &Json) -> (r: Option<i64>)
    ensures
        match r {
            Some(n) => credit_of(body@) == Some(n as int),
            None => credit_of(body@) is None,
        },
{
    if let Some(d) = body.get("data") {
        if let Some(n) = read_level(d, read_number(d.get("credits"))) {
            return Some(n);
        }
    }
    read_level(body, read_top(body))
}

/// The answer says that today's check-in is done.
pub open spec fn says_checked_in(v: JsonV) -> bool {
    let told = match json::member(v, "checked_in"@) {
        Some(x) => Some(x),
        None => json::member(v, "did_checked_in"@),
    };
    json::bool_of(told) == Some(true)
}

/// The answer does not say that the check-in is switched off.
pub open spec fn says_enabled(v: JsonV) -> bool {
    json::bool_of(json::member(v, "enable"@)) != Some(false)
}

/// Reads the state of the check-in: whether it is done, whether there is one, and the credits.
pub fn status_fields(v: &Json) -> (r: (bool, bool, Option<i64>))
    ensures
        r.0 == says_checked_in(v@),
        r.1 == says_enabled(v@),
        match r.2 {
            Some(n) => credit_of(v@) == Some(n as int),
            None => credit_of(v@) is None,
        },
{
    let told = match v.get("checked_in") {
        Some(x) => Some(x),
        None => v.get("did_checked_in"),
    };
    let checked_in = match told {
        Some(x) => match x.as_bool() {
            Some(b) => b,
            None => false,
        },
        None => false,
    };
    let enable = match v.get("enable") {
        Some(x) => match x.as_bool() {
            Some(b) => b,
            None => true,
        },
        None => true,
    };
    (checked_in, enable, parse_credit(v))
}

// ---------------------------------------------------------------------------
// What messages say
// ---------------------------------------------------------------------------

/// Somewhere in the text `a` stands before `b`, in the same line.
pub open spec fn leads_to(s: Seq<char>, a: Seq<char>, b: Seq<char>) -> bool {
    exists|i: int, k: int|
        #![trigger text::occurs_at(s, a, i), text::occurs_at(s, b, k)]
        text::occurs_at(s, a, i) && text::occurs_at(s, b, k) && i + a.len() <= k && forall|n: int|
            i + a.len() <= n < k ==> (#[trigger] s[n]) != '\n'
}

/// Somewhere in the text `a` stands before `b`, with nothing but White_Space between them.
pub open spec fn spaced(s: Seq<char>, a: Seq<char>, b: Seq<char>) -> bool {
    exists|i: int, k: int|
        #![trigger text::occurs_at(s, a, i), text::occurs_at(s, b, k)]
        text::occurs_at(s, a, i) && text::occurs_at(s, b, k) && i + a.len() <= k && forall|n: int|
            i + a.len() <= n < k ==> text::white(#[trigger] s[n])
}

/// The message says that the credits were claimed before.
pub open spec fn says_already(s: Seq<char>) -> bool {
    ||| text::contains(s, "已签到"@)
    ||| text::contains(s, "已领取"@)
    ||| spaced(s, "already"@, "checkedin"@)
    ||| spaced(s, "already"@, "checked-in"@)
    ||| spaced(s, "already"@, "checked in"@)
    ||| spaced(s, "already"@, "claimed"@)
    ||| leads_to(s, "daily"@, "already"@)
}

/// The message says that there is nothing to claim.
pub open spec fn says_inactive(s: Seq<char>) -> bool {
    ||| text::contains(s, "未开启"@)
    ||| text::contains(s, "未开始"@)
    ||| text::contains(s, "未开放"@)
    ||| leads_to(s, "无"@, "活动"@)
    ||| leads_to(s, "活动"@, "结束"@)
    ||| leads_to(s, "活动"@, "关闭"@)
    ||| leads_to(s, "活动"@, "暂停"@)
}

/// `regex::Regex::is_match` with one of the two expressions above: one of the alternatives stands
/// somewhere in the text, where a full stop is any character but a line feed and `\s` is
/// White_Space.
#[verifier::external_body]
fn regex_found(pattern: &str, text: &str) -> (r: bool)
    requires
        pattern@ == ALREADY@ || pattern@ == INACTIVE@,
    ensures
        pattern@ == ALREADY@ ==> r == says_already(text@),
        pattern@ == INACTIVE@ ==> r == says_inactive(text@),
{
    regex::Regex::new(pattern).unwrap().is_match(text)
}

/// What an answer to a claim means.
pub struct Verdict {
    pub ok: bool,
    pub already: bool,
    pub inactive: bool,
}

/// What an answer with the given code and message means.
pub open spec fn verdict(http_ok: bool, code: Option<i64>, msg: Seq<char>) -> Verdict {
    let inactive = says_inactive(msg);
    let already = code == Some(0i64) && says_already(msg) && !inactive;
    Verdict { ok: !inactive && ((code == Some(0i64) && http_ok) || already), already, inactive }
}

/// Decides what an answer with the given code and message means.
pub fn classify(http_ok: bool, code: Option<i64>, msg: &str) -> (r: Verdict)
    ensures
        r == verdict(http_ok, code, msg@),
{
    let inactive = regex_found(INACTIVE, msg);
    let done = regex_found(ALREADY, msg);
    let zero = match code {
        Some(c) => c == 0,
        None => false,
    };
    let already = zero && done && !inactive;
    Verdict { ok: !inactive && ((zero && http_ok) || already), already, inactive }
}

// ---------------------------------------------------------------------------
// The check-in
// ---------------------------------------------------------------------------

/// A check-in that is under way.
pub struct Checkin {
    pub host: String,
    pub status_url: String,
    pub claim_url: String,
    pub authorization: String,
    pub headers: Vec<(String, String)>,
    pub at: String,
}

/// The check-in of an account.
pub open spec fn checkin_for(c: Checkin, a: Account) -> bool {
    &&& c.host@ == normal_host(account_host(a))
    &&& c.status_url@ == normal_host(account_host(a)) + STATUS_PATH@
    &&& c.claim_url@ == normal_host(account_host(a)) + CLAIM_PATH@
    &&& c.authorization@ == authorization(a)
    &&& http::headers_view(c.headers@) == header_lines(a)
}

/// Begins a check-in at the present time: the state is asked for first.
pub fn do_checkin(a: &Account) -> (r: Checkin)
    ensures
        checkin_for(r, *a),
        clock::is_timestamp(r.at@),
{
    let host = normalize_host(host_of(a).as_str());
    let (authorization, headers) = headers(a);
    Checkin {
        status_url: text::plus(host.clone(), STATUS_PATH),
        claim_url: text::plus(host.clone(), CLAIM_PATH),
        host,
        authorization,
        headers,
        at: clock::local_now(clock::TIMESTAMP_FORMAT),
    }
}

/// The JSON value of an answer, if there is an answer and it holds one.
pub open spec fn body_json(body: Option<Seq<u8>>) -> Option<JsonV> {
    match body {
        Some(b) => if valid_utf8(b) {
            json::parsed_json(decode_utf8(b))
        } else {
            None
        },
        None => None,
    }
}

/// The view of optional bytes.
pub open spec fn opt_bytes(b: Option<&[u8]>) -> Option<Seq<u8>> {
    match b {
        Some(s) => Some(s@),
        None => None,
    }
}

/// Reads the JSON value of an answer.
pub fn read_body(body: Option<&[u8]>) -> (r: Option<Json>)
    ensures
        match r {
            Some(j) => body_json(opt_bytes(body)) == Some(j@) && json::orderly(j@),
            None => body_json(opt_bytes(body)) is None,
        },
{
    match body {
        Some(b) => match text::utf8_text(b) {
            Some(s) => Json::parse(s.as_str()),
            None => None,
        },
        None => None,
    }
}

/// The code of an answer.
pub open spec fn code_of(v: JsonV) -> Option<i64> {
    match json::signed_of(json::member(v, "code"@)) {
        Some(n) => Some(n as i64),
        None => None,
    }
}

fn read_code(v: &Json) -> (r: Option<i64>)
    ensures
        r == code_of(v@),
{
    match v.get("code") {
        Some(c) => c.as_signed(),
        None => None,
    }
}

/// The outcome of a check-in that its state settles: it is done, or there is none.
pub open spec fn settled(c: Checkin, state: Option<JsonV>) -> Option<CheckinResultV> {
    match state {
        Some(v) => if code_of(v) != Some(0i64) {
            None
        } else if says_checked_in(v) {
            Some(
                CheckinResultV {
                    success: true,
                    already: true,
                    inactive: false,
                    message: "今日已签到"@,
                    credit: as_signed(credit_of(v)),
                    host: Some(c.host@),
                    at: c.at@,
                    transient: false,
                },
            )
        } else if !says_enabled(v) {
            Some(
                CheckinResultV {
                    success: false,
                    already: false,
                    inactive: true,
                    message: "签到活动未开启"@,
                    credit: None,
                    host: Some(c.host@),
                    at: c.at@,
                    transient: false,
                },
            )
        } else {
            None
        },
        None => None,
    }
}

/// An optional number as an integer of the machine.
pub open spec fn as_signed(n: Option<int>) -> Option<i64> {
    match n {
        Some(x) => Some(x as i64),
        None => None,
    }
}

/// Decides whether the answer to the first question settles the check-in; or else the credits are
/// claimed.
pub fn after_status(c: &Checkin, body: Option<&[u8]>) -> (r: Option<CheckinResult>)
    ensures
        match r {
            Some(x) => settled(*c, body_json(opt_bytes(body))) == Some(x@),
            None => settled(*c, body_json(opt_bytes(body))) is None,
        },
{
    match read_body(body) {
        Some(v) => {
            let zero = match read_code(&v) {
                Some(n) => n == 0,
                None => false,
            };
            if !zero {
                return None;
            }
            let (checked_in, enable, credit) = status_fields(&v);
            if checked_in {
                let x = CheckinResult {
                    success: true,
                    already: true,
                    inactive: false,
                    message: "今日已签到".to_owned(),
                    credit,
                    host: Some(c.host.clone()),
                    at: c.at.clone(),
                    transient: false,
                };
                return Some(x);
            }
            if !enable {
                let x = CheckinResult {
                    success: false,
                    already: false,
                    inactive: true,
                    message: "签到活动未开启".to_owned(),
                    credit: None,
                    host: Some(c.host.clone()),
                    at: c.at.clone(),
                    transient: false,
                };
                return Some(x);
            }
            None
        },
        None => None,
    }
}

/// An optional code, as it is shown.
pub open spec fn code_text(code: Option<i64>) -> Seq<char> {
    match code {
        Some(n) => "Some("@ + number::signed_decimal(n as int) + ")"@,
        None => "None"@,
    }
}

pub(crate) fn show_code(code: Option<i64>) -> (r: String)
    ensures
        r@ == code_text(code),
{
    match code {
        Some(n) => {
            let digits = number::to_signed_decimal(n);
            text::plus(text::plus("Some(".to_owned(), digits.as_str()), ")")
        },
        None => "None".to_owned(),
    }
}

/// At most the first `n` characters.
pub open spec fn head_of(s: Seq<char>, n: int) -> Seq<char> {
    if s.len() <= n {
        s
    } else {
        s.subrange(0, n)
    }
}

/// What is known of an answer without a message.
pub open spec fn detail(status: u16, code: Option<i64>, body: Seq<char>) -> Seq<char> {
    let t = text::trim(body);
    if t.len() == 0 {
        "HTTP "@ + number::decimal(status as nat)
    } else {
        "HTTP "@ + number::decimal(status as nat) + " code="@ + code_text(code) + " "@ + head_of(
            t,
            160,
        )
    }
}

fn describe(status: u16, code: Option<i64>, body: &str) -> (r: String)
    ensures
        r@ == detail(status, code, body@),
{
    let chars = text::to_chars(body);
    let t = text::trimmed(chars.as_slice());
    let shown = number::to_decimal(status as u64);
    let head = text::plus("HTTP ".to_owned(), shown.as_str());
    if t.len() == 0 {
        return head;
    }
    let c = show_code(code);
    let start = text::plus(text::plus(text::plus(head, " code="), c.as_str()), " ");
    let part = if t.len() <= 160 {
        text::to_text(t)
    } else {
        text::to_text(vstd::slice::slice_subrange(t, 0, 160))
    };
    text::plus(start, part.as_str())
}

/// The answer to a claim: the JSON value that the text holds, or null.
pub open spec fn claim_json(body: Seq<char>) -> JsonV {
    match json::parsed_json(body) {
        Some(v) => v,
        None => JsonV::Null,
    }
}

/// The message that an answer holds.
pub open spec fn own_message(v: JsonV) -> Seq<char> {
    let told = if json::member(v, "msg"@) is Some {
        json::member(v, "msg"@)
    } else if json::member(v, "message"@) is Some {
        json::member(v, "message"@)
    } else {
        json::member(v, "error"@)
    };
    match json::text_of(told) {
        Some(s) => text::trim(s),
        None => ""@,
    }
}

fn read_message(v: &Json) -> (r: String)
    ensures
        r@ == own_message(v@),
{
    let told = match v.get("msg") {
        Some(m) => Some(m),
        None => match v.get("message") {
            Some(m) => Some(m),
            None => v.get("error"),
        },
    };
    match told {
        Some(m) => match m.as_text() {
            Some(s) => text::trim_text(s.as_str()),
            None => "".to_owned(),
        },
        None => "".to_owned(),
    }
}

/// The message of an answer: its own, or what is known of it.
pub open spec fn claim_message(status: u16, body: Seq<char>) -> Seq<char> {
    let own = own_message(claim_json(body));
    if own.len() == 0 {
        detail(status, code_of(claim_json(body)), body)
    } else {
        own
    }
}

/// The status of an answer tells success.
pub open spec fn succeeded(status: u16) -> bool {
    200 <= status < 300
}

/// An answer settles the claim.
pub open spec fn decides(status: u16, body: Seq<char>) -> bool {
    let v = claim_json(body);
    let d = verdict(succeeded(status), code_of(v), claim_message(status, body));
    d.ok || d.already || d.inactive || code_of(v) == Some(0i64)
}

/// The outcome that an answer to a claim settles.
pub open spec fn claimed(c: Checkin, status: u16, body: Seq<char>) -> CheckinResultV {
    let v = claim_json(body);
    let msg = claim_message(status, body);
    let d = verdict(succeeded(status), code_of(v), msg);
    CheckinResultV {
        success: d.ok || code_of(v) == Some(0i64),
        already: d.already,
        inactive: d.inactive,
        message: msg,
        credit: as_signed(credit_of(v)),
        host: Some(c.host@),
        at: c.at@,
        transient: false,
    }
}

/// The outcome of a check-in that has failed, because the server was busy or not.
pub open spec fn failed(c: Checkin, message: Seq<char>, transient: bool) -> CheckinResultV {
    CheckinResultV {
        success: false,
        already: false,
        inactive: false,
        message,
        credit: None,
        host: None,
        at: c.at@,
        transient,
    }
}

/// What follows an answer to a claim.
pub enum ClaimStep {
    /// The check-in is over.
    Done(CheckinResult),
    /// The credits are claimed once more, two seconds later.
    Again,
}

/// The message of a claim that was refused.
pub open spec fn refusal(status: u16, body: Seq<char>) -> Seq<char> {
    "[HTTP "@ + number::decimal(status as nat) + " code="@ + code_text(code_of(claim_json(body)))
        + "] "@ + claim_message(status, body)
}

/// An answer says that the server is busy, by its code or its message.
pub open spec fn says_busy(status: u16, body: Seq<char>) -> bool {
    busy(code_of(claim_json(body)), claim_message(status, body))
}

/// The outcome of a claim that was refused.
pub open spec fn refused(c: Checkin, status: u16, body: Seq<char>) -> CheckinResultV {
    failed(c, refusal(status, body), says_busy(status, body))
}

/// An answer leads to one more claim: it settles nothing, the server is busy, and this was not the
/// last attempt.
pub open spec fn claims_again(attempt: u32, status: u16, body: Seq<char>) -> bool {
    &&& !decides(status, body)
    &&& says_busy(status, body)
    &&& attempt < MAX_CLAIM_ATTEMPTS
}

/// Decides what follows the answer to a claim; the first attempt has the number one.
pub fn after_claim(c: &Checkin, attempt: u32, status: u16, body: &str) -> (r: ClaimStep)
    ensures
        match r {
            ClaimStep::Again => claims_again(attempt, status, body@),
            ClaimStep::Done(x) => !claims_again(attempt, status, body@) && x@ == (if decides(
                status,
                body@,
            ) {
                claimed(*c, status, body@)
            } else {
                refused(*c, status, body@)
            }),
        },
{
    let v = match Json::parse(body) {
        Some(j) => j,
        None => {
            let j = Json::Null;
            proof {
                json::lemma_views(j);
            }
            j
        },
    };
    let code = read_code(&v);
    let own = read_message(&v);
    let msg = if own.as_str().is_empty() {
        describe(status, code, body)
    } else {
        own
    };
    let d = classify(200 <= status && status < 300, code, msg.as_str());
    let zero = match code {
        Some(n) => n == 0,
        None => false,
    };
    if d.ok || d.already || d.inactive || zero {
        let x = CheckinResult {
            success: d.ok || zero,
            already: d.already,
            inactive: d.inactive,
            message: msg,
            credit: parse_credit(&v),
            host: Some(c.host.clone()),
            at: c.at.clone(),
            transient: false,
        };
        return ClaimStep::Done(x);
    }
    let transient = is_transient_busy(code, msg.as_str());
    if transient && attempt < MAX_CLAIM_ATTEMPTS {
        return ClaimStep::Again;
    }
    let shown = number::to_decimal(status as u64);
    let ct = show_code(code);
    let head = text::plus(text::plus("[HTTP ".to_owned(), shown.as_str()), " code=");
    let message = text::plus(text::plus(text::plus(head, ct.as_str()), "] "), msg.as_str());
    ClaimStep::Done(fail(c, message, transient))
}

fn fail(c: &Checkin, message: String, transient: bool) -> (r: CheckinResult)
    ensures
        r@ == failed(*c, message@, transient),
{
    CheckinResult {
        success: false,
        already: false,
        inactive: false,
        message,
        credit: None,
        host: None,
        at: c.at.clone(),
        transient,
    }
}

/// The outcome where the claim could not be sent, or its answer not be received. No server has said
/// that it was busy.
pub fn claim_failed(c: &Checkin, error: &str) -> (r: CheckinResult)
    ensures
        r@ == failed(*c, c.claim_url@ + " 请求失败："@ + error@, false),
{
    let m = text::plus(text::plus(c.claim_url.clone(), " 请求失败："), error);
    fail(c, m, false)
}

/// The state of the check-in as it was answered, if the answer tells success.
pub fn query_status(body: Option<&[u8]>) -> (r: Option<Json>)
    ensures
        match r {
            Some(j) => body_json(opt_bytes(body)) == Some(j@) && code_of(j@) == Some(0i64),
            None => body_json(opt_bytes(body)) matches Some(v) ==> code_of(v) != Some(0i64),
        },
{
    match read_body(body) {
        Some(v) => {
            let zero = match read_code(&v) {
                Some(n) => n == 0,
                None => false,
            };
            if zero {
                Some(v)
            } else {
                None
            }
        },
        None => None,
    }
}

/// The state of the check-in of an account.
pub struct CheckinStatus {
    pub checked_in: bool,
    pub enable: bool,
    pub credits: Option<i64>,
    pub message: String,
}

impl CheckinStatus {
    /// Reads the state out of an answer.
    pub fn from_status(v: Option<Json>) -> (r: Option<CheckinStatus>)
        ensures
            match (v, r) {
                (Some(j), Some(s)) => {
                    &&& s.checked_in == says_checked_in(j@)
                    &&& s.enable == says_enabled(j@)
                    &&& s.credits == as_signed(credit_of(j@))
                    &&& s.message@ == match json::text_of(json::member(j@, "message"@)) {
                        Some(m) => m,
                        None => "success"@,
                    }
                },
                (None, None) => true,
                _ => false,
            },
    {
        match v {
            Some(j) => {
                let (checked_in, enable, credits) = status_fields(&j);
                let message = match j.get("message") {
                    Some(m) => match m.as_text() {
                        Some(s) => s.clone(),
                        None => "success".to_owned(),
                    },
                    None => "success".to_owned(),
                };
                Some(CheckinStatus { checked_in, enable, credits, message })
            },
            None => None,
        }
    }
}

// ---------------------------------------------------------------------------
// The issuer of a token
// ---------------------------------------------------------------------------

/// The bytes that the standard engine of `base64` decodes a text to, if it is well-formed.
pub uninterp spec fn base64_decoded(s: Seq<char>) -> Option<Seq<u8>>;

/// `base64::Engine::decode` of `base64::engine::general_purpose::STANDARD`: a function of the text
/// alone.
#[verifier::external_body]
fn decode_base64(s: &str) -> (r: Option<Vec<u8>>)
    ensures
        match r {
            Some(v) => base64_decoded(s@) == Some(v@),
            None => base64_decoded(s@) is None,
        },
{
    base64::Engine::decode(&base64::engine::general_purpose::STANDARD, s).ok()
}

/// A character of the alphabet for addresses as one of the standard alphabet.
pub open spec fn standard_char(c: char) -> char {
    if c == '-' {
        '+'
    } else if c == '_' {
        '/'
    } else {
        c
    }
}

/// A text in the standard alphabet.
pub open spec fn standard_text(s: Seq<char>) -> Seq<char> {
    s.map_values(|c: char| standard_char(c))
}

/// The number of bytes that are missing to a multiple of four.
pub open spec fn missing(n: nat) -> nat {
    ((4 - n % 4) % 4) as nat
}

/// A text in the standard alphabet, padded to a multiple of four bytes.
pub open spec fn padded(s: Seq<char>) -> Seq<char> {
    let t = standard_text(s);
    t + Seq::new(missing(encode_utf8(t).len()), |i: int| '=')
}

/// Writes a text in the standard alphabet, padded to a multiple of four bytes.
pub fn standard_base64(s: &[char]) -> (r: String)
    ensures
        r@ == padded(s@),
{
    let mut out: Vec<char> = Vec::new();
    let mut i: usize = 0;
    while i < s.len()
        invariant
            i <= s@.len(),
            out@ == standard_text(s@.take(i as int)),
        decreases s@.len() - i,
    {
        let c = s[i];
        out.push(
            if c == '-' {
                '+'
            } else if c == '_' {
                '/'
            } else {
                c
            },
        );
        assert(out@ == standard_text(s@.take(i + 1)));
        i = i + 1;
    }
    assert(s@.take(i as int) == s@);
    let ghost t = standard_text(s@);
    let plain = text::to_text(out.as_slice());
    let n: usize = plain.as_str().as_bytes().len();
    let m: usize = (4 - n % 4) % 4;
    let mut k: usize = 0;
    while k < m
        invariant
            k <= m,
            out@ == t + Seq::new(k as nat, |i: int| '='),
        decreases m - k,
    {
        out.push('=');
        k = k + 1;
        assert(out@ == t + Seq::new(k as nat, |i: int| '='));
    }
    text::to_text(out.as_slice())
}

/// The host of an issuer.
pub open spec fn issuer_of(iss: Seq<char>) -> Seq<char> {
    if text::contains(iss, "api.trae.cn"@) {
        "https://api.trae.cn"@
    } else if text::contains(iss, "api.trae.ai"@) {
        "https://api.trae.ai"@
    } else {
        text::trim_end_char(iss, '/')
    }
}

/// The host that the payload of a token names.
pub open spec fn payload_host(payload: Option<Seq<u8>>) -> Option<Seq<char>> {
    match body_json(payload) {
        Some(v) => match json::text_of(json::member(v, "iss"@)) {
            Some(iss) => Some(issuer_of(iss)),
            None => None,
        },
        None => None,
    }
}

/// The host of an issuer.
pub fn host_of_issuer(iss: &str) -> (r: String)
    ensures
        r@ == issuer_of(iss@),
{
    if text::text_contains(iss, "api.trae.cn") {
        "https://api.trae.cn".to_owned()
    } else if text::text_contains(iss, "api.trae.ai") {
        "https://api.trae.ai".to_owned()
    } else {
        let chars = text::to_chars(iss);
        text::to_text(text::without_trailing_char(chars.as_slice(), '/'))
    }
}

/// Reads the host out of the payload of a token.
pub fn host_in_payload(payload: Option<&[u8]>) -> (r: Option<String>)
    ensures
        text::opt_text(r) == payload_host(opt_bytes(payload)),
{
    match read_body(payload) {
        Some(v) => match v.get("iss") {
            Some(m) => match m.as_text() {
                Some(iss) => Some(host_of_issuer(iss.as_str())),
                None => None,
            },
            None => None,
        },
        None => None,
    }
}

/// The host that a token names: the second of its parts that full stops separate is the payload.
pub open spec fn token_host(token: Seq<char>) -> Option<Seq<char>> {
    let parts = text::split_by(token, "."@);
    if parts.len() < 2 {
        None
    } else {
        payload_host(base64_decoded(padded(parts[1])))
    }
}

/// The host that the issuer of a token stands for.
pub fn issuer_host(token: &str) -> (r: Option<String>)
    ensures
        text::opt_text(r) == token_host(token@),
{
    let chars = text::to_chars(token);
    let stop = text::to_chars(".");
    proof {
        reveal_strlit(".");
    }
    let parts = text::split(chars.as_slice(), stop.as_slice());
    let ghost pv = text::rows(parts@);
    if parts.len() < 2 {
        return None;
    }
    assert(pv[1] == parts@[1]@);
    let standard = standard_base64(parts[1].as_slice());
    match decode_base64(standard.as_str()) {
        Some(bytes) => host_in_payload(Some(bytes.as_slice())),
        None => None,
    }
}

// ---------------------------------------------------------------------------
// Laws
// ---------------------------------------------------------------------------

/// The credits are claimed three times at most.
pub proof fn law_claims_are_bounded(attempt: u32, status: u16, body: Seq<char>)
    requires
        attempt >= MAX_CLAIM_ATTEMPTS,
    ensures
        !claims_again(attempt, status, body),
{
}

/// A check-in that was done before counts as a success, whichever answer tells it.
pub proof fn law_done_before_is_success(
    c: Checkin,
    state: Option<JsonV>,
    status: u16,
    body: Seq<char>,
)
    ensures
        settled(c, state) matches Some(x) ==> x.already ==> x.success,
        claimed(c, status, body).already ==> claimed(c, status, body).success,
{
}

/// Every request names a device and a machine.
pub proof fn law_device_is_always_sent(a: Account)
    ensures
        header_lines(a).contains(("X-Device-Id"@, device_of(a.device_id, a))),
        header_lines(a).contains(("X-Machine-Id"@, device_of(a.machine_id, a))),
{
    let h = header_lines(a);
    assert(h[2] == ("X-Device-Id"@, device_of(a.device_id, a)));
    assert(h[3] == ("X-Machine-Id"@, device_of(a.machine_id, a)));
}

} // verus!
