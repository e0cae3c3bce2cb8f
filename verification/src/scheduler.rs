//! The clockwork: the daily check-in of all accounts in several rounds, and the repair of what a
//! new version of TraeWork has overwritten.
use crate::accounts::{Account, Settings};
use crate::checkin;
use crate::checkin::CheckinResult;
use crate::clock;
use crate::json::JsonV;
use crate::number;
use crate::proxy::{Note, NoteV};
use crate::text;
use vstd::prelude::*;
use vstd::string::*;

verus! {

/// How many rounds a check-in has at most.
pub const MAX_ROUNDS: usize = 3;

/// The seconds between two rounds.
pub const ROUND_GAP_SECS: u64 = 600;

/// The seconds until the next repair, where everything is in place.
pub const REPAIR_OK_GAP_SECS: u64 = 300;

/// The seconds until the next repair, where something is missing.
pub const REPAIR_RETRY_GAP_SECS: u64 = 20;

// ---------------------------------------------------------------------------
// When the check-in is due
// ---------------------------------------------------------------------------

/// The check-in is due: it is switched on, was not made today, and its minute has come.
pub open spec fn due(s: Settings, last_day: Option<i32>, today: i32, time: Seq<char>) -> bool {
    s.checkin_enabled && last_day != Some(today) && time == s.checkin_time@
}

/// Decides whether the check-in is due on the given day and at the given time, and takes note of
/// the day.
pub fn checkin_due_at(s: &Settings, last_day: &mut Option<i32>, today: i32, time: &str) -> (r: bool)
    ensures
        r == due(*s, *old(last_day), today, time@),
        *final(last_day) == (if r || !s.checkin_enabled {
            Some(today)
        } else {
            *old(last_day)
        }),
{
    if s.checkin_enabled {
        let done = match *last_day {
            Some(d) => d == today,
            None => false,
        };
        if !done && text::same_text(time, s.checkin_time.as_str()) {
            *last_day = Some(today);
            return true;
        }
        false
    } else {
        *last_day = Some(today);
        false
    }
}

/// Decides whether the check-in is due now, and takes note of the day.
pub fn checkin_due(s: &Settings, last_day: &mut Option<i32>) -> (r: bool)
    ensures
        r ==> s.checkin_enabled && *final(last_day) != *old(last_day) && *final(last_day) is Some,
        !s.checkin_enabled ==> !r && *final(last_day) is Some,
        s.checkin_enabled && !r ==> *final(last_day) == *old(last_day),
        exists|today: i32, time: Seq<char>|
            r == #[trigger] due(*s, *old(last_day), today, time) && *final(last_day) == (if r
                || !s.checkin_enabled {
                Some(today)
            } else {
                *old(last_day)
            }),
{
    let (today, time) = clock::local_moment();
    let r = checkin_due_at(s, last_day, today, time.as_str());
    assert(r == due(*s, *old(last_day), today, time@));
    r
}

// ---------------------------------------------------------------------------
// The rounds
// ---------------------------------------------------------------------------

/// The accounts of a round that are tried in the next one: those for which the server was busy.
pub open spec fn left_over(round: usize, seen: Seq<(Account, CheckinResult)>) -> Seq<Account>
    decreases seen.len(),
{
    if seen.len() == 0 {
        Seq::empty()
    } else {
        let before = left_over(round, seen.drop_last());
        if seen.last().1.transient && round + 1 < MAX_ROUNDS {
            before.push(seen.last().0)
        } else {
            before
        }
    }
}

/// The outcomes of a round that stand.
pub open spec fn finished(round: usize, seen: Seq<(Account, CheckinResult)>) -> Seq<
    (String, CheckinResult),
>
    decreases seen.len(),
{
    if seen.len() == 0 {
        Seq::empty()
    } else {
        let before = finished(round, seen.drop_last());
        if seen.last().1.transient && round + 1 < MAX_ROUNDS {
            before
        } else {
            before.push((seen.last().0.name, seen.last().1))
        }
    }
}

/// A check-in of all accounts that is under way.
pub struct Rounds {
    /// The number of the round, from zero.
    pub round: usize,
    /// The accounts of this round.
    pub pending: Vec<Account>,
    /// The outcomes that stand, with the names of their accounts.
    pub done: Vec<(String, CheckinResult)>,
}

/// Begins the check-in of all accounts, unless there are none.
pub fn run_checkin(accounts: Vec<Account>) -> (r: Option<Rounds>)
    ensures
        match r {
            Some(x) => accounts@.len() > 0 && x.round == 0 && x.pending == accounts
                && x.done@.len() == 0,
            None => accounts@.len() == 0,
        },
{
    if accounts.len() == 0 {
        None
    } else {
        Some(Rounds { round: 0, pending: accounts, done: Vec::new() })
    }
}

/// Ends a round: takes the outcomes of its accounts and tells whether another round follows.
pub fn end_round(rounds: &mut Rounds, seen: Vec<(Account, CheckinResult)>) -> (r: bool)
    requires
        old(rounds).round < MAX_ROUNDS,
    ensures
        final(rounds).round == old(rounds).round + 1,
        final(rounds).pending@ == left_over(old(rounds).round, seen@),
        final(rounds).done@ == old(rounds).done@ + finished(old(rounds).round, seen@),
        r == (final(rounds).pending@.len() > 0),
{
    let round: usize = rounds.round;
    let ghost all = seen@;
    let ghost start = rounds.done@;
    let mut rest = seen;
    let mut next: Vec<Account> = Vec::new();
    let mut i: usize = 0;
    let n: usize = rest.len();
    assert(start + finished(round, all.take(0)) == start);
    assert(all.skip(0) == all);
    while i < n
        invariant
            i <= n,
            n == all.len(),
            rest@ == all.skip(i as int),
            next@ == left_over(round, all.take(i as int)),
            rounds.done@ == start + finished(round, all.take(i as int)),
            rounds.round == round,
            round < MAX_ROUNDS,
        decreases n - i,
    {
        let ghost t = all.take(i + 1);
        assert(t.drop_last() == all.take(i as int));
        let (account, result) = rest.remove(0);
        assert(rest@ == all.skip(i + 1));
        if result.transient && round + 1 < MAX_ROUNDS {
            next.push(account);
        } else {
            rounds.done.push((account.name, result));
            assert(rounds.done@ == start + finished(round, t));
        }
        i = i + 1;
    }
    assert(all.take(i as int) == all);
    rounds.pending = next;
    rounds.round = round + 1;
    rounds.pending.len() > 0
}

/// What is noted before a further round, whose number is counted from one.
pub open spec fn round_words(round: nat, pending: nat) -> Seq<char> {
    "第 "@ + number::decimal(round) + " 轮补签："@ + number::decimal(pending)
        + " 个账号上一轮被限流（9074），"@ + number::decimal(10) + " 分钟后重试"@
}

/// What is noted before a further round.
pub fn round_note(rounds: &Rounds) -> (r: String)
    requires
        rounds.round < MAX_ROUNDS,
    ensures
        r@ == round_words((rounds.round + 1) as nat, rounds.pending@.len()),
{
    let a = number::to_decimal((rounds.round + 1) as u64);
    let b = number::to_decimal(rounds.pending.len() as u64);
    let c = number::to_decimal(ROUND_GAP_SECS / 60);
    let x = text::plus(text::plus("第 ".to_owned(), a.as_str()), " 轮补签：");
    let y = text::plus(text::plus(x, b.as_str()), " 个账号上一轮被限流（9074），");
    text::plus(text::plus(y, c.as_str()), " 分钟后重试")
}

/// What is noted of one check-in.
pub fn checkin_note(at: &str, round: usize, r: &CheckinResult) -> (s: String)
    requires
        round < MAX_ROUNDS,
    ensures
        s@ == "["@ + at@ + "] 第 "@ + number::decimal((round + 1) as nat) + " 轮 · "@
            + r.message@,
{
    let n = number::to_decimal((round + 1) as u64);
    let x = text::plus(text::plus("[".to_owned(), at), "] 第 ");
    text::plus(text::plus(text::plus(x, n.as_str()), " 轮 · "), r.message.as_str())
}

// ---------------------------------------------------------------------------
// The summary
// ---------------------------------------------------------------------------

/// What came of a check-in of all accounts.
pub struct Tally {
    /// The number of accounts that have checked in.
    pub ok: usize,
    /// The number of accounts that had checked in before.
    pub already: usize,
    /// The accounts that have failed, each with its reason.
    pub failed: Vec<String>,
}

/// The number of outcomes that came now.
pub open spec fn count_ok(done: Seq<(String, CheckinResult)>) -> nat
    decreases done.len(),
{
    if done.len() == 0 {
        0
    } else {
        let r = done.last().1;
        count_ok(done.drop_last()) + if !r.already && r.success {
            1nat
        } else {
            0nat
        }
    }
}

/// The number of outcomes that came before.
pub open spec fn count_already(done: Seq<(String, CheckinResult)>) -> nat
    decreases done.len(),
{
    if done.len() == 0 {
        0
    } else {
        count_already(done.drop_last()) + if done.last().1.already {
            1nat
        } else {
            0nat
        }
    }
}

/// The failures, with their reasons.
pub open spec fn failures(done: Seq<(String, CheckinResult)>) -> Seq<Seq<char>>
    decreases done.len(),
{
    if done.len() == 0 {
        Seq::empty()
    } else {
        let before = failures(done.drop_last());
        let (name, r) = done.last();
        if !r.already && !r.success && !r.inactive {
            before.push(name@ + "："@ + r.message@)
        } else {
            before
        }
    }
}

/// The number of accounts without anything to claim.
pub open spec fn count_inactive(done: Seq<(String, CheckinResult)>) -> nat
    decreases done.len(),
{
    if done.len() == 0 {
        0
    } else {
        let r = done.last().1;
        count_inactive(done.drop_last()) + if !r.already && !r.success && r.inactive {
            1nat
        } else {
            0nat
        }
    }
}

/// Sums the outcomes up.
pub fn tally(done: &[(String, CheckinResult)]) -> (r: Tally)
    ensures
        r.ok == count_ok(done@),
        r.already == count_already(done@),
        text::texts(r.failed@) == failures(done@),
{
    let mut ok: usize = 0;
    let mut already: usize = 0;
    let mut failed: Vec<String> = Vec::new();
    let mut i: usize = 0;
    while i < done.len()
        invariant
            i <= done@.len(),
            ok <= i,
            already <= i,
            ok == count_ok(done@.take(i as int)),
            already == count_already(done@.take(i as int)),
            text::texts(failed@) == failures(done@.take(i as int)),
        decreases done@.len() - i,
    {
        let ghost t = done@.take(i + 1);
        assert(t.drop_last() == done@.take(i as int));
        assert(t.last() == done@[i as int]);
        let r = &done[i].1;
        if r.already {
            already = already + 1;
        } else if r.success {
            ok = ok + 1;
        } else if !r.inactive {
            let ghost before = failed@;
            let line = text::plus(
                text::plus(done[i].0.clone(), "："),
                r.message.as_str(),
            );
            let ghost lv = line@;
            failed.push(line);
            assert(text::texts(failed@) == text::texts(before).push(lv));
        }
        i = i + 1;
    }
    assert(done@.take(i as int) == done@);
    Tally { ok, already, failed }
}

/// Where the summary is sent to, if an address is set.
pub fn webhook(s: &Settings) -> (r: Option<String>)
    ensures
        match r {
            Some(u) => u@ == text::trim(s.webhook_url@) && u@.len() > 0,
            None => text::trim(s.webhook_url@).len() == 0,
        },
{
    let u = text::trim_text(s.webhook_url.as_str());
    if u.as_str().is_empty() {
        None
    } else {
        Some(u)
    }
}

// ---------------------------------------------------------------------------
// Repair
// ---------------------------------------------------------------------------

/// Decides whether a repair is due.
pub fn repair_due(s: &Settings, now: u64, next: u64) -> (r: bool)
    ensures
        r == (s.takeover_enabled && now >= next),
{
    s.takeover_enabled && now >= next
}

/// The seconds until the next repair.
pub fn repair_gap(ready: bool) -> (r: u64)
    ensures
        r == (if ready {
            REPAIR_OK_GAP_SECS
        } else {
            REPAIR_RETRY_GAP_SECS
        }),
{
    if ready {
        REPAIR_OK_GAP_SECS
    } else {
        REPAIR_RETRY_GAP_SECS
    }
}

/// Decides whether, before the applications are looked after, the endpoints of all of them are
/// restored: where the proxy does not listen, nothing may point to it.
pub fn restores_first(proxy_ok: bool) -> (r: bool)
    ensures
        r == !proxy_ok,
{
    !proxy_ok
}

/// What is done to the endpoint of one application.
#[derive(Clone, Copy, PartialEq, Eq, Structural)]
pub enum EndpointAction {
    /// It is made to point to the proxy.
    Repair,
    /// It is left as it is.
    Leave,
    /// It is restored.
    Uninstall,
}

/// What is noted where the URL gate of an application cannot be kept open.
pub open spec fn gate_lost(id: Seq<char>, error: Seq<char>) -> NoteV {
    NoteV {
        event: "patch_gone"@,
        detail: "免证书模式：「"@ + id + "」的闸门补丁无法保证（"@ + error
            + "）。已放弃对它做端点改写并恢复官方直连 —— 否则它下次启动会因明文端点崩掉"@,
        dedup: true,
    }
}

/// The URL gate of an application is open: it was opened, or had been.
pub open spec fn gate_open(patched: Result<bool, String>) -> bool {
    patched matches Ok(p) && p
}

/// What is done to the endpoint of an application.
pub open spec fn endpoint_action(patched: Result<bool, String>, proxy_ok: bool) -> EndpointAction {
    if !gate_open(patched) {
        EndpointAction::Uninstall
    } else if proxy_ok {
        EndpointAction::Repair
    } else {
        EndpointAction::Leave
    }
}

/// Decides what is done to the endpoint of one application once its gate was looked after: it is
/// made to point to the proxy only where the URL gate is open and the proxy listens, and restored
/// where the URL gate is not open.
pub fn repair_target(id: &str, patched: Result<bool, String>, proxy_ok: bool) -> (r: (
    EndpointAction,
    Option<Note>,
))
    ensures
        r.0 == endpoint_action(patched, proxy_ok),
        match (patched, r.1) {
            (Err(e), Some(n)) => n@ == gate_lost(id@, e@),
            (Ok(_), None) => true,
            _ => false,
        },
{
    match patched {
        Ok(p) => {
            let action = if !p {
                EndpointAction::Uninstall
            } else if proxy_ok {
                EndpointAction::Repair
            } else {
                EndpointAction::Leave
            };
            (action, None)
        },
        Err(e) => {
            let a = text::plus(text::plus("免证书模式：「".to_owned(), id), "」的闸门补丁无法保证（");
            let detail = text::plus(
                text::plus(a, e.as_str()),
                "）。已放弃对它做端点改写并恢复官方直连 —— 否则它下次启动会因明文端点崩掉",
            );
            (EndpointAction::Uninstall, Some(Note { event: "patch_gone".to_owned(), detail, dedup: true }))
        },
    }
}

/// Everything is in place: there is an application, and each one was repaired.
pub fn all_ready(repaired: &[bool]) -> (r: bool)
    ensures
        r == (repaired@.len() > 0 && forall|i: int|
            0 <= i < repaired@.len() ==> #[trigger] repaired@[i]),
{
    if repaired.len() == 0 {
        return false;
    }
    let mut i: usize = 0;
    while i < repaired.len()
        invariant
            i <= repaired@.len(),
            forall|k: int| 0 <= k < i ==> #[trigger] repaired@[k],
        decreases repaired@.len() - i,
    {
        if !repaired[i] {
            return false;
        }
        i = i + 1;
    }
    true
}

// ---------------------------------------------------------------------------
// Laws
// ---------------------------------------------------------------------------

/// No account is lost in a round: each one is tried again, or its outcome stands.
pub proof fn law_no_account_is_lost(round: usize, seen: Seq<(Account, CheckinResult)>)
    ensures
        left_over(round, seen).len() + finished(round, seen).len() == seen.len(),
    decreases seen.len(),
{
    if seen.len() > 0 {
        law_no_account_is_lost(round, seen.drop_last());
    }
}

/// After the last round nothing is left over.
pub proof fn law_rounds_end(round: usize, seen: Seq<(Account, CheckinResult)>)
    requires
        round + 1 >= MAX_ROUNDS,
    ensures
        left_over(round, seen).len() == 0,
    decreases seen.len(),
{
    if seen.len() > 0 {
        law_rounds_end(round, seen.drop_last());
    }
}

/// Each outcome is counted once.
pub proof fn law_each_outcome_counts_once(done: Seq<(String, CheckinResult)>)
    ensures
        count_ok(done) + count_already(done) + failures(done).len() + count_inactive(done)
            == done.len(),
    decreases done.len(),
{
    if done.len() > 0 {
        law_each_outcome_counts_once(done.drop_last());
    }
}

/// The check-in is made once a day: where it was due, it is not due again on the same day.
pub proof fn law_once_a_day(s: Settings, today: i32, time: Seq<char>)
    ensures
        !due(s, Some(today), today, time),
{
}

/// An endpoint is never made to point to a proxy that does not listen, nor past a gate that is not
/// open; and past such a gate it is not left either.
pub proof fn law_no_endpoint_without_gate(patched: Result<bool, String>, proxy_ok: bool)
    ensures
        endpoint_action(patched, proxy_ok) == EndpointAction::Repair ==> gate_open(patched)
            && proxy_ok,
        !gate_open(patched) ==> endpoint_action(patched, proxy_ok) == EndpointAction::Uninstall,
{
}

/// Whether the endpoint of an application points to the proxy after a repair, where it did so
/// before or not, and it was made to point there or not where that was asked for.
pub open spec fn points_after(
    pointed: bool,
    patched: Result<bool, String>,
    proxy_ok: bool,
    made: bool,
) -> bool {
    let kept = pointed && proxy_ok;
    match endpoint_action(patched, proxy_ok) {
        EndpointAction::Repair => kept || made,
        EndpointAction::Leave => kept,
        EndpointAction::Uninstall => false,
    }
}

/// After a repair no endpoint points to a proxy that does not listen, nor past a gate that is not
/// open, wherever it pointed before.
pub proof fn law_no_endpoint_is_left_dead(
    pointed: bool,
    patched: Result<bool, String>,
    proxy_ok: bool,
    made: bool,
)
    ensures
        points_after(pointed, patched, proxy_ok, made) ==> proxy_ok && gate_open(patched),
{
}

/// Only a refusal of a busy server is tried again in the next round: a refused claim exactly where
/// the server was busy, and no claim that failed otherwise, nor any that was settled.
pub proof fn law_only_busy_refusals_are_tried_again(
    c: checkin::Checkin,
    status: u16,
    body: Seq<char>,
    state: Option<JsonV>,
    error: Seq<char>,
)
    ensures
        checkin::refused(c, status, body).transient <==> checkin::busy(
            checkin::code_of(checkin::claim_json(body)),
            checkin::claim_message(status, body),
        ),
        !checkin::claimed(c, status, body).transient,
        checkin::settled(c, state) matches Some(x) ==> !x.transient,
        !checkin::failed(c, c.claim_url@ + " 请求失败："@ + error, false).transient,
{
}

/// An outcome of a round stands, or its account is tried in the next round, and never both; it is
/// tried again exactly where the server was busy and a round is left.
pub proof fn law_outcome_stands_or_is_tried_again(round: usize, seen: Seq<(Account, CheckinResult)>)
    ensures
        left_over(round, seen).len() + finished(round, seen).len() == seen.len(),
        left_over(round, seen) == seen.filter(
            |x: (Account, CheckinResult)| x.1.transient && round + 1 < MAX_ROUNDS,
        ).map_values(|x: (Account, CheckinResult)| x.0),
    decreases seen.len(),
{
    let tried = |x: (Account, CheckinResult)| x.1.transient && round + 1 < MAX_ROUNDS;
    let account = |x: (Account, CheckinResult)| x.0;
    reveal(Seq::filter);
    if seen.len() > 0 {
        law_outcome_stands_or_is_tried_again(round, seen.drop_last());
        assert(left_over(round, seen) =~= seen.filter(tried).map_values(account));
    } else {
        assert(left_over(round, seen) =~= seen.filter(tried).map_values(account));
    }
}

} // verus!
