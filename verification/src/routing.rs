//! Which account of the pool serves a request.
//!
//! A conversation stays with its account. A new one goes to the account whose credits expire
//! first, then to the one with the most credits. An account that was limited cools down for a
//! while and is passed over as long as there is another one.
use crate::accounts::{Account, CreditSnapshot};
use crate::clock;
use crate::number;
use crate::table::Table;
use crate::table;
use crate::text;
use vstd::prelude::*;
use vstd::slice::slice_subrange;
use vstd::string::*;

verus! {

/// How long a conversation stays with its account after its last request, in milliseconds.
pub const STICKY_TTL: u64 = 1_800_000;

/// How long a limited account is passed over, in milliseconds.
pub const COOLDOWN_TTL: u64 = 600_000;

/// How long a credit snapshot counts as current, in seconds.
pub const SNAPSHOT_TTL: i64 = 600;

// ---------------------------------------------------------------------------
// Candidates
// ---------------------------------------------------------------------------

/// The test for an account whose id is listed.
pub open spec fn listed(ids: Seq<String>) -> spec_fn(Account) -> bool {
    |a: Account| text::has_text(ids, a.id@)
}

/// The test for an account whose id is not listed.
pub open spec fn not_listed(ids: Seq<String>) -> spec_fn(Account) -> bool {
    |a: Account| !text::has_text(ids, a.id@)
}

/// The accounts that may be charged: the selected ones, or all where nothing is selected or no
/// selected account exists.
pub open spec fn chargeable(all: Seq<Account>, selected: Seq<String>) -> Seq<Account> {
    let picked = all.filter(listed(selected));
    if selected.len() == 0 || picked.len() == 0 {
        all
    } else {
        picked
    }
}

fn clone_accounts(list: &[Account]) -> (r: Vec<Account>)
    ensures
        r@ == list@,
{
    let mut out: Vec<Account> = Vec::new();
    let mut i: usize = 0;
    while i < list.len()
        invariant
            i <= list@.len(),
            out@ == list@.take(i as int),
        decreases list@.len() - i,
    {
        out.push(list[i].clone());
        i = i + 1;
        assert(list@.take(i as int) == list@.take(i - 1).push(list@[i - 1]));
    }
    assert(list@.take(i as int) == list@);
    out
}

/// The accounts that may be charged.
pub fn billing_candidates(all: &[Account], selected: &[String]) -> (r: Vec<Account>)
    ensures
        r@ == chargeable(all@, selected@),
{
    if selected.len() == 0 {
        return clone_accounts(all);
    }
    let mut picked: Vec<Account> = Vec::new();
    let ghost keep = listed(selected@);
    let mut i: usize = 0;
    proof {
        reveal(Seq::filter);
        assert(all@.take(0).filter(keep) =~= Seq::empty());
    }
    while i < all.len()
        invariant
            i <= all@.len(),
            keep == listed(selected@),
            picked@ == all@.take(i as int).filter(keep),
        decreases all@.len() - i,
    {
        proof {
            reveal(Seq::filter);
            assert(all@.take(i + 1).drop_last() =~= all@.take(i as int));
        }
        if text::contains_text(selected, all[i].id.as_str()) {
            picked.push(all[i].clone());
        }
        i = i + 1;
    }
    assert(all@.take(i as int) =~= all@);
    if picked.len() == 0 {
        clone_accounts(all)
    } else {
        picked
    }
}

/// The accounts that may be charged and are not banned.
pub open spec fn eligible(all: Seq<Account>, selected: Seq<String>, ban: Seq<String>) -> Seq<
    Account,
> {
    chargeable(all, selected).filter(not_listed(ban))
}

pub(crate) fn drop_banned(list: &[Account], ban: &[String]) -> (r: Vec<Account>)
    ensures
        r@ == list@.filter(not_listed(ban@)),
{
    let mut out: Vec<Account> = Vec::new();
    let ghost keep = not_listed(ban@);
    let mut i: usize = 0;
    proof {
        reveal(Seq::filter);
        assert(list@.take(0).filter(keep) =~= Seq::empty());
    }
    while i < list.len()
        invariant
            i <= list@.len(),
            keep == not_listed(ban@),
            out@ == list@.take(i as int).filter(keep),
        decreases list@.len() - i,
    {
        proof {
            reveal(Seq::filter);
            assert(list@.take(i + 1).drop_last() =~= list@.take(i as int));
        }
        if !text::contains_text(ban, list[i].id.as_str()) {
            out.push(list[i].clone());
        }
        i = i + 1;
    }
    assert(list@.take(i as int) =~= list@);
    out
}

/// The items whose flag is not set, in their order.
pub open spec fn unflagged<T>(items: Seq<T>, flags: Seq<bool>) -> Seq<T>
    decreases items.len(),
{
    if items.len() == 0 {
        Seq::empty()
    } else if flags[items.len() - 1] {
        unflagged(items.drop_last(), flags)
    } else {
        unflagged(items.drop_last(), flags).push(items.last())
    }
}

/// The items whose flag is not set, or all where every flag is set.
pub open spec fn unflagged_or_all<T>(items: Seq<T>, flags: Seq<bool>) -> Seq<T> {
    if unflagged(items, flags).len() == 0 {
        items
    } else {
        unflagged(items, flags)
    }
}

/// The one list is a copy of the other.
pub open spec fn copies<T: Clone>(of: Seq<T>, r: Seq<T>) -> bool {
    of.len() == r.len() && forall|i: int| 0 <= i < r.len() ==> cloned(of[i], #[trigger] r[i])
}

/// The candidates that do not cool down, or all of them where every one does: then the upstream
/// decides, which says more than a refusal by the proxy.
pub fn available_candidates<T: Clone, F: Fn(&T) -> bool>(candidates: &[T], is_cooling: F) -> (r:
    Vec<T>)
    requires
        forall|i: int|
            0 <= i < candidates@.len() ==> is_cooling.requires((&#[trigger] candidates@[i],)),
    ensures
        exists|flags: Seq<bool>|
            #![trigger unflagged_or_all(candidates@, flags)]
            {
                &&& flags.len() == candidates@.len()
                &&& forall|i: int|
                    0 <= i < candidates@.len() ==> is_cooling.ensures(
                        (&#[trigger] candidates@[i],),
                        flags[i],
                    )
                &&& copies(unflagged_or_all(candidates@, flags), r@)
            },
{
    let mut usable: Vec<T> = Vec::new();
    let ghost mut flags: Seq<bool> = Seq::empty();
    let mut i: usize = 0;
    while i < candidates.len()
        invariant
            i <= candidates@.len(),
            forall|i: int|
                0 <= i < candidates@.len() ==> is_cooling.requires((&#[trigger] candidates@[i],)),
            flags.len() == i,
            forall|k: int|
                0 <= k < i ==> is_cooling.ensures((&#[trigger] candidates@[k],), flags[k]),
            copies(unflagged(candidates@.take(i as int), flags), usable@),
        decreases candidates@.len() - i,
    {
        let cools = is_cooling(&candidates[i]);
        let ghost before = flags;
        proof {
            flags = flags.push(cools);
            assert(candidates@.take(i + 1).drop_last() =~= candidates@.take(i as int));
            lemma_flags_prefix(candidates@.take(i as int), before, flags);
        }
        if !cools {
            usable.push(candidates[i].clone());
        }
        i = i + 1;
    }
    assert(candidates@.take(i as int) =~= candidates@);
    if usable.len() == 0 {
        let mut all: Vec<T> = Vec::new();
        let mut j: usize = 0;
        while j < candidates.len()
            invariant
                j <= candidates@.len(),
                copies(candidates@.take(j as int), all@),
            decreases candidates@.len() - j,
        {
            all.push(candidates[j].clone());
            j = j + 1;
        }
        assert(candidates@.take(j as int) =~= candidates@);
        assert(copies(unflagged_or_all(candidates@, flags), all@));
        all
    } else {
        assert(copies(unflagged_or_all(candidates@, flags), usable@));
        usable
    }
}

proof fn lemma_flags_prefix<T>(items: Seq<T>, a: Seq<bool>, b: Seq<bool>)
    requires
        items.len() <= a.len(),
        items.len() <= b.len(),
        forall|i: int| 0 <= i < items.len() ==> a[i] == b[i],
    ensures
        unflagged(items, a) == unflagged(items, b),
    decreases items.len(),
{
    if items.len() > 0 {
        lemma_flags_prefix(items.drop_last(), a, b);
    }
}

// ---------------------------------------------------------------------------
// The pool
// ---------------------------------------------------------------------------

/// What the proxy remembers of the pool: which conversation is with which account, and which
/// accounts cool down.
pub struct Pool {
    pub sticky: Table<String>,
    pub cooldown: Table<()>,
}

/// An account cools down.
pub open spec fn cools(cooldown: Map<Seq<char>, (u64, ())>, id: Seq<char>, now: u64) -> bool {
    cooldown.contains_key(id) && table::fresh(cooldown[id].0, now, COOLDOWN_TTL)
}

/// The test for an account that does not cool down.
pub open spec fn warm(cooldown: Map<Seq<char>, (u64, ())>, now: u64) -> spec_fn(Account) -> bool {
    |a: Account| !cools(cooldown, a.id@, now)
}

/// The accounts that a request may go to: those that do not cool down, or all where every one
/// does.
pub open spec fn usable(
    candidates: Seq<Account>,
    cooldown: Map<Seq<char>, (u64, ())>,
    now: u64,
) -> Seq<Account> {
    let kept = candidates.filter(warm(cooldown, now));
    if kept.len() == 0 {
        candidates
    } else {
        kept
    }
}

/// The account of a conversation, if its last request is not too long ago.
pub open spec fn stuck_to(sticky: Map<Seq<char>, (u64, String)>, conv: Seq<char>, now: u64) -> Option<
    Seq<char>,
> {
    if sticky.contains_key(conv) && table::fresh(sticky[conv].0, now, STICKY_TTL) {
        Some(sticky[conv].1@)
    } else {
        None
    }
}

/// What is remembered of conversations after one was looked up: old ones are forgotten, and the
/// one that was found counts from now.
pub open spec fn sticky_touched(
    sticky: Map<Seq<char>, (u64, String)>,
    conv: Seq<char>,
    now: u64,
) -> Map<Seq<char>, (u64, String)> {
    let kept = table::live(sticky, now, STICKY_TTL);
    if kept.contains_key(conv) {
        kept.insert(conv, (now, kept[conv].1))
    } else {
        kept
    }
}

impl Pool {
    /// A pool of which nothing is remembered.
    pub fn new() -> (r: Self)
        ensures
            r.sticky@ == Map::<Seq<char>, (u64, String)>::empty(),
            r.cooldown@ == Map::<Seq<char>, (u64, ())>::empty(),
    {
        Pool { sticky: Table::new(), cooldown: Table::new() }
    }

    /// Whether an account cools down.
    pub fn cooling(&self, id: &str, now: u64) -> (r: bool)
        ensures
            r == cools(self.cooldown@, id@, now),
    {
        match self.cooldown.get(id) {
            Some((at, _)) => table::is_fresh(at, now, COOLDOWN_TTL),
            None => false,
        }
    }

    /// Lets an account cool down from now on.
    pub fn cool_down(&mut self, id: &str, now: u64)
        ensures
            final(self).cooldown@ == old(self).cooldown@.insert(id@, (now, ())),
            final(self).sticky@ == old(self).sticky@,
    {
        self.cooldown.put(id.to_owned(), now, ());
    }

    /// Looks up the account of a conversation; from now on it counts as used just now.
    pub fn sticky_hit(&mut self, conv: &str, now: u64) -> (r: Option<String>)
        ensures
            text::opt_text(r) == stuck_to(old(self).sticky@, conv@, now),
            final(self).sticky@ == sticky_touched(old(self).sticky@, conv@, now),
            final(self).cooldown@ == old(self).cooldown@,
    {
        self.sticky.expire(now, STICKY_TTL);
        let id = match self.sticky.get(conv) {
            Some((_, id)) => id.clone(),
            None => {
                return None;
            },
        };
        self.sticky.put(conv.to_owned(), now, id.clone());
        Some(id)
    }

    /// Binds a conversation to an account. Tells whether it was with another one or with none.
    pub fn sticky_put(&mut self, conv: &str, id: String, now: u64) -> (r: bool)
        ensures
            r == !(old(self).sticky@.contains_key(conv@) && old(self).sticky@[conv@].1@ == id@),
            final(self).sticky@ == old(self).sticky@.insert(conv@, (now, id)),
            final(self).cooldown@ == old(self).cooldown@,
    {
        let changed = match self.sticky.get(conv) {
            Some((_, cur)) => !text::same_text(cur.as_str(), id.as_str()),
            None => true,
        };
        self.sticky.put(conv.to_owned(), now, id);
        changed
    }

    /// Unbinds a conversation.
    pub fn sticky_remove(&mut self, conv: &str)
        ensures
            final(self).sticky@ == old(self).sticky@.remove(conv@),
            final(self).cooldown@ == old(self).cooldown@,
    {
        self.sticky.remove(conv);
    }
}

/// Filtering by a test and leaving out what is flagged agree, where the flags are the test.
proof fn lemma_flags_filter(
    items: Seq<Account>,
    flags: Seq<bool>,
    keep: spec_fn(Account) -> bool,
)
    requires
        items.len() <= flags.len(),
        forall|i: int| 0 <= i < items.len() ==> flags[i] == !keep(#[trigger] items[i]),
    ensures
        unflagged(items, flags) == items.filter(keep),
    decreases items.len(),
{
    reveal(Seq::filter);
    if items.len() > 0 {
        lemma_flags_filter(items.drop_last(), flags, keep);
    } else {
        assert(items.filter(keep) =~= Seq::empty());
    }
}

pub(crate) fn usable_accounts(candidates: &[Account], pool: &Pool, now: u64) -> (r: Vec<Account>)
    ensures
        r@ == usable(candidates@, pool.cooldown@, now),
{
    let test = |a: &Account| -> (b: bool)
        ensures
            b == cools(pool.cooldown@, a.id@, now),
        { pool.cooling(a.id.as_str(), now) };
    let out = available_candidates(candidates, test);
    proof {
        let flags = choose|flags: Seq<bool>|
            #![trigger unflagged_or_all(candidates@, flags)]
            {
                &&& flags.len() == candidates@.len()
                &&& forall|i: int|
                    0 <= i < candidates@.len() ==> test.ensures(
                        (&#[trigger] candidates@[i],),
                        flags[i],
                    )
                &&& copies(unflagged_or_all(candidates@, flags), out@)
            };
        lemma_flags_filter(candidates@, flags, warm(pool.cooldown@, now));
        assert(out@ =~= unflagged_or_all(candidates@, flags));
    }
    out
}

// ---------------------------------------------------------------------------
// Credits
// ---------------------------------------------------------------------------

/// What is known of the credits of an account.
#[derive(Clone, Copy)]
pub struct CreditInfo {
    /// The earliest expiry of credits that are left, in milliseconds since 1970.
    pub expiry_ms: Option<i64>,
    /// The credits that are left.
    pub credits: Option<i64>,
    /// Whether the credits have no limit.
    pub unlimited: bool,
}

impl Default for CreditInfo {
    fn default() -> (r: Self)
        ensures
            r.expiry_ms is None,
            r.credits is None,
            !r.unlimited,
    {
        CreditInfo { expiry_ms: None, credits: None, unlimited: false }
    }
}

/// The expiry by which accounts are ordered: an unknown one comes last.
pub open spec fn rank_expiry(info: CreditInfo) -> int {
    match info.expiry_ms {
        Some(t) => t as int,
        None => i64::MAX as int,
    }
}

/// The credits by which accounts are ordered: unknown ones count as none.
pub open spec fn rank_credits(info: CreditInfo) -> int {
    match info.credits {
        Some(c) => c as int,
        None => 0,
    }
}

/// An account is used before another one: its credits expire earlier, or at the same time and
/// there are more of them.
pub open spec fn ranks_before(a: CreditInfo, b: CreditInfo) -> bool {
    rank_expiry(a) < rank_expiry(b) || (rank_expiry(a) == rank_expiry(b) && rank_credits(a)
        > rank_credits(b))
}

/// An account is known to have no credits.
pub open spec fn spent(info: CreditInfo) -> bool {
    info.credits == Some(0i64)
}

fn comes_first(a: &CreditInfo, b: &CreditInfo) -> (r: bool)
    ensures
        r == ranks_before(*a, *b),
{
    let x: i64 = match a.expiry_ms {
        Some(t) => t,
        None => i64::MAX,
    };
    let y: i64 = match b.expiry_ms {
        Some(t) => t,
        None => i64::MAX,
    };
    let c: i64 = match a.credits {
        Some(c) => c,
        None => 0,
    };
    let d: i64 = match b.credits {
        Some(c) => c,
        None => 0,
    };
    x < y || (x == y && c > d)
}

fn is_spent(info: &CreditInfo) -> (r: bool)
    ensures
        r == spent(*info),
{
    match info.credits {
        Some(c) => c == 0,
        None => false,
    }
}

/// `i` is the first of the best accounts with credits.
pub open spec fn best(infos: Seq<CreditInfo>, i: int) -> bool {
    &&& 0 <= i < infos.len()
    &&& !spent(infos[i])
    &&& forall|j: int|
        0 <= j < infos.len() && !spent(#[trigger] infos[j]) ==> !ranks_before(infos[j], infos[i])
    &&& forall|j: int|
        0 <= j < i && !spent(#[trigger] infos[j]) ==> ranks_before(infos[i], infos[j])
}

/// The account to use: the first of the best with credits; where all are spent, the first one, so
/// that the upstream may say so.
pub fn pick_index(ids: &[String], infos: &[CreditInfo]) -> (r: Option<usize>)
    ensures
        match r {
            Some(i) => best(infos@, i as int) || (i == 0 && ids@.len() > 0 && forall|j: int|
                0 <= j < infos@.len() ==> spent(#[trigger] infos@[j])),
            None => ids@.len() == 0 && forall|j: int|
                0 <= j < infos@.len() ==> spent(#[trigger] infos@[j]),
        },
{
    let mut chosen: Option<usize> = None;
    let mut i: usize = 0;
    while i < infos.len()
        invariant
            i <= infos@.len(),
            match chosen {
                Some(b) => best(infos@.take(i as int), b as int),
                None => forall|j: int| 0 <= j < i ==> spent(#[trigger] infos@[j]),
            },
        decreases infos@.len() - i,
    {
        let ghost t = infos@.take(i + 1);
        let ghost before = infos@.take(i as int);
        assert(forall|j: int| 0 <= j < i ==> t[j] == before[j]);
        assert(forall|j: int| 0 <= j < i ==> t[j] == infos@[j]);
        assert(t[i as int] == infos@[i as int]);
        if !is_spent(&infos[i]) {
            match chosen {
                Some(b) => {
                    if comes_first(&infos[i], &infos[b]) {
                        chosen = Some(i);
                        assert(best(t, i as int));
                    } else {
                        assert(best(t, b as int));
                    }
                },
                None => {
                    chosen = Some(i);
                    assert(best(t, i as int));
                },
            }
        } else {
            if let Some(b) = chosen {
                assert(best(t, b as int));
            }
        }
        i = i + 1;
    }
    assert(infos@.take(i as int) =~= infos@);
    match chosen {
        Some(b) => Some(b),
        None => if ids.len() == 0 {
            None
        } else {
            Some(0)
        },
    }
}

/// A snapshot has to be taken again: there is none, its time cannot be read, or it is too old.
pub open spec fn stale(fetched_at: Option<Seq<char>>, now: int) -> bool {
    match fetched_at {
        Some(t) => match clock::timestamp_seconds(t, clock::TIMESTAMP_FORMAT@) {
            Some(s) => now - s >= SNAPSHOT_TTL,
            None => true,
        },
        None => true,
    }
}

/// The time of an optional snapshot.
pub open spec fn taken_at(snap: Option<CreditSnapshot>) -> Option<Seq<char>> {
    match snap {
        Some(s) => Some(s.fetched_at@),
        None => None,
    }
}

/// The time of a snapshot that may be missing.
pub open spec fn read_at(snap: Option<&CreditSnapshot>) -> Option<Seq<char>> {
    match snap {
        Some(s) => Some(s.fetched_at@),
        None => None,
    }
}

/// Whether a snapshot has to be taken again, `now` being the local time in seconds.
pub fn snapshot_stale_at(snap: &Option<CreditSnapshot>, now: i64) -> (r: bool)
    ensures
        r == stale(taken_at(*snap), now as int),
{
    match snap {
        Some(s) => match clock::parse_timestamp(s.fetched_at.as_str(), clock::TIMESTAMP_FORMAT) {
            Some(t) => older_than(now, t),
            None => true,
        },
        None => true,
    }
}

/// Whether a snapshot of time `t` is too old at time `now`, both in seconds.
pub fn older_than(now: i64, t: i64) -> (r: bool)
    ensures
        r == (now - t >= SNAPSHOT_TTL),
{
    (now as i128) - (t as i128) >= SNAPSHOT_TTL as i128
}

/// Whether a snapshot has to be taken again, by the present local time.
pub fn snapshot_stale(snap: Option<&CreditSnapshot>) -> (r: bool)
    ensures
        snap is None ==> r,
        exists|now: int| r == #[trigger] stale(read_at(snap), now),
{
    let now: i64 = clock::local_now_seconds();
    let copy = match snap {
        Some(s) => Some(s.clone()),
        None => None,
    };
    let r = snapshot_stale_at(&copy, now);
    assert(taken_at(copy) == read_at(snap));
    assert(r == stale(read_at(snap), now as int));
    r
}

/// What is known of the credits by a snapshot.
pub open spec fn info_of(snap: Option<CreditSnapshot>) -> CreditInfo {
    match snap {
        Some(s) => CreditInfo {
            expiry_ms: s.earliest_expiry_ms,
            credits: s.credits,
            unlimited: s.unlimited,
        },
        None => CreditInfo { expiry_ms: None, credits: None, unlimited: false },
    }
}

pub(crate) fn info_from(snap: &Option<CreditSnapshot>) -> (r: CreditInfo)
    ensures
        r == info_of(*snap),
{
    match snap {
        Some(s) => CreditInfo {
            expiry_ms: s.earliest_expiry_ms,
            credits: s.credits,
            unlimited: s.unlimited,
        },
        None => CreditInfo { expiry_ms: None, credits: None, unlimited: false },
    }
}

/// A new snapshot that says nothing of the credits keeps what the last one said.
pub open spec fn merged(snap: CreditSnapshot, prev: Option<CreditSnapshot>) -> CreditSnapshot {
    if snap.credits is None && !snap.unlimited {
        match prev {
            Some(p) => CreditSnapshot {
                credits: p.credits,
                unlimited: p.unlimited,
                earliest_expiry_ms: p.earliest_expiry_ms,
                fetched_at: snap.fetched_at,
            },
            None => snap,
        }
    } else {
        snap
    }
}

/// Keeps what the last snapshot said where the new one says nothing.
pub fn merge_snapshot(snap: CreditSnapshot, prev: &Option<CreditSnapshot>) -> (r: CreditSnapshot)
    ensures
        r == merged(snap, *prev),
{
    if snap.credits.is_none() && !snap.unlimited {
        match prev {
            Some(p) => CreditSnapshot {
                credits: p.credits,
                unlimited: p.unlimited,
                earliest_expiry_ms: p.earliest_expiry_ms,
                fetched_at: snap.fetched_at,
            },
            None => snap,
        }
    } else {
        snap
    }
}

// ---------------------------------------------------------------------------
// Words
// ---------------------------------------------------------------------------

/// The credits in words; `day` is the day of their expiry, if there is one.
pub open spec fn credits_words(info: CreditInfo, day: Option<Seq<char>>) -> Seq<char> {
    if info.unlimited {
        "积分不限量"@
    } else {
        let base = match info.credits {
            Some(c) => "剩 "@ + number::signed_decimal(c as int) + " 积分"@,
            None => "积分未知"@,
        };
        match day {
            Some(d) => base + " · "@ + d + " 到期"@,
            None => base,
        }
    }
}

/// The expiry of the credits is a date.
pub open spec fn has_expiry_day(info: CreditInfo) -> bool {
    info.expiry_ms matches Some(t) && clock::millis_have_date(t as int)
}

/// Puts the credits into words; `day` is the day of their expiry.
pub fn credits_text_with(info: CreditInfo, day: Option<String>) -> (r: String)
    ensures
        r@ == credits_words(info, text::opt_text(day)),
{
    if info.unlimited {
        return "积分不限量".to_owned();
    }
    let base = match info.credits {
        Some(c) => {
            let n = number::to_signed_decimal(c);
            text::plus(text::plus("剩 ".to_owned(), n.as_str()), " 积分")
        },
        None => "积分未知".to_owned(),
    };
    match day {
        Some(d) => text::plus(text::plus(text::plus(base, " · "), d.as_str()), " 到期"),
        None => base,
    }
}

/// Puts the credits into words. The day of their expiry is shown on the local calendar, so that its
/// text is not stated.
pub fn credits_text(info: CreditInfo) -> (r: String)
    ensures
        exists|day: Option<Seq<char>>|
            (day is Some <==> has_expiry_day(info)) && r@ == #[trigger] credits_words(info, day),
{
    let day = match info.expiry_ms {
        Some(t) => clock::local_date(t, clock::DAY_FORMAT),
        None => None,
    };
    let ghost d = text::opt_text(day);
    let r = credits_text_with(info, day);
    assert(r@ == credits_words(info, d));
    r
}

/// The first characters of the id of a conversation.
pub open spec fn short_id(conv: Seq<char>) -> Seq<char> {
    if conv.len() > 8 {
        conv.subrange(0, 8)
    } else {
        conv
    }
}

/// Shortens the id of a conversation for the journal.
pub fn short_conv(conv: &str) -> (r: String)
    ensures
        r@ == short_id(conv@),
{
    let chars = text::to_chars(conv);
    if chars.len() > 8 {
        text::to_text(slice_subrange(chars.as_slice(), 0, 8))
    } else {
        text::to_text(chars.as_slice())
    }
}

/// Credits that were looked up count for ten minutes; after that, or where their time cannot be
/// read, or where they were never looked up, they are looked up again.
pub proof fn law_credits_count_for_ten_minutes(fetched_at: Seq<char>, now: int)
    ensures
        stale(None, now),
        match clock::timestamp_seconds(fetched_at, "%Y-%m-%d %H:%M:%S"@) {
            Some(at) => stale(Some(fetched_at), now) <==> now >= at + 600,
            None => stale(Some(fetched_at), now),
        },
{
}

/// A conversation is shown by its first characters, eight at most, and whole where it has no more.
pub proof fn law_short_id_begins_the_id(conv: Seq<char>)
    ensures
        short_id(conv).len() == (if conv.len() < 8 {
            conv.len()
        } else {
            8
        }),
        short_id(conv) == conv.take(short_id(conv).len() as int),
{
    assert(short_id(conv) =~= conv.take(short_id(conv).len() as int));
}

} // verus!
