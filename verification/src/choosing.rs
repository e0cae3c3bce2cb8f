//! Choosing an account for a request, in two steps: what is known decides, or the credits of the
//! candidates are looked up first.
use crate::accounts::{Account, CreditSnapshot};
use crate::number;
use crate::routing;
use crate::routing::{CreditInfo, Pool};
use crate::text;
use vstd::prelude::*;
use vstd::string::*;

verus! {

/// The first account with the given id.
pub open spec fn first_with(list: Seq<Account>, id: Seq<char>) -> Option<Account>
    decreases list.len(),
{
    if list.len() == 0 {
        None
    } else if list[0].id@ == id {
        Some(list[0])
    } else {
        first_with(list.subrange(1, list.len() as int), id)
    }
}

pub(crate) fn find_account(list: &[Account], id: &str) -> (r: Option<Account>)
    ensures
        r == first_with(list@, id@),
{
    let mut i: usize = 0;
    assert(list@.subrange(0, list@.len() as int) == list@);
    while i < list.len()
        invariant
            i <= list@.len(),
            first_with(list@, id@) == first_with(list@.subrange(i as int, list@.len() as int), id@),
        decreases list@.len() - i,
    {
        if text::same_text(list[i].id.as_str(), id) {
            return Some(list[i].clone());
        }
        assert(list@.subrange(i as int, list@.len() as int).subrange(1, list@.len() - i)
            == list@.subrange(i + 1, list@.len() as int));
        i = i + 1;
    }
    None
}

/// What the first step comes to.
pub enum Choice {
    /// No account may serve the request.
    Nobody,
    /// The conversation goes on with its account.
    Settled(Account),
    /// One of these accounts is to serve the request; the credits of those that are flagged have
    /// to be looked up first.
    Fetch(Vec<Account>, Vec<bool>),
}

/// The accounts that a request may go to.
pub open spec fn open_to(
    pool: Pool,
    all: Seq<Account>,
    selected: Seq<String>,
    ban: Seq<String>,
    now: u64,
) -> Seq<Account> {
    routing::usable(routing::eligible(all, selected, ban), pool.cooldown@, now)
}

/// The account that the conversation of a request is with, if the request may go to it.
pub open spec fn settled(
    pool: Pool,
    list: Seq<Account>,
    conv: Option<Seq<char>>,
    now: u64,
) -> Option<Account> {
    match conv {
        Some(c) => match routing::stuck_to(pool.sticky@, c, now) {
            Some(id) => first_with(list, id),
            None => None,
        },
        None => None,
    }
}

/// The first step: goes on with the account of the conversation, or asks for the credits that are
/// not known well enough. `now` is a running clock in milliseconds, `local` the local time in
/// seconds.
pub fn choose_begin(
    pool: &mut Pool,
    all: &[Account],
    selected: &[String],
    ban: &[String],
    conv: &Option<String>,
    now: u64,
    local: i64,
) -> (r: Choice)
    ensures
        ({
            let list = open_to(*old(pool), all@, selected@, ban@, now);
            let here = settled(*old(pool), list, text::opt_text(*conv), now);
            match r {
                Choice::Nobody => list.len() == 0,
                Choice::Settled(a) => here == Some(a),
                Choice::Fetch(l, flags) => {
                    &&& l@ == list
                    &&& list.len() > 0
                    &&& here is None
                    &&& flags@.len() == l@.len()
                    &&& forall|i: int|
                        0 <= i < flags@.len() ==> #[trigger] flags@[i] == routing::stale(
                            routing::taken_at(l@[i].credit_snapshot),
                            local as int,
                        )
                },
            }
        }),
        final(pool).cooldown@ == old(pool).cooldown@,
        final(pool).sticky@ == (if conv is Some && open_to(
            *old(pool),
            all@,
            selected@,
            ban@,
            now,
        ).len() > 0 {
            routing::sticky_touched(old(pool).sticky@, conv->0@, now)
        } else {
            old(pool).sticky@
        }),
{
    let chargeable = routing::billing_candidates(all, selected);
    let candidates = routing::drop_banned(chargeable.as_slice(), ban);
    let list = routing::usable_accounts(candidates.as_slice(), pool, now);
    if list.len() == 0 {
        return Choice::Nobody;
    }
    if let Some(c) = conv {
        if let Some(id) = pool.sticky_hit(c.as_str(), now) {
            if let Some(a) = find_account(list.as_slice(), id.as_str()) {
                return Choice::Settled(a);
            }
        }
    }
    let mut flags: Vec<bool> = Vec::new();
    let mut i: usize = 0;
    while i < list.len()
        invariant
            i <= list@.len(),
            flags@.len() == i,
            forall|k: int|
                0 <= k < i ==> #[trigger] flags@[k] == routing::stale(
                    routing::taken_at(list@[k].credit_snapshot),
                    local as int,
                ),
        decreases list@.len() - i,
    {
        flags.push(routing::snapshot_stale_at(&list[i].credit_snapshot, local));
        i = i + 1;
    }
    Choice::Fetch(list, flags)
}

/// What is known of the credits of a candidate, after its credits were looked up or not.
pub open spec fn known(a: Account, fetched: Option<CreditSnapshot>) -> CreditInfo {
    match fetched {
        Some(s) => routing::info_of(Some(routing::merged(s, a.credit_snapshot))),
        None => routing::info_of(a.credit_snapshot),
    }
}

/// What is known of the credits of all candidates.
pub open spec fn all_known(list: Seq<Account>, fetched: Seq<Option<CreditSnapshot>>) -> Seq<
    CreditInfo,
> {
    Seq::new(list.len(), |i: int| known(list[i], fetched[i]))
}

/// The accounts with a snapshot written to the first one with the given id.
pub open spec fn with_snapshot(all: Seq<Account>, id: Seq<char>, snap: CreditSnapshot) -> Seq<
    Account,
>
    decreases all.len(),
{
    if all.len() == 0 {
        all
    } else if all[0].id@ == id {
        all.update(0, Account { credit_snapshot: Some(snap), ..all[0] })
    } else {
        seq![all[0]] + with_snapshot(all.subrange(1, all.len() as int), id, snap)
    }
}

/// The accounts after the first `n` candidates were looked up.
pub open spec fn with_fetched(
    all: Seq<Account>,
    list: Seq<Account>,
    fetched: Seq<Option<CreditSnapshot>>,
    n: nat,
) -> Seq<Account>
    decreases n,
{
    if n == 0 {
        all
    } else {
        let i = n - 1;
        let before = with_fetched(all, list, fetched, i as nat);
        match fetched[i] {
            Some(s) => with_snapshot(
                before,
                list[i].id@,
                routing::merged(s, list[i].credit_snapshot),
            ),
            None => before,
        }
    }
}

/// Some credits were looked up.
pub open spec fn any_fetched(fetched: Seq<Option<CreditSnapshot>>) -> bool {
    exists|i: int| 0 <= i < fetched.len() && (#[trigger] fetched[i]) is Some
}

/// The note of a conversation that begins with an account.
pub open spec fn route_words(
    conv: Seq<char>,
    name: Seq<char>,
    credits: Seq<char>,
    others: nat,
) -> Seq<char> {
    "会话 "@ + routing::short_id(conv) + " 开始使用账号「"@ + name + "」（"@ + credits + "，备选 "@
        + number::decimal(others) + " 个）"@
}

/// The account that was chosen.
pub struct Chosen {
    pub account: Account,
    /// Its place among the candidates.
    pub index: usize,
    /// Whether the accounts have changed and are to be stored.
    pub persist: bool,
    /// The note that a conversation begins with the account.
    pub note: Option<String>,
}

/// Finds the first account with the given id and writes a snapshot to it.
fn store_snapshot(all: &mut Vec<Account>, id: &str, snap: CreditSnapshot)
    ensures
        final(all)@ == with_snapshot(old(all)@, id@, snap),
{
    let mut i: usize = 0;
    let ghost start = all@;
    assert(start.subrange(0, start.len() as int) == start);
    assert(start.take(0) + with_snapshot(start, id@, snap) == with_snapshot(start, id@, snap));
    while i < all.len()
        invariant
            i <= all@.len(),
            all@ == start,
            start == old(all)@,
            with_snapshot(start, id@, snap) == start.take(i as int) + with_snapshot(
                start.subrange(i as int, start.len() as int),
                id@,
                snap,
            ),
        decreases all@.len() - i,
    {
        let ghost rest = start.subrange(i as int, start.len() as int);
        if text::same_text(all[i].id.as_str(), id) {
            let mut a = all[i].clone();
            a.credit_snapshot = Some(snap);
            all.set(i, a);
            assert(rest.update(0, a) == with_snapshot(rest, id@, snap));
            assert(all@ == start.take(i as int) + rest.update(0, a));
            return;
        }
        proof {
            let next = start.subrange(i + 1, start.len() as int);
            assert(rest.subrange(1, rest.len() as int) == next);
            assert(start.take(i as int) + (seq![rest[0]] + with_snapshot(next, id@, snap))
                == start.take(i + 1) + with_snapshot(next, id@, snap));
        }
        i = i + 1;
    }
    assert(start.take(i as int) + start.subrange(i as int, start.len() as int) == start);
}

/// The second step: chooses one of the candidates by what is known of their credits, stores what
/// was looked up, and binds the conversation to the chosen account.
pub fn choose_finish(
    pool: &mut Pool,
    all: &mut Vec<Account>,
    list: &[Account],
    fetched: Vec<Option<CreditSnapshot>>,
    conv: &Option<String>,
    now: u64,
) -> (r: Chosen)
    requires
        list@.len() > 0,
        fetched@.len() == list@.len(),
    ensures
        ({
            let infos = all_known(list@, fetched@);
            &&& r.index < list@.len()
            &&& r.account == list@[r.index as int]
            &&& routing::best(infos, r.index as int) || (r.index == 0 && forall|j: int|
                0 <= j < infos.len() ==> routing::spent(#[trigger] infos[j]))
            &&& r.persist == any_fetched(fetched@)
            &&& r.note is Some <==> conv is Some && !(old(pool).sticky@.contains_key(conv->0@)
                && old(pool).sticky@[conv->0@].1@ == r.account.id@)
            &&& r.note is Some ==> exists|day: Option<Seq<char>>|
                (day is Some <==> routing::has_expiry_day(infos[r.index as int])) && r.note->0@
                    == route_words(
                    conv->0@,
                    r.account.name@,
                    #[trigger] routing::credits_words(infos[r.index as int], day),
                    list@.len(),
                )
        }),
        final(all)@ == with_fetched(old(all)@, list@, fetched@, list@.len()),
        final(pool).cooldown@ == old(pool).cooldown@,
        final(pool).sticky@ == (match conv {
            Some(c) => old(pool).sticky@.insert(c@, (now, r.account.id)),
            None => old(pool).sticky@,
        }),
{
    let mut infos: Vec<CreditInfo> = Vec::new();
    let mut ids: Vec<String> = Vec::new();
    let mut persist = false;
    let ghost start = all@;
    let mut i: usize = 0;
    while i < list.len()
        invariant
            i <= list@.len(),
            fetched@.len() == list@.len(),
            infos@.len() == i,
            ids@.len() == i,
            forall|k: int| 0 <= k < i ==> #[trigger] infos@[k] == known(list@[k], fetched@[k]),
            all@ == with_fetched(start, list@, fetched@, i as nat),
            persist == exists|k: int| 0 <= k < i && (#[trigger] fetched@[k]) is Some,
        decreases list@.len() - i,
    {
        ids.push(list[i].id.clone());
        match &fetched[i] {
            Some(s) => {
                let snap = routing::merge_snapshot(s.clone(), &list[i].credit_snapshot);
                let kept = Some(snap.clone());
                infos.push(routing::info_from(&kept));
                store_snapshot(all, list[i].id.as_str(), snap);
                persist = true;
                assert(fetched@[i as int] is Some);
            },
            None => {
                infos.push(routing::info_from(&list[i].credit_snapshot));
            },
        }
        i = i + 1;
    }
    assert(infos@ =~= all_known(list@, fetched@));
    let index: usize = match routing::pick_index(ids.as_slice(), infos.as_slice()) {
        Some(index) => index,
        None => 0,
    };
    let account = list[index].clone();
    let note = match conv {
        Some(c) => {
            if pool.sticky_put(c.as_str(), account.id.clone(), now) {
                let credits = routing::credits_text(infos[index]);
                let short = routing::short_conv(c.as_str());
                let n = number::to_decimal(list.len() as u64);
                let a = text::plus(text::plus("会话 ".to_owned(), short.as_str()), " 开始使用账号「");
                let b = text::plus(text::plus(a, account.name.as_str()), "」（");
                let d = text::plus(text::plus(b, credits.as_str()), "，备选 ");
                Some(text::plus(text::plus(d, n.as_str()), " 个）"))
            } else {
                None
            }
        },
        None => None,
    };
    Chosen { account, index, persist, note }
}

// ---------------------------------------------------------------------------
// Laws
// ---------------------------------------------------------------------------

/// What a filter keeps passes its test and stood in the list.
proof fn lemma_filter_keeps(list: Seq<Account>, keep: spec_fn(Account) -> bool)
    ensures
        forall|i: int|
            0 <= i < list.filter(keep).len() ==> keep(#[trigger] list.filter(keep)[i])
                && list.contains(list.filter(keep)[i]),
        forall|i: int|
            0 <= i < list.len() && keep(#[trigger] list[i]) ==> list.filter(keep).len() > 0,
    decreases list.len(),
{
    reveal(Seq::filter);
    if list.len() > 0 {
        let before = list.drop_last();
        lemma_filter_keeps(before, keep);
        let kept = list.filter(keep);
        assert forall|i: int| 0 <= i < kept.len() implies keep(#[trigger] kept[i]) && list.contains(
            kept[i],
        ) by {
            if i < before.filter(keep).len() {
                assert(kept[i] == before.filter(keep)[i]);
                let j = choose|j: int| 0 <= j < before.len() && before[j] == kept[i];
                assert(list[j] == kept[i]);
            } else {
                assert(list[list.len() - 1] == kept[i]);
            }
        }
        assert forall|i: int| 0 <= i < list.len() && keep(#[trigger] list[i]) implies kept.len()
            > 0 by {
            if i < before.len() {
                assert(keep(before[i]));
            }
        }
    }
}

/// A banned account serves no request.
pub proof fn law_banned_serves_nothing(
    pool: Pool,
    all: Seq<Account>,
    selected: Seq<String>,
    ban: Seq<String>,
    now: u64,
    i: int,
)
    requires
        0 <= i < open_to(pool, all, selected, ban, now).len(),
    ensures
        !text::has_text(ban, open_to(pool, all, selected, ban, now)[i].id@),
{
    let el = routing::eligible(all, selected, ban);
    let us = open_to(pool, all, selected, ban, now);
    lemma_filter_keeps(routing::chargeable(all, selected), routing::not_listed(ban));
    lemma_filter_keeps(el, routing::warm(pool.cooldown@, now));
    if el.filter(routing::warm(pool.cooldown@, now)).len() > 0 {
        assert(el.contains(us[i]));
        let j = choose|j: int| 0 <= j < el.len() && el[j] == us[i];
        assert(routing::not_listed(ban)(el[j]));
    } else {
        assert(routing::not_listed(ban)(el[i]));
    }
}

/// Where a selected account exists, only selected accounts are charged.
pub proof fn law_only_selected_are_charged(
    pool: Pool,
    all: Seq<Account>,
    selected: Seq<String>,
    ban: Seq<String>,
    now: u64,
    i: int,
)
    requires
        0 <= i < open_to(pool, all, selected, ban, now).len(),
        exists|k: int| 0 <= k < all.len() && text::has_text(selected, (#[trigger] all[k]).id@),
    ensures
        text::has_text(selected, open_to(pool, all, selected, ban, now)[i].id@),
{
    let ch = routing::chargeable(all, selected);
    let el = routing::eligible(all, selected, ban);
    let us = open_to(pool, all, selected, ban, now);
    let k = choose|k: int| 0 <= k < all.len() && text::has_text(selected, (#[trigger] all[k]).id@);
    lemma_filter_keeps(all, routing::listed(selected));
    assert(routing::listed(selected)(all[k]));
    lemma_filter_keeps(ch, routing::not_listed(ban));
    lemma_filter_keeps(el, routing::warm(pool.cooldown@, now));
    if el.filter(routing::warm(pool.cooldown@, now)).len() > 0 {
        assert(el.contains(us[i]));
    } else {
        assert(el[i] == us[i]);
    }
    let j = choose|j: int| 0 <= j < el.len() && el[j] == us[i];
    assert(ch.contains(el[j]));
    let n = choose|n: int| 0 <= n < ch.len() && ch[n] == el[j];
    assert(routing::listed(selected)(ch[n]));
}

/// Where a candidate does not cool down, no request goes to one that does.
pub proof fn law_cooling_is_passed_over(
    pool: Pool,
    all: Seq<Account>,
    selected: Seq<String>,
    ban: Seq<String>,
    now: u64,
    i: int,
)
    requires
        0 <= i < open_to(pool, all, selected, ban, now).len(),
        exists|k: int|
            0 <= k < routing::eligible(all, selected, ban).len() && !routing::cools(
                pool.cooldown@,
                (#[trigger] routing::eligible(all, selected, ban)[k]).id@,
                now,
            ),
    ensures
        !routing::cools(
            pool.cooldown@,
            open_to(pool, all, selected, ban, now)[i].id@,
            now,
        ),
{
    let el = routing::eligible(all, selected, ban);
    let k = choose|k: int|
        0 <= k < el.len() && !routing::cools(pool.cooldown@, (#[trigger] el[k]).id@, now);
    lemma_filter_keeps(el, routing::warm(pool.cooldown@, now));
    assert(routing::warm(pool.cooldown@, now)(el[k]));
    assert(routing::warm(pool.cooldown@, now)(el.filter(routing::warm(pool.cooldown@, now))[i]));
}

/// A conversation stays with its account: as long as its last request is not too long ago and the
/// account may still serve it, the next request goes to an account with the same id.
pub proof fn law_conversation_stays(
    before: Map<Seq<char>, (u64, String)>,
    after: Pool,
    list: Seq<Account>,
    conv: Seq<char>,
    id: String,
    bound: u64,
    now: u64,
)
    requires
        after.sticky@ == before.insert(conv, (bound, id)),
        now - bound < routing::STICKY_TTL,
        exists|i: int| 0 <= i < list.len() && (#[trigger] list[i]).id@ == id@,
    ensures
        settled(after, list, Some(conv), now) matches Some(a) && a.id@ == id@,
{
    lemma_first_with(list, id@);
}

/// A conversation that was looked up counts as used just then.
pub proof fn law_use_renews_the_binding(
    sticky: Map<Seq<char>, (u64, String)>,
    conv: Seq<char>,
    now: u64,
    later: u64,
)
    requires
        routing::stuck_to(sticky, conv, now) is Some,
        later - now < routing::STICKY_TTL,
    ensures
        routing::stuck_to(routing::sticky_touched(sticky, conv, now), conv, later)
            == routing::stuck_to(sticky, conv, now),
{
}

proof fn lemma_first_with(list: Seq<Account>, id: Seq<char>)
    requires
        exists|i: int| 0 <= i < list.len() && (#[trigger] list[i]).id@ == id,
    ensures
        first_with(list, id) matches Some(a) && a.id@ == id,
    decreases list.len(),
{
    let i = choose|i: int| 0 <= i < list.len() && (#[trigger] list[i]).id@ == id;
    if list[0].id@ != id {
        let rest = list.subrange(1, list.len() as int);
        assert(rest[i - 1].id@ == id);
        lemma_first_with(rest, id);
    }
}

/// What a request for credits has told: how many there are, or that they have no limit.
pub open spec fn tells_credits(s: CreditSnapshot) -> bool {
    s.credits is Some || s.unlimited
}

/// What is known of an account is worth more than what is known of another one: its credits expire
/// earlier, an unknown expiry being the latest, or at the same time and there are more of them,
/// unknown credits being none.
pub open spec fn worth_more(a: CreditSnapshot, b: CreditSnapshot) -> bool {
    let x = match a.earliest_expiry_ms {
        Some(t) => t as int,
        None => i64::MAX as int,
    };
    let y = match b.earliest_expiry_ms {
        Some(t) => t as int,
        None => i64::MAX as int,
    };
    let c = match a.credits {
        Some(n) => n as int,
        None => 0,
    };
    let d = match b.credits {
        Some(n) => n as int,
        None => 0,
    };
    x < y || (x == y && c > d)
}

/// The snapshot that counts for a candidate: the fetched one where it tells the credits or nothing
/// was known, or else the stored one.
pub open spec fn counts_for(s: CreditSnapshot, a: Account, fetched: Option<CreditSnapshot>) -> bool {
    match fetched {
        Some(f) => if tells_credits(f) || a.credit_snapshot is None {
            s == f
        } else {
            a.credit_snapshot matches Some(p) && s.credits == p.credits && s.unlimited
                == p.unlimited && s.earliest_expiry_ms == p.earliest_expiry_ms
        },
        None => a.credit_snapshot == Some(s),
    }
}

/// The index is one that [`choose_finish`] may give.
pub open spec fn may_be_chosen(
    list: Seq<Account>,
    fetched: Seq<Option<CreditSnapshot>>,
    i: int,
) -> bool {
    let infos = all_known(list, fetched);
    0 <= i < list.len() && (routing::best(infos, i) || (i == 0 && forall|j: int|
        0 <= j < infos.len() ==> routing::spent(#[trigger] infos[j])))
}

/// The credits that were looked up decide, and where none were, those that are stored: no candidate
/// with credits left is worth more than the chosen one, and of several that are worth the same the
/// first is chosen.
pub proof fn law_known_credits_decide(
    list: Seq<Account>,
    fetched: Seq<Option<CreditSnapshot>>,
    i: int,
    j: int,
    a: CreditSnapshot,
    b: CreditSnapshot,
)
    requires
        fetched.len() == list.len(),
        may_be_chosen(list, fetched, i),
        0 <= j < list.len(),
        counts_for(a, list[i], fetched[i]),
        counts_for(b, list[j], fetched[j]),
        b.credits != Some(0i64),
    ensures
        a.credits != Some(0i64),
        !worth_more(b, a),
        j < i ==> worth_more(a, b),
{
    let infos = all_known(list, fetched);
    assert(infos[i].credits == a.credits && infos[i].expiry_ms == a.earliest_expiry_ms);
    assert(infos[j].credits == b.credits && infos[j].expiry_ms == b.earliest_expiry_ms);
    assert(!routing::spent(infos[j]));
    assert(routing::best(infos, i));
}

/// An account of which nothing is known is passed over for none that expires, and for none with
/// credits; it is never taken for one without credits.
pub proof fn law_unknown_credits_come_last(
    list: Seq<Account>,
    fetched: Seq<Option<CreditSnapshot>>,
    i: int,
    j: int,
    b: CreditSnapshot,
)
    requires
        fetched.len() == list.len(),
        may_be_chosen(list, fetched, i),
        0 <= j < list.len(),
        list[i].credit_snapshot is None,
        fetched[i] is None,
        counts_for(b, list[j], fetched[j]),
    ensures
        b.credits != Some(0i64) ==> (b.earliest_expiry_ms is None || b.earliest_expiry_ms == Some(
            i64::MAX,
        )) && (b.credits matches Some(n) ==> n <= 0),
{
    let infos = all_known(list, fetched);
    assert(infos[i].credits is None && infos[i].expiry_ms is None);
    assert(infos[j].credits == b.credits && infos[j].expiry_ms == b.earliest_expiry_ms);
    assert(!routing::spent(infos[i]));
    assert(routing::best(infos, i));
}

/// An account without credits is chosen only where every candidate is known to have none, and then
/// the first one is.
pub proof fn law_spent_account_is_the_last_resort(
    list: Seq<Account>,
    fetched: Seq<Option<CreditSnapshot>>,
    i: int,
    a: CreditSnapshot,
    j: int,
)
    requires
        fetched.len() == list.len(),
        may_be_chosen(list, fetched, i),
        counts_for(a, list[i], fetched[i]),
        a.credits == Some(0i64),
        0 <= j < list.len(),
    ensures
        i == 0,
        list[j].credit_snapshot is Some || fetched[j] is Some,
        forall|b: CreditSnapshot|
            #[trigger] counts_for(b, list[j], fetched[j]) ==> b.credits == Some(0i64),
{
    let infos = all_known(list, fetched);
    assert(infos[i].credits == a.credits);
    assert(routing::spent(infos[i]));
    assert(routing::spent(infos[j]));
    assert forall|b: CreditSnapshot| #[trigger] counts_for(b, list[j], fetched[j]) implies b.credits
        == Some(0i64) by {
        assert(infos[j].credits == b.credits);
    }
}

/// A list of accounts in which nothing but the credits of some has changed.
pub open spec fn same_but_credits(a: Seq<Account>, b: Seq<Account>) -> bool {
    a.len() == b.len() && forall|p: int|
        0 <= p < a.len() ==> #[trigger] b[p] == (Account {
            credit_snapshot: b[p].credit_snapshot,
            ..a[p]
        })
}

proof fn lemma_with_snapshot(all: Seq<Account>, id: Seq<char>, snap: CreditSnapshot)
    ensures
        ({
            let r = with_snapshot(all, id, snap);
            &&& same_but_credits(all, r)
            &&& forall|p: int|
                0 <= p < all.len() && (#[trigger] all[p]).id@ != id ==> r[p] == all[p]
            &&& forall|p: int|
                0 <= p < all.len() && (#[trigger] all[p]).id@ == id && (forall|q: int|
                    0 <= q < p ==> (#[trigger] all[q]).id@ != id) ==> r[p].credit_snapshot == Some(
                    snap,
                )
        }),
    decreases all.len(),
{
    let r = with_snapshot(all, id, snap);
    if all.len() > 0 && all[0].id@ != id {
        let rest = all.subrange(1, all.len() as int);
        lemma_with_snapshot(rest, id, snap);
        let w = with_snapshot(rest, id, snap);
        assert forall|p: int| 0 <= p < all.len() implies #[trigger] r[p] == (Account {
            credit_snapshot: r[p].credit_snapshot,
            ..all[p]
        }) by {
            if p > 0 {
                assert(r[p] == w[p - 1]);
                assert(rest[p - 1] == all[p]);
            }
        }
        assert forall|p: int| 0 <= p < all.len() && (#[trigger] all[p]).id@ != id implies r[p]
            == all[p] by {
            if p > 0 {
                assert(rest[p - 1] == all[p]);
                assert(r[p] == w[p - 1]);
            }
        }
        assert forall|p: int|
            0 <= p < all.len() && (#[trigger] all[p]).id@ == id && (forall|q: int|
                0 <= q < p ==> (#[trigger] all[q]).id@ != id) implies r[p].credit_snapshot == Some(
            snap,
        ) by {
            assert(rest[p - 1] == all[p]);
            assert(r[p] == w[p - 1]);
            assert forall|q: int| 0 <= q < p - 1 implies (#[trigger] rest[q]).id@ != id by {
                assert(rest[q] == all[q + 1]);
            }
        }
    }
}

/// Looking credits up changes nothing but the credits of the accounts that were looked up.
pub proof fn law_only_looked_up_credits_change(
    all: Seq<Account>,
    list: Seq<Account>,
    fetched: Seq<Option<CreditSnapshot>>,
    n: nat,
)
    requires
        n <= list.len(),
        fetched.len() == list.len(),
    ensures
        same_but_credits(all, with_fetched(all, list, fetched, n)),
        forall|p: int|
            0 <= p < all.len() && (forall|k: int|
                0 <= k < n && fetched[k] is Some ==> (#[trigger] list[k]).id@ != all[p].id@)
                ==> #[trigger] with_fetched(all, list, fetched, n)[p] == all[p],
    decreases n,
{
    if n > 0 {
        let i = n - 1;
        law_only_looked_up_credits_change(all, list, fetched, i as nat);
        let before = with_fetched(all, list, fetched, i as nat);
        let r = with_fetched(all, list, fetched, n);
        if let Some(s) = fetched[i] {
            lemma_with_snapshot(before, list[i].id@, routing::merged(s, list[i].credit_snapshot));
            assert forall|p: int| 0 <= p < all.len() implies #[trigger] r[p] == (Account {
                credit_snapshot: r[p].credit_snapshot,
                ..all[p]
            }) by {
                assert(before[p].id == all[p].id);
            }
        }
        assert forall|p: int|
            0 <= p < all.len() && (forall|k: int|
                0 <= k < n && fetched[k] is Some ==> (#[trigger] list[k]).id@ != all[p].id@)
            implies #[trigger] r[p] == all[p] by {
            assert(before[p] == all[p]);
            if fetched[i] is Some {
                assert(list[i].id@ != all[p].id@);
            }
        }
    }
}

/// What was looked up is stored with its account, where it tells the credits; where it does not, the
/// credits that were known stay and the time is the new one.
pub proof fn law_looked_up_credits_are_stored(
    all: Seq<Account>,
    list: Seq<Account>,
    fetched: Seq<Option<CreditSnapshot>>,
    n: nat,
    i: int,
    p: int,
)
    requires
        0 <= i < n <= list.len(),
        fetched.len() == list.len(),
        fetched[i] is Some,
        forall|k: int| 0 <= k < list.len() && k != i ==> (#[trigger] list[k]).id@ != list[i].id@,
        0 <= p < all.len(),
        all[p].id@ == list[i].id@,
        forall|q: int| 0 <= q < p ==> (#[trigger] all[q]).id@ != list[i].id@,
    ensures
        with_fetched(all, list, fetched, n)[p].credit_snapshot matches Some(s) && s.fetched_at
            == fetched[i]->0.fetched_at && counts_for(s, list[i], fetched[i]),
    decreases n,
{
    let m = (n - 1) as nat;
    let before = with_fetched(all, list, fetched, m);
    law_only_looked_up_credits_change(all, list, fetched, m);
    if m > i {
        law_looked_up_credits_are_stored(all, list, fetched, m, i, p);
        if let Some(s) = fetched[m as int] {
            lemma_with_snapshot(
                before,
                list[m as int].id@,
                routing::merged(s, list[m as int].credit_snapshot),
            );
            assert(list[m as int].id@ != list[i].id@);
            assert(before[p].id == all[p].id);
        }
    } else {
        let s = fetched[i]->0;
        lemma_with_snapshot(before, list[i].id@, routing::merged(s, list[i].credit_snapshot));
        assert(before[p].id == all[p].id);
        assert forall|q: int| 0 <= q < p implies (#[trigger] before[q]).id@ != list[i].id@ by {
            assert(before[q].id == all[q].id);
            assert(all[q].id@ != list[i].id@);
        }
    }
}

/// A request goes only to an account of the user: each candidate is one of the accounts.
pub proof fn law_candidates_are_accounts(
    pool: Pool,
    all: Seq<Account>,
    selected: Seq<String>,
    ban: Seq<String>,
    now: u64,
    i: int,
)
    requires
        0 <= i < open_to(pool, all, selected, ban, now).len(),
    ensures
        all.contains(open_to(pool, all, selected, ban, now)[i]),
{
    let ch = routing::chargeable(all, selected);
    let el = routing::eligible(all, selected, ban);
    let us = open_to(pool, all, selected, ban, now);
    lemma_filter_keeps(all, routing::listed(selected));
    lemma_filter_keeps(ch, routing::not_listed(ban));
    lemma_filter_keeps(el, routing::warm(pool.cooldown@, now));
    if el.filter(routing::warm(pool.cooldown@, now)).len() == 0 {
        assert(el[i] == us[i]);
    }
    assert(el.contains(us[i]));
    let j = choose|j: int| 0 <= j < el.len() && el[j] == us[i];
    assert(ch.contains(el[j]));
    let n = choose|n: int| 0 <= n < ch.len() && ch[n] == el[j];
    if all.filter(routing::listed(selected)).len() == 0 || selected.len() == 0 {
        assert(all[n] == us[i]);
    } else {
        assert(all.contains(ch[n]));
    }
}

/// Nobody is left out: an account that may be charged, is not banned and does not cool down is a
/// candidate. With nothing selected every account may be charged, and so may every one where no
/// selected account is there.
pub proof fn law_every_free_account_is_a_candidate(
    pool: Pool,
    all: Seq<Account>,
    selected: Seq<String>,
    ban: Seq<String>,
    now: u64,
    a: Account,
)
    requires
        all.contains(a),
        !text::has_text(ban, a.id@),
        !pool.cooldown@.contains_key(a.id@) || now - pool.cooldown@[a.id@].0
            >= routing::COOLDOWN_TTL,
        selected.len() == 0 || text::has_text(selected, a.id@) || forall|k: int|
            0 <= k < all.len() ==> !text::has_text(selected, (#[trigger] all[k]).id@),
    ensures
        open_to(pool, all, selected, ban, now).contains(a),
{
    broadcast use vstd::seq_lib::group_filter_ensures;

    let ch = routing::chargeable(all, selected);
    let el = routing::eligible(all, selected, ban);
    let i = choose|i: int| 0 <= i < all.len() && all[i] == a;
    if text::has_text(selected, a.id@) {
        assert(routing::listed(selected)(all[i]));
        all.lemma_filter_contains_rev(routing::listed(selected), a);
    } else if selected.len() > 0 {
        let picked = all.filter(routing::listed(selected));
        if picked.len() > 0 {
            lemma_filter_keeps(all, routing::listed(selected));
            assert(all.contains(picked[0]));
            let k = choose|k: int| 0 <= k < all.len() && all[k] == picked[0];
            assert(!text::has_text(selected, all[k].id@));
        }
    }
    assert(ch.contains(a));
    ch.lemma_filter_contains_rev(routing::not_listed(ban), a);
    assert(el.contains(a));
    assert(routing::warm(pool.cooldown@, now)(a));
    el.lemma_filter_contains_rev(routing::warm(pool.cooldown@, now), a);
}

/// Where every candidate cools down, all of them stay: then the upstream decides.
pub proof fn law_all_cooling_all_stay(
    pool: Pool,
    all: Seq<Account>,
    selected: Seq<String>,
    ban: Seq<String>,
    now: u64,
)
    requires
        forall|k: int|
            0 <= k < routing::eligible(all, selected, ban).len() ==> routing::cools(
                pool.cooldown@,
                (#[trigger] routing::eligible(all, selected, ban)[k]).id@,
                now,
            ),
    ensures
        open_to(pool, all, selected, ban, now) == routing::eligible(all, selected, ban),
{
    let el = routing::eligible(all, selected, ban);
    let kept = el.filter(routing::warm(pool.cooldown@, now));
    lemma_filter_keeps(el, routing::warm(pool.cooldown@, now));
    if kept.len() > 0 {
        assert(el.contains(kept[0]));
        let k = choose|k: int| 0 <= k < el.len() && el[k] == kept[0];
        assert(routing::cools(pool.cooldown@, el[k].id@, now));
    }
}

/// A conversation is forgotten half an hour after its last request, and no earlier: only then may
/// another account take it up.
pub proof fn law_binding_lasts_half_an_hour(
    sticky: Map<Seq<char>, (u64, String)>,
    conv: Seq<char>,
    now: u64,
)
    ensures
        routing::stuck_to(sticky, conv, now) == (if sticky.contains_key(conv) && now
            - sticky[conv].0 < 30 * 60 * 1000 {
            Some(sticky[conv].1@)
        } else {
            None
        }),
{
}

/// A limited account is passed over for ten minutes, and no longer.
pub proof fn law_cooldown_lasts_ten_minutes(
    cooldown: Map<Seq<char>, (u64, ())>,
    id: Seq<char>,
    now: u64,
)
    ensures
        routing::cools(cooldown, id, now) <==> cooldown.contains_key(id) && now - cooldown[id].0
            < 10 * 60 * 1000,
{
}

} // verus!
