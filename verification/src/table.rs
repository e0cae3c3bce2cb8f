//! Tables from texts to values, each entry with the time at which it was written.
use crate::text;
use vstd::prelude::*;

verus! {

/// A table whose entries carry the time of their last writing, in milliseconds.
pub struct Table<V> {
    entries: Vec<(String, u64, V)>,
}

/// The mapping of a list of entries.
pub open spec fn entries_map<V>(entries: Seq<(String, u64, V)>) -> Map<Seq<char>, (u64, V)>
    decreases entries.len(),
{
    if entries.len() == 0 {
        Map::empty()
    } else {
        let e = entries.last();
        entries_map(entries.drop_last()).insert(e.0@, (e.1, e.2))
    }
}

/// No two entries have the same key.
pub open spec fn distinct_keys<V>(entries: Seq<(String, u64, V)>) -> bool {
    forall|i: int, j: int|
        0 <= i < j < entries.len() ==> (#[trigger] entries[i]).0@ != (#[trigger] entries[j]).0@
}

/// An entry that was written at `at` is younger than `ttl`.
pub open spec fn fresh(at: u64, now: u64, ttl: u64) -> bool {
    now - at < ttl
}

/// Whether an entry that was written at `at` is younger than `ttl`.
pub fn is_fresh(at: u64, now: u64, ttl: u64) -> (r: bool)
    ensures
        r == fresh(at, now, ttl),
{
    at > now || now - at < ttl
}

/// The entries that are younger than `ttl`.
pub open spec fn live<V>(m: Map<Seq<char>, (u64, V)>, now: u64, ttl: u64) -> Map<
    Seq<char>,
    (u64, V),
> {
    Map::new(|k: Seq<char>| m.contains_key(k) && fresh(m[k].0, now, ttl), |k: Seq<char>| m[k])
}

impl<V> View for Table<V> {
    type V = Map<Seq<char>, (u64, V)>;

    closed spec fn view(&self) -> Map<Seq<char>, (u64, V)> {
        entries_map(self.entries@)
    }
}

/// With distinct keys each entry is what its key maps to, and nothing else is mapped.
proof fn lemma_entries<V>(entries: Seq<(String, u64, V)>)
    requires
        distinct_keys(entries),
    ensures
        forall|i: int|
            0 <= i < entries.len() ==> entries_map(entries).contains_key((#[trigger] entries[i]).0@)
                && entries_map(entries)[entries[i].0@] == (entries[i].1, entries[i].2),
        forall|k: Seq<char>| #[trigger]
            entries_map(entries).contains_key(k) ==> exists|i: int|
                0 <= i < entries.len() && (#[trigger] entries[i]).0@ == k,
        entries_map(entries).dom().finite(),
        entries_map(entries).dom().len() == entries.len(),
    decreases entries.len(),
{
    if entries.len() > 0 {
        let before = entries.drop_last();
        lemma_entries(before);
        let m = entries_map(entries);
        let e = entries.last();
        assert forall|k: Seq<char>| #[trigger] m.contains_key(k) implies exists|i: int|
            0 <= i < entries.len() && (#[trigger] entries[i]).0@ == k by {
            if k == e.0@ {
                assert(entries[entries.len() - 1].0@ == k);
            } else {
                assert(entries_map(before).contains_key(k));
                let i = choose|i: int| 0 <= i < before.len() && (#[trigger] before[i]).0@ == k;
                assert(entries[i].0@ == k);
            }
        }
        assert forall|i: int| 0 <= i < entries.len() implies m.contains_key(
            (#[trigger] entries[i]).0@,
        ) && m[entries[i].0@] == (entries[i].1, entries[i].2) by {
            if i < before.len() {
                assert(before[i] == entries[i]);
            }
        }
        assert(!entries_map(before).contains_key(e.0@)) by {
            if entries_map(before).contains_key(e.0@) {
                let i = choose|i: int| 0 <= i < before.len() && (#[trigger] before[i]).0@ == e.0@;
                assert(entries[i].0@ == entries[entries.len() - 1].0@);
            }
        }
        assert(m.dom() =~= entries_map(before).dom().insert(e.0@));
    }
}

impl<V> Table<V> {
    #[verifier::type_invariant]
    spec fn inv(self) -> bool {
        distinct_keys(self.entries@)
    }

    /// An empty table.
    pub fn new() -> (r: Self)
        ensures
            r@ == Map::<Seq<char>, (u64, V)>::empty(),
    {
        Table { entries: Vec::new() }
    }

    /// The number of entries.
    pub fn len(&self) -> (r: usize)
        ensures
            self@.dom().finite(),
            r == self@.dom().len(),
    {
        proof {
            use_type_invariant(self);
            lemma_entries(self.entries@);
        }
        self.entries.len()
    }

    fn position(&self, key: &str) -> (r: Option<usize>)
        ensures
            match r {
                Some(i) => i < self.entries@.len() && self.entries@[i as int].0@ == key@
                    && self@.contains_key(key@) && self@[key@] == (
                    self.entries@[i as int].1,
                    self.entries@[i as int].2,
                ),
                None => !self@.contains_key(key@),
            },
    {
        proof {
            use_type_invariant(self);
            lemma_entries(self.entries@);
        }
        let mut i: usize = 0;
        while i < self.entries.len()
            invariant
                i <= self.entries@.len(),
                forall|k: int| 0 <= k < i ==> (#[trigger] self.entries@[k]).0@ != key@,
                distinct_keys(self.entries@),
            decreases self.entries@.len() - i,
        {
            if text::same_text(self.entries[i].0.as_str(), key) {
                proof {
                    lemma_entries(self.entries@);
                }
                return Some(i);
            }
            i = i + 1;
        }
        None
    }

    /// The time and the value that are written under a key.
    pub fn get(&self, key: &str) -> (r: Option<(u64, &V)>)
        ensures
            match r {
                Some((at, v)) => self@.contains_key(key@) && self@[key@] == (at, *v),
                None => !self@.contains_key(key@),
            },
    {
        match self.position(key) {
            Some(i) => Some((self.entries[i].1, &self.entries[i].2)),
            None => None,
        }
    }

    /// Removes what is written under a key.
    pub fn remove(&mut self, key: &str)
        ensures
            final(self)@ == old(self)@.remove(key@),
    {
        proof {
            use_type_invariant(&*self);
            lemma_entries(self.entries@);
        }
        let mut from: Vec<(String, u64, V)> = Vec::new();
        std::mem::swap(&mut self.entries, &mut from);
        proof {
            lemma_without(from@, key@);
        }
        self.entries = drop_key(from, key);
    }

    /// Writes a value under a key at the given time.
    pub fn put(&mut self, key: String, at: u64, v: V)
        ensures
            final(self)@ == old(self)@.insert(key@, (at, v)),
    {
        self.remove(key.as_str());
        proof {
            use_type_invariant(&*self);
            lemma_entries(self.entries@);
        }
        let mut from: Vec<(String, u64, V)> = Vec::new();
        std::mem::swap(&mut self.entries, &mut from);
        let ghost before = from@;
        from.push((key, at, v));
        proof {
            assert(from@.drop_last() == before);
            assert forall|i: int, j: int| 0 <= i < j < from@.len() implies (#[trigger] from@[i]).0@
                != (#[trigger] from@[j]).0@ by {
                if j == before.len() {
                    assert(entries_map(before).contains_key(before[i].0@));
                }
            }
        }
        self.entries = from;
        assert(self@ =~= old(self)@.insert(key@, (at, v)));
    }

    /// Removes every entry that is not younger than `ttl`.
    pub fn expire(&mut self, now: u64, ttl: u64)
        ensures
            final(self)@ == live(old(self)@, now, ttl),
    {
        proof {
            use_type_invariant(&*self);
        }
        let mut from: Vec<(String, u64, V)> = Vec::new();
        std::mem::swap(&mut self.entries, &mut from);
        proof {
            lemma_fresh(from@, now, ttl);
        }
        self.entries = drop_old(from, now, ttl);
    }

    /// Removes all entries.
    pub fn clear(&mut self)
        ensures
            final(self)@ == Map::<Seq<char>, (u64, V)>::empty(),
    {
        self.entries = Vec::new();
    }
}

/// The test for another key.
spec fn other_key<V>(key: Seq<char>) -> spec_fn((String, u64, V)) -> bool {
    |e: (String, u64, V)| e.0@ != key
}

/// The test for youth.
spec fn is_young<V>(now: u64, ttl: u64) -> spec_fn((String, u64, V)) -> bool {
    |e: (String, u64, V)| fresh(e.1, now, ttl)
}

/// The entries with another key.
spec fn without<V>(entries: Seq<(String, u64, V)>, key: Seq<char>) -> Seq<(String, u64, V)> {
    entries.filter(other_key(key))
}

/// The entries that are younger than `ttl`.
spec fn young<V>(entries: Seq<(String, u64, V)>, now: u64, ttl: u64) -> Seq<(String, u64, V)> {
    entries.filter(is_young(now, ttl))
}

/// A filtered list of entries maps what it has kept.
proof fn lemma_filter<V>(entries: Seq<(String, u64, V)>, keep: spec_fn((String, u64, V)) -> bool)
    requires
        distinct_keys(entries),
    ensures
        distinct_keys(entries.filter(keep)),
        forall|i: int|
            0 <= i < entries.len() && keep(#[trigger] entries[i]) ==> entries_map(
                entries.filter(keep),
            ).contains_key(entries[i].0@) && entries_map(entries.filter(keep))[entries[i].0@] == (
                entries[i].1,
                entries[i].2,
            ),
        forall|k: Seq<char>| #[trigger]
            entries_map(entries.filter(keep)).contains_key(k) ==> exists|i: int|
                0 <= i < entries.len() && keep(#[trigger] entries[i]) && entries[i].0@ == k,
    decreases entries.len(),
{
    reveal(Seq::filter);
    if entries.len() > 0 {
        let before = entries.drop_last();
        let e = entries.last();
        lemma_filter(before, keep);
        let kept = before.filter(keep);
        let all = entries.filter(keep);
        assert forall|k: Seq<char>| #[trigger] entries_map(all).contains_key(k) implies exists|i: int|
            0 <= i < entries.len() && keep(#[trigger] entries[i]) && entries[i].0@ == k by {
            if keep(e) && k == e.0@ {
                assert(keep(entries[entries.len() - 1]));
            } else {
                if keep(e) {
                    assert(all.drop_last() =~= kept);
                }
                assert(entries_map(kept).contains_key(k));
                let i = choose|i: int|
                    0 <= i < before.len() && keep(#[trigger] before[i]) && before[i].0@ == k;
                assert(keep(entries[i]));
            }
        }
        if keep(e) {
            assert(all.drop_last() =~= kept);
            lemma_entries(kept);
            assert forall|i: int, j: int| 0 <= i < j < all.len() implies (#[trigger] all[i]).0@ != (
            #[trigger] all[j]).0@ by {
                if j == kept.len() {
                    assert(all[i] == kept[i]);
                    assert(entries_map(kept).contains_key(kept[i].0@));
                    let n = choose|n: int|
                        0 <= n < before.len() && keep(#[trigger] before[n]) && before[n].0@
                            == kept[i].0@;
                    assert(entries[n].0@ != entries[entries.len() - 1].0@);
                } else {
                    assert(all[i] == kept[i] && all[j] == kept[j]);
                }
            }
        }
        assert forall|i: int| 0 <= i < entries.len() && keep(#[trigger] entries[i]) implies
            entries_map(all).contains_key(entries[i].0@) && entries_map(all)[entries[i].0@] == (
            entries[i].1,
            entries[i].2,
        ) by {
            if i < before.len() {
                assert(before[i] == entries[i]);
                assert(entries[i].0@ != entries[entries.len() - 1].0@);
            }
        }
    }
}

proof fn lemma_without<V>(entries: Seq<(String, u64, V)>, key: Seq<char>)
    requires
        distinct_keys(entries),
    ensures
        distinct_keys(without(entries, key)),
        entries_map(without(entries, key)) == entries_map(entries).remove(key),
{
    let keep = other_key::<V>(key);
    lemma_filter(entries, keep);
    lemma_entries(entries);
    let a = entries_map(entries.filter(keep));
    let b = entries_map(entries).remove(key);
    assert forall|k: Seq<char>| a.contains_key(k) <==> b.contains_key(k) by {
        if b.contains_key(k) {
            assert(entries_map(entries).contains_key(k));
            let i = choose|i: int| 0 <= i < entries.len() && (#[trigger] entries[i]).0@ == k;
            assert(keep(entries[i]));
        }
    }
    assert forall|k: Seq<char>| a.contains_key(k) implies a[k] == b[k] by {
        let i = choose|i: int|
            0 <= i < entries.len() && keep(#[trigger] entries[i]) && entries[i].0@ == k;
        assert(keep(entries[i]));
    }
    assert(a =~= b);
}

proof fn lemma_fresh<V>(entries: Seq<(String, u64, V)>, now: u64, ttl: u64)
    requires
        distinct_keys(entries),
    ensures
        distinct_keys(young(entries, now, ttl)),
        entries_map(young(entries, now, ttl)) == live(entries_map(entries), now, ttl),
{
    let keep = is_young::<V>(now, ttl);
    lemma_filter(entries, keep);
    lemma_entries(entries);
    let a = entries_map(entries.filter(keep));
    let b = live(entries_map(entries), now, ttl);
    assert forall|k: Seq<char>| a.contains_key(k) <==> b.contains_key(k) by {
        if b.contains_key(k) {
            assert(entries_map(entries).contains_key(k));
            let i = choose|i: int| 0 <= i < entries.len() && (#[trigger] entries[i]).0@ == k;
            assert(keep(entries[i]));
        }
        if a.contains_key(k) {
            let i = choose|i: int|
                0 <= i < entries.len() && keep(#[trigger] entries[i]) && entries[i].0@ == k;
            assert(entries_map(entries).contains_key(entries[i].0@));
        }
    }
    assert forall|k: Seq<char>| a.contains_key(k) implies a[k] == b[k] by {
        let i = choose|i: int|
            0 <= i < entries.len() && keep(#[trigger] entries[i]) && entries[i].0@ == k;
        assert(keep(entries[i]));
    }
    assert(a =~= b);
}

/// Keeps the entries with another key.
fn drop_key<V>(from: Vec<(String, u64, V)>, key: &str) -> (r: Vec<(String, u64, V)>)
    ensures
        r@ == without(from@, key@),
{
    let mut rest: Vec<(String, u64, V)> = Vec::new();
    let ghost all = from@;
    let ghost keep = other_key::<V>(key@);
    let mut left = from;
    reverse(&mut left);
    let ghost n = all.len();
    proof {
        reveal(Seq::filter);
        assert(all.take(0).filter(keep) =~= Seq::empty());
    }
    while left.len() > 0
        invariant
            n == all.len(),
            left@.len() <= n,
            keep == other_key::<V>(key@),
            left@ == all.subrange(n - left@.len(), n as int).reverse(),
            rest@ == all.take(n - left@.len()).filter(keep),
        decreases left@.len(),
    {
        let ghost i = n - left@.len();
        let ghost before = left@;
        let e = match left.pop() {
            Some(e) => e,
            None => {
                return rest;
            },
        };
        proof {
            assert(e == before.last());
            assert(before.last() == all[i]);
            assert(all.take(i + 1).drop_last() =~= all.take(i));
            reveal(Seq::filter);
            assert(left@ =~= all.subrange(i + 1, n as int).reverse());
        }
        if !text::same_text(e.0.as_str(), key) {
            rest.push(e);
        }
    }
    assert(all.take(n as int) =~= all);
    rest
}

/// Keeps the young entries.
fn drop_old<V>(from: Vec<(String, u64, V)>, now: u64, ttl: u64) -> (r: Vec<(String, u64, V)>)
    ensures
        r@ == young(from@, now, ttl),
{
    let mut rest: Vec<(String, u64, V)> = Vec::new();
    let ghost all = from@;
    let ghost keep = is_young::<V>(now, ttl);
    let mut left = from;
    reverse(&mut left);
    let ghost n = all.len();
    proof {
        reveal(Seq::filter);
        assert(all.take(0).filter(keep) =~= Seq::empty());
    }
    while left.len() > 0
        invariant
            n == all.len(),
            left@.len() <= n,
            keep == is_young::<V>(now, ttl),
            left@ == all.subrange(n - left@.len(), n as int).reverse(),
            rest@ == all.take(n - left@.len()).filter(keep),
        decreases left@.len(),
    {
        let ghost i = n - left@.len();
        let ghost before = left@;
        let e = match left.pop() {
            Some(e) => e,
            None => {
                return rest;
            },
        };
        proof {
            assert(e == before.last());
            assert(before.last() == all[i]);
            assert(all.take(i + 1).drop_last() =~= all.take(i));
            reveal(Seq::filter);
            assert(left@ =~= all.subrange(i + 1, n as int).reverse());
        }
        if is_fresh(e.1, now, ttl) {
            rest.push(e);
        }
    }
    assert(all.take(n as int) =~= all);
    rest
}

/// Turns a list round.
fn reverse<V>(v: &mut Vec<V>)
    ensures
        final(v)@ == old(v)@.reverse(),
{
    let mut left: Vec<V> = Vec::new();
    std::mem::swap(v, &mut left);
    let ghost all = left@;
    let ghost n = all.len();
    while left.len() > 0
        invariant
            n == all.len(),
            left@.len() <= n,
            left@ == all.take(left@.len() as int),
            v@ == all.subrange(left@.len() as int, n as int).reverse(),
        decreases left@.len(),
    {
        match left.pop() {
            Some(e) => {
                v.push(e);
            },
            None => {
                return;
            },
        }
        assert(v@ =~= all.subrange(left@.len() as int, n as int).reverse());
    }
    assert(all.subrange(0, n as int) =~= all);
}

} // verus!
