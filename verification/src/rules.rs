//! The rules by which the proxy swaps credentials, and their cache.
use crate::paths;
use crate::table::Table;
use crate::table;
use crate::text;
use vstd::prelude::*;
use vstd::string::*;

verus! {

/// The file of the rules, in the data directory.
pub const RULES_FILE: &'static str = "proxy-rules.json";

/// How long rules that were read count as current, in milliseconds.
pub const CACHE_TTL: u64 = 1000;

/// Which requests get the credentials of the pool.
pub struct Rules {
    /// Swap nothing, only watch.
    pub observe_only: bool,
    /// Replaces the built-in prefixes where it is not empty.
    pub swap_http_prefixes: Vec<String>,
    /// Whether the handshake of a WebSocket gets other credentials too.
    pub swap_ws: bool,
    /// Prefixes that are never swapped.
    pub never_swap_prefixes: Vec<String>,
}

impl Default for Rules {
    fn default() -> (r: Self)
        ensures
            !r.observe_only,
            r.swap_http_prefixes@.len() == 0,
            !r.swap_ws,
            r.never_swap_prefixes@.len() == 0,
    {
        Rules {
            observe_only: false,
            swap_http_prefixes: Vec::new(),
            swap_ws: false,
            never_swap_prefixes: Vec::new(),
        }
    }
}

impl Clone for Rules {
    fn clone(&self) -> (r: Self)
        ensures
            r.observe_only == self.observe_only,
            r.swap_http_prefixes@ == self.swap_http_prefixes@,
            r.swap_ws == self.swap_ws,
            r.never_swap_prefixes@ == self.never_swap_prefixes@,
    {
        Rules {
            observe_only: self.observe_only,
            swap_http_prefixes: text::clone_texts(self.swap_http_prefixes.as_slice()),
            swap_ws: self.swap_ws,
            never_swap_prefixes: text::clone_texts(self.never_swap_prefixes.as_slice()),
        }
    }
}

/// The path begins with one of the prefixes.
pub open spec fn under_any(path: Seq<char>, prefixes: Seq<Seq<char>>) -> bool {
    exists|i: int| 0 <= i < prefixes.len() && text::starts_with(path, #[trigger] prefixes[i])
}

/// The views of a list of string slices.
pub open spec fn slices(v: Seq<&str>) -> Seq<Seq<char>> {
    v.map_values(|s: &str| s@)
}

/// The credentials of a request to `path` are swapped. A prefix that is never swapped wins over
/// all others, and the prefixes of the file replace the built-in ones.
pub open spec fn swaps(rules: Rules, path: Seq<char>, builtin: Seq<Seq<char>>) -> bool {
    &&& !rules.observe_only
    &&& !under_any(path, text::texts(rules.never_swap_prefixes@))
    &&& if rules.swap_http_prefixes@.len() == 0 {
        under_any(path, builtin)
    } else {
        under_any(path, text::texts(rules.swap_http_prefixes@))
    }
}

fn begins_with_any(path: &str, prefixes: &[String]) -> (r: bool)
    ensures
        r == under_any(path@, text::texts(prefixes@)),
{
    let mut i: usize = 0;
    while i < prefixes.len()
        invariant
            i <= prefixes@.len(),
            forall|k: int| 0 <= k < i ==> !text::starts_with(path@, (#[trigger] prefixes@[k])@),
        decreases prefixes@.len() - i,
    {
        assert(text::texts(prefixes@)[i as int] == prefixes@[i as int]@);
        if text::text_starts_with(path, prefixes[i].as_str()) {
            return true;
        }
        i = i + 1;
    }
    assert forall|k: int| 0 <= k < text::texts(prefixes@).len() implies !text::starts_with(
        path@,
        #[trigger] text::texts(prefixes@)[k],
    ) by {
        assert(text::texts(prefixes@)[k] == prefixes@[k]@);
    }
    false
}

/// Whether a path begins with one of the prefixes.
pub fn begins_with_one_of(path: &str, prefixes: &[&str]) -> (r: bool)
    ensures
        r == under_any(path@, slices(prefixes@)),
{
    let mut i: usize = 0;
    while i < prefixes.len()
        invariant
            i <= prefixes@.len(),
            forall|k: int| 0 <= k < i ==> !text::starts_with(path@, (#[trigger] prefixes@[k])@),
        decreases prefixes@.len() - i,
    {
        assert(slices(prefixes@)[i as int] == prefixes@[i as int]@);
        if text::text_starts_with(path, prefixes[i]) {
            return true;
        }
        i = i + 1;
    }
    assert forall|k: int| 0 <= k < slices(prefixes@).len() implies !text::starts_with(
        path@,
        #[trigger] slices(prefixes@)[k],
    ) by {
        assert(slices(prefixes@)[k] == prefixes@[k]@);
    }
    false
}

impl Rules {
    /// The file of the rules in a data directory; `windows` tells what the machine runs.
    pub fn path(dir: &str, windows: bool) -> (r: String)
        ensures
            r@ == paths::joined(dir@, RULES_FILE@, windows),
    {
        paths::join(dir, RULES_FILE, windows)
    }

    /// Whether the credentials of a request to `path` are swapped.
    pub fn should_swap(&self, path: &str, builtin: &[&str]) -> (r: bool)
        ensures
            r == swaps(*self, path@, slices(builtin@)),
    {
        if self.observe_only {
            return false;
        }
        if begins_with_any(path, self.never_swap_prefixes.as_slice()) {
            return false;
        }
        if self.swap_http_prefixes.len() == 0 {
            return begins_with_one_of(path, builtin);
        }
        begins_with_any(path, self.swap_http_prefixes.as_slice())
    }

    /// The rules that are in force, by the cache: none where they have to be read again.
    pub fn cached(cache: &Table<Rules>, path: &str, now: u64) -> (r: Option<Rules>)
        ensures
            match r {
                Some(rules) => cache@.contains_key(path@) && table::fresh(
                    cache@[path@].0,
                    now,
                    CACHE_TTL,
                ) && same_rules(rules, cache@[path@].1),
                None => !(cache@.contains_key(path@) && table::fresh(
                    cache@[path@].0,
                    now,
                    CACHE_TTL,
                )),
            },
    {
        match cache.get(path) {
            Some((at, rules)) => if table::is_fresh(at, now, CACHE_TTL) {
                Some(rules.clone())
            } else {
                None
            },
            None => None,
        }
    }

    /// Keeps rules that were read for `path`, and forgets what no longer counts.
    pub fn remember(cache: &mut Table<Rules>, path: String, now: u64, rules: &Rules)
        ensures
            exists|kept: Rules|
                same_rules(kept, *rules) && final(cache)@ == table::live(
                    old(cache)@,
                    now,
                    CACHE_TTL,
                ).insert(path@, (now, kept)),
    {
        cache.expire(now, CACHE_TTL);
        let kept = rules.clone();
        cache.put(path, now, kept);
        assert(same_rules(kept, *rules));
    }
}

/// Two sets of rules say the same.
pub open spec fn same_rules(a: Rules, b: Rules) -> bool {
    &&& a.observe_only == b.observe_only
    &&& a.swap_http_prefixes@ == b.swap_http_prefixes@
    &&& a.swap_ws == b.swap_ws
    &&& a.never_swap_prefixes@ == b.never_swap_prefixes@
}

/// Forgets all rules that were read.
pub fn invalidate(cache: &mut Table<Rules>)
    ensures
        final(cache)@ == Map::<Seq<char>, (u64, Rules)>::empty(),
{
    cache.clear();
}

/// Observing swaps nothing, whatever else the rules say.
pub proof fn law_observing_swaps_nothing(rules: Rules, path: Seq<char>, builtin: Seq<Seq<char>>)
    requires
        rules.observe_only,
    ensures
        !swaps(rules, path, builtin),
{
}

/// A path under a prefix that is never swapped is not swapped, whatever else the rules say.
pub proof fn law_never_swap_wins(rules: Rules, path: Seq<char>, builtin: Seq<Seq<char>>)
    requires
        under_any(path, text::texts(rules.never_swap_prefixes@)),
    ensures
        !swaps(rules, path, builtin),
{
}

/// Prefixes of the file replace the built-in ones: these no longer matter.
pub proof fn law_file_replaces_builtin(
    rules: Rules,
    path: Seq<char>,
    builtin: Seq<Seq<char>>,
    other: Seq<Seq<char>>,
)
    requires
        rules.swap_http_prefixes@.len() > 0,
    ensures
        swaps(rules, path, builtin) == swaps(rules, path, other),
{
}

/// Rules that were remembered are in force at once.
pub proof fn law_remembered_rules_are_in_force(
    before: Map<Seq<char>, (u64, Rules)>,
    path: Seq<char>,
    now: u64,
    rules: Rules,
)
    ensures
        ({
            let after = table::live(before, now, CACHE_TTL).insert(path, (now, rules));
            after.contains_key(path) && table::fresh(after[path].0, now, CACHE_TTL) && after[path].1
                == rules
        }),
{
}

} // verus!
