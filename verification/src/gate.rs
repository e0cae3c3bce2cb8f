//! The URL gate in the main process of TraeWork, and the text transformation that opens it.
//!
//! The URL gate is a piece of minified JavaScript that tests an endpoint for the `https://` scheme.
//! It stands in the file twice. Opening it makes the test accept any scheme, adds the plain
//! `http` pattern to the array of identity patterns, and closes the file with a marker line;
//! closing it again gives the delivered file back, character by character.
use crate::number;
use crate::text;
use vstd::prelude::*;
use vstd::string::*;

verus! {

// ---------------------------------------------------------------------------
// The pieces of the file
// ---------------------------------------------------------------------------

/// The last line of an opened file.
pub const MARKER: &'static str = "//[twa-gate v1]";

/// How often the URL gate stands in a file of a known version.
pub const GATE_WANT: usize = 2;

/// The identity array as delivered.
pub const AX_BEFORE: &'static str = r#"["https://*/trae/*","wss://*/explorer/*","ws://*/explorer/*"]"#;

/// The identity array with the plain pattern added.
pub const AX_AFTER: &'static str = r#"["https://*/trae/*","http://*/trae/*","wss://*/explorer/*","ws://*/explorer/*"]"#;

/// The regular expression of the URL gate as delivered.
pub const GATE_BEFORE: &'static str = r#"(?P<v>[A-Za-z_$][\w$]*)\.startsWith\("https://"\)\?`\$\{(?P<a>[A-Za-z_$][\w$]*)\}/\*`:`https://\$\{(?P<b>[A-Za-z_$][\w$]*)\}/\*`"#;

/// The regular expression of the opened gate.
pub const GATE_AFTER: &'static str = r#"(?P<v>[A-Za-z_$][\w$]*)\.includes\("://"\)\?`\$\{(?P<a>[A-Za-z_$][\w$]*)\}/\*`:`https://\$\{(?P<b>[A-Za-z_$][\w$]*)\}/\*`"#;

/// The test of the delivered gate, up to the first use of the variable.
pub const HEAD_BEFORE: &'static str = ".startsWith(\"https://\")?`${";

/// The test of the opened gate, up to the first use of the variable.
pub const HEAD_AFTER: &'static str = ".includes(\"://\")?`${";

/// What stands between the two uses of the variable.
pub const MIDDLE: &'static str = "}/*`:`https://${";

/// What ends the URL gate.
pub const TAIL: &'static str = "}/*`";

/// The two states of the URL gate.
#[derive(Clone, Copy, PartialEq, Eq, Structural)]
pub enum Side {
    /// As delivered: only `https://` passes.
    Before,
    /// Opened: every scheme passes.
    After,
}

/// The other state.
pub open spec fn other(side: Side) -> Side {
    match side {
        Side::Before => Side::After,
        Side::After => Side::Before,
    }
}

/// The regular expression of a state.
pub open spec fn pattern(side: Side) -> Seq<char> {
    match side {
        Side::Before => GATE_BEFORE@,
        Side::After => GATE_AFTER@,
    }
}

/// The test of a state.
pub open spec fn head(side: Side) -> Seq<char> {
    match side {
        Side::Before => HEAD_BEFORE@,
        Side::After => HEAD_AFTER@,
    }
}

/// A character beyond ASCII that the class `\w` of the `regex` crate holds.
pub uninterp spec fn unicode_word(c: char) -> bool;

/// A character that may begin a variable name.
pub open spec fn start_char(c: char) -> bool {
    ('A' <= c && c <= 'Z') || ('a' <= c && c <= 'z') || c == '_' || c == '$'
}

/// A character that may stand in a variable name.
pub open spec fn name_char(c: char) -> bool {
    start_char(c) || ('0' <= c && c <= '9') || (c as u32 >= 128 && unicode_word(c))
}

/// A variable name.
pub open spec fn name(s: Seq<char>) -> bool {
    &&& s.len() > 0
    &&& start_char(s[0])
    &&& forall|i: int| 0 <= i < s.len() ==> name_char(#[trigger] s[i])
}

/// A gate over the variables `v`, `a` and `b`.
pub open spec fn gate_text(side: Side, v: Seq<char>, a: Seq<char>, b: Seq<char>) -> Seq<char> {
    v + head(side) + a + MIDDLE@ + b + TAIL@
}

/// A gate over one variable.
#[verifier::opaque]
pub open spec fn gate_of(side: Side, v: Seq<char>) -> Seq<char> {
    gate_text(side, v, v, v)
}

/// All characters of `t` from `j` up to `s` may stand in a variable name.
pub open spec fn name_run(t: Seq<char>, j: int, s: int) -> bool {
    forall|k: int| j <= k < s ==> name_char(#[trigger] t[k])
}

/// No variable name that reaches up to position `s` begins before `s`.
pub open spec fn leftmost(t: Seq<char>, s: int) -> bool {
    forall|j: int| 0 <= j < s && name_run(t, j, s) ==> !start_char(#[trigger] t[j])
}

/// A gate over `v`, `a` and `b` stands at position `s` of `t`, and `v` is the whole name there.
pub open spec fn gate_match(
    t: Seq<char>,
    side: Side,
    s: int,
    v: Seq<char>,
    a: Seq<char>,
    b: Seq<char>,
) -> bool {
    &&& name(v)
    &&& name(a)
    &&& name(b)
    &&& text::occurs_at(t, gate_text(side, v, a, b), s)
    &&& leftmost(t, s)
}

/// The number of characters from position `s` on that may stand in a variable name.
pub open spec fn name_len(t: Seq<char>, s: int) -> nat
    decreases t.len() - s,
{
    if 0 <= s < t.len() && name_char(t[s]) {
        1 + name_len(t, s + 1)
    } else {
        0
    }
}

/// The variable name at position `s`.
pub open spec fn name_at(t: Seq<char>, s: int) -> Seq<char> {
    t.subrange(s, s + name_len(t, s))
}

/// A gate over one variable stands at position `s` of `t`.
#[verifier::opaque]
pub open spec fn gate_at(t: Seq<char>, side: Side, s: int) -> bool {
    gate_match(t, side, s, name_at(t, s), name_at(t, s), name_at(t, s))
}

/// The gates over one variable that begin before position `n`, each with its variable.
pub open spec fn gates_until(t: Seq<char>, side: Side, n: nat) -> Seq<(int, Seq<char>)>
    decreases n,
{
    if n == 0 {
        Seq::empty()
    } else {
        let s = n - 1;
        if gate_at(t, side, s) {
            gates_until(t, side, s as nat).push((s, name_at(t, s)))
        } else {
            gates_until(t, side, s as nat)
        }
    }
}

/// The gates over one variable in `t`, from left to right, each with its variable.
pub open spec fn gates(t: Seq<char>, side: Side) -> Seq<(int, Seq<char>)> {
    gates_until(t, side, t.len())
}

/// `t` with the listed gates brought from `side` to the other state.
pub open spec fn swapped(t: Seq<char>, side: Side, list: Seq<(int, Seq<char>)>) -> Seq<char>
    decreases list.len(),
{
    if list.len() == 0 {
        t
    } else {
        let (s, v) = list.last();
        swapped(
            text::edit(t, s, gate_of(side, v).len() as int, gate_of(other(side), v)),
            side,
            list.drop_last(),
        )
    }
}

// ---------------------------------------------------------------------------
// Facts about gates
// ---------------------------------------------------------------------------

/// What a gate over one variable is made of.
pub(crate) proof fn lemma_gate_chars(side: Side, v: Seq<char>)
    requires
        name(v),
    ensures
        ({
            let g = gate_of(side, v);
            let n = v.len() as int;
            &&& g.len() == 3 * n + head(side).len() + MIDDLE@.len() + TAIL@.len()
            &&& g.len() > n + 17
            &&& g.subrange(0, n) == v
            &&& g[n] == '.'
            &&& g[n + 1] == (if side == Side::Before { 's' } else { 'i' })
            &&& forall|k: int| n < k < g.len() ==> #[trigger] g[k] != '.'
            &&& forall|k: int|
                0 <= k < g.len() ==> #[trigger] g[k] != '[' && g[k] != ']' && g[k] != '\n'
            &&& g.last() == '`'
        }),
{
    reveal(gate_of);
    reveal_strlit(".startsWith(\"https://\")?`${");
    reveal_strlit(".includes(\"://\")?`${");
    reveal_strlit("}/*`:`https://${");
    reveal_strlit("}/*`");
    let g = gate_of(side, v);
    let n = v.len() as int;
    let h = head(side).len() as int;
    let m = MIDDLE@.len() as int;
    assert(g.subrange(0, n) =~= v);
    assert forall|k: int| 0 <= k < g.len() implies #[trigger] g[k] != '[' && g[k] != ']' && g[k]
        != '\n' && (k > n ==> g[k] != '.') by {
        if k < n {
            assert(g[k] == v[k]);
        } else if k < n + h {
            assert(g[k] == head(side)[k - n]);
        } else if k < 2 * n + h {
            assert(g[k] == v[k - n - h]);
        } else if k < 2 * n + h + m {
            assert(g[k] == MIDDLE@[k - 2 * n - h]);
        } else if k < 3 * n + h + m {
            assert(g[k] == v[k - 2 * n - h - m]);
        } else {
            assert(g[k] == TAIL@[k - 3 * n - h - m]);
        }
    }
    assert(g[n] == head(side)[0]);
    assert(g[n + 1] == head(side)[1]);
    assert(g.last() == TAIL@[3]);
}

/// A name that a full stop follows is the name at its position.
pub(crate) proof fn lemma_name_at(t: Seq<char>, s: int, n: int)
    requires
        0 <= s,
        0 <= n,
        s + n < t.len(),
        name_run(t, s, s + n),
        !name_char(t[s + n]),
    ensures
        name_len(t, s) == n,
        name_at(t, s) == t.subrange(s, s + n),
    decreases n,
{
    if n > 0 {
        assert(name_char(t[s]));
        lemma_name_at(t, s + 1, n - 1);
    }
}

/// The characters of a gate in its text.
pub(crate) proof fn lemma_gate_at(t: Seq<char>, side: Side, s: int)
    requires
        gate_at(t, side, s),
    ensures
        ({
            let v = name_at(t, s);
            let g = gate_of(side, v);
            let n = v.len() as int;
            &&& 0 <= s
            &&& s + g.len() <= t.len()
            &&& n == name_len(t, s)
            &&& n > 0
            &&& g.len() > n + 17
            &&& start_char(t[s])
            &&& name_run(t, s, s + n)
            &&& t[s + n] == '.'
            &&& t[s + n + 1] == (if side == Side::Before { 's' } else { 'i' })
            &&& forall|k: int| s + n < k < s + g.len() ==> #[trigger] t[k] != '.'
            &&& forall|k: int|
                s <= k < s + g.len() ==> #[trigger] t[k] != '[' && t[k] != ']' && t[k] != '\n'
            &&& t[s + g.len() - 1] == '`'
        }),
{
    reveal(gate_at);
    reveal(gate_of);
    let v = name_at(t, s);
    let g = gate_of(side, v);
    let n = v.len() as int;
    lemma_gate_chars(side, v);
    assert forall|k: int| s <= k < s + g.len() implies #[trigger] t[k] == g[k - s] by {
        assert(t.subrange(s, s + g.len())[k - s] == t[k]);
    }
    assert forall|k: int| s <= k < s + n implies name_char(#[trigger] t[k]) by {
        assert(g.subrange(0, n)[k - s] == v[k - s]);
        assert(name_char(v[k - s]));
    }
    assert(t[s] == v[0]) by {
        assert(g.subrange(0, n)[0] == v[0]);
    }
    lemma_name_at(t, s, n);
}

/// Two gates never overlap.
pub(crate) proof fn lemma_gates_apart(t: Seq<char>, side1: Side, s1: int, side2: Side, s2: int)
    requires
        gate_at(t, side1, s1),
        gate_at(t, side2, s2),
        s1 < s2,
    ensures
        s1 + gate_of(side1, name_at(t, s1)).len() <= s2,
{
    reveal(gate_at);
    lemma_gate_at(t, side1, s1);
    lemma_gate_at(t, side2, s2);
    let d1 = s1 + name_at(t, s1).len();
    let d2 = s2 + name_at(t, s2).len();
    let e1 = s1 + gate_of(side1, name_at(t, s1)).len();
    if s2 < e1 {
        if s2 < d1 {
            assert(name_run(t, s1, s2));
            assert(start_char(t[s1]));
            assert(false);
        } else if s2 == d1 {
            assert(false);
        } else {
            if d2 < e1 {
                assert(t[d2] != '.');
            } else {
                assert(name_char(t[e1 - 1]));
            }
            assert(false);
        }
    }
}

/// One position holds the URL gate in one state only.
pub(crate) proof fn lemma_gate_has_one_side(t: Seq<char>, s: int)
    ensures
        !(gate_at(t, Side::Before, s) && gate_at(t, Side::After, s)),
{
    if gate_at(t, Side::Before, s) && gate_at(t, Side::After, s) {
        lemma_gate_at(t, Side::Before, s);
        lemma_gate_at(t, Side::After, s);
    }
}

/// The listed gates are the gates before position `n`, in order.
pub(crate) proof fn lemma_gates_until(t: Seq<char>, side: Side, n: nat)
    ensures
        ({
            let l = gates_until(t, side, n);
            &&& l.len() <= n
            &&& forall|i: int|
                0 <= i < l.len() ==> 0 <= (#[trigger] l[i]).0 < n && gate_at(t, side, l[i].0)
                    && l[i].1 == name_at(t, l[i].0)
            &&& forall|i: int, j: int| 0 <= i < j < l.len() ==> (#[trigger] l[i]).0 < (#[trigger] l[j]).0
            &&& forall|s: int|
                0 <= s < n && gate_at(t, side, s) ==> exists|i: int|
                    0 <= i < l.len() && (#[trigger] l[i]).0 == s
        }),
    decreases n,
{
    if n > 0 {
        let m = (n - 1) as nat;
        lemma_gates_until(t, side, m);
        let k = gates_until(t, side, m);
        let l = gates_until(t, side, n);
        assert forall|s: int| 0 <= s < n && gate_at(t, side, s) implies exists|i: int|
            0 <= i < l.len() && (#[trigger] l[i]).0 == s by {
            if s < m {
                let i = choose|i: int| 0 <= i < k.len() && (#[trigger] k[i]).0 == s;
                assert(l[i] == k[i]);
            } else {
                assert(l[l.len() - 1].0 == s);
            }
        }
    }
}

/// An ordered list of exactly the gates before position `n` is the list of gates.
pub(crate) proof fn lemma_gates_until_is(t: Seq<char>, side: Side, n: nat, l: Seq<(int, Seq<char>)>)
    requires
        forall|i: int|
            0 <= i < l.len() ==> 0 <= (#[trigger] l[i]).0 < n && gate_at(t, side, l[i].0)
                && l[i].1 == name_at(t, l[i].0),
        forall|i: int, j: int| 0 <= i < j < l.len() ==> (#[trigger] l[i]).0 < (#[trigger] l[j]).0,
        forall|s: int|
            0 <= s < n && gate_at(t, side, s) ==> exists|i: int|
                0 <= i < l.len() && (#[trigger] l[i]).0 == s,
    ensures
        gates_until(t, side, n) == l,
    decreases n,
{
    if n == 0 {
        if l.len() > 0 {
            assert(0 <= l[0].0 < n);
        }
        assert(l =~= Seq::empty());
    } else {
        let s = n - 1;
        if gate_at(t, side, s) {
            let i = choose|i: int| 0 <= i < l.len() && (#[trigger] l[i]).0 == s;
            if i < l.len() - 1 {
                assert(l[i].0 < l[l.len() - 1].0);
            }
            let k = l.drop_last();
            assert forall|x: int| 0 <= x < s && gate_at(t, side, x) implies exists|i: int|
                0 <= i < k.len() && (#[trigger] k[i]).0 == x by {
                let i = choose|i: int| 0 <= i < l.len() && (#[trigger] l[i]).0 == x;
                assert(k[i] == l[i]);
            }
            assert forall|i: int| 0 <= i < k.len() implies 0 <= (#[trigger] k[i]).0 < s && gate_at(
                t,
                side,
                k[i].0,
            ) && k[i].1 == name_at(t, k[i].0) by {
                assert(k[i] == l[i]);
                assert(l[i].0 < l[l.len() - 1].0);
            }
            lemma_gates_until_is(t, side, s as nat, k);
            assert(l =~= k.push(l.last()));
        } else {
            assert forall|i: int| 0 <= i < l.len() implies 0 <= (#[trigger] l[i]).0 < s by {
                assert(gate_at(t, side, l[i].0));
            }
            lemma_gates_until_is(t, side, s as nat, l);
        }
    }
}

// ---------------------------------------------------------------------------
// Finding gates
// ---------------------------------------------------------------------------

/// The list holds every gate of `t` in the given state, whatever its three variables, from left
/// to right: the text before it, and its variables.
pub open spec fn lists_matches(
    t: Seq<char>,
    side: Side,
    list: Seq<(String, String, String, String)>,
) -> bool {
    &&& forall|i: int|
        0 <= i < list.len() ==> gate_match(
            t,
            side,
            (#[trigger] list[i]).0@.len() as int,
            list[i].1@,
            list[i].2@,
            list[i].3@,
        ) && text::starts_with(t, list[i].0@)
    &&& forall|i: int, j: int|
        0 <= i < j < list.len() ==> (#[trigger] list[i]).0@.len() < (#[trigger] list[j]).0@.len()
    &&& forall|s: int, v: Seq<char>, a: Seq<char>, b: Seq<char>| #[trigger]
        gate_match(t, side, s, v, a, b) ==> exists|i: int|
            0 <= i < list.len() && (#[trigger] list[i]).0@.len() == s && list[i].1@ == v
                && list[i].2@ == a && list[i].3@ == b
}

/// `regex::Regex::captures_iter` with one of the two gate expressions: gives the non-overlapping
/// matches from left to right, each at its leftmost beginning. Since no part of a gate behind its
/// first full stop holds another one, that is every place where a gate stands, with the longest
/// name before the full stop. What `\w` holds beyond ASCII is a function of the character alone.
#[verifier::external_body]
fn regex_gates(pattern: &str, text: &str) -> (r: Vec<(String, String, String, String)>)
    requires
        pattern@ == GATE_BEFORE@ || pattern@ == GATE_AFTER@,
    ensures
        pattern@ == GATE_BEFORE@ ==> lists_matches(text@, Side::Before, r@),
        pattern@ == GATE_AFTER@ ==> lists_matches(text@, Side::After, r@),
        forall|i: int, k: int|
            0 <= i < r@.len() && 0 <= k < r@[i].1@.len() ==> (#[trigger] r@[i].1@[k]) as u32 >= 128
                ==> unicode_word(r@[i].1@[k]),
{
    let found = regex::Regex::new(pattern).unwrap();
    found
        .captures_iter(text)
        .map(|c| {
            let before = &text[..c.get(0).unwrap().start()];
            (before.to_string(), c["v"].to_string(), c["a"].to_string(), c["b"].to_string())
        })
        .collect()
}

/// A gate over one variable, found in a text.
pub struct Gate {
    /// The number of characters before the URL gate.
    pub at: usize,
    /// Its variable.
    pub var: Vec<char>,
}

/// The positions and variables of found gates.
pub open spec fn gate_views(list: Seq<Gate>) -> Seq<(int, Seq<char>)> {
    list.map_values(|g: Gate| (g.at as int, g.var@))
}

/// Finds the gates over one variable. A gate whose three variables differ is none.
pub fn find_gates(t: &str, side: Side) -> (r: Vec<Gate>)
    ensures
        gate_views(r@) == gates(t@, side),
{
    let found = match side {
        Side::Before => regex_gates(GATE_BEFORE, t),
        Side::After => regex_gates(GATE_AFTER, t),
    };
    let mut out: Vec<Gate> = Vec::new();
    let mut i: usize = 0;
    while i < found.len()
        invariant
            i <= found@.len(),
            lists_matches(t@, side, found@),
            forall|k: int|
                0 <= k < out@.len() ==> gate_at(t@, side, (#[trigger] out@[k]).at as int)
                    && out@[k].var@ == name_at(t@, out@[k].at as int),
            forall|k: int, j: int|
                0 <= k < j < out@.len() ==> (#[trigger] out@[k]).at < (#[trigger] out@[j]).at,
            forall|k: int, j: int|
                0 <= k < out@.len() && i <= j < found@.len() ==> (#[trigger] out@[k]).at < (
                #[trigger] found@[j]).0@.len(),
            forall|j: int|
                0 <= j < i && (#[trigger] found@[j]).1@ == found@[j].2@ && found@[j].1@
                    == found@[j].3@ ==> exists|k: int|
                    0 <= k < out@.len() && (#[trigger] out@[k]).at == found@[j].0@.len(),
        decreases found@.len() - i,
    {
        let same = text::same_text(found[i].1.as_str(), found[i].2.as_str()) && text::same_text(
            found[i].1.as_str(),
            found[i].3.as_str(),
        );
        let ghost before = out@;
        if same {
            let at: usize = text::to_chars(found[i].0.as_str()).len();
            let var = text::to_chars(found[i].1.as_str());
            proof {
                lemma_match_name(t@, side, at as int, var@);
            }
            out.push(Gate { at, var });
            assert forall|j: int|
                0 <= j < i + 1 && (#[trigger] found@[j]).1@ == found@[j].2@ && found@[j].1@
                    == found@[j].3@ implies exists|k: int|
                0 <= k < out@.len() && (#[trigger] out@[k]).at == found@[j].0@.len() by {
                if j < i {
                    let k = choose|k: int|
                        0 <= k < before.len() && (#[trigger] before[k]).at == found@[j].0@.len();
                    assert(out@[k] == before[k]);
                } else {
                    assert(out@[out@.len() - 1].at == found@[j].0@.len());
                }
            }
        }
        i = i + 1;
    }
    proof {
        let l = gate_views(out@);
        assert forall|i: int| 0 <= i < l.len() implies 0 <= (#[trigger] l[i]).0 < t@.len()
            && gate_at(t@, side, l[i].0) && l[i].1 == name_at(t@, l[i].0) by {
            assert(gate_at(t@, side, out@[i].at as int));
            lemma_gate_at(t@, side, out@[i].at as int);
        }
        assert forall|i: int, j: int| 0 <= i < j < l.len() implies (#[trigger] l[i]).0 < (
        #[trigger] l[j]).0 by {
            assert(out@[i].at < out@[j].at);
        }
        assert forall|s: int| 0 <= s < t@.len() && gate_at(t@, side, s) implies exists|i: int|
            0 <= i < l.len() && (#[trigger] l[i]).0 == s by {
            reveal(gate_at);
            let v = name_at(t@, s);
            let j = choose|j: int|
                0 <= j < found@.len() && (#[trigger] found@[j]).0@.len() == s && found@[j].1@ == v
                    && found@[j].2@ == v && found@[j].3@ == v;
            let k = choose|k: int| 0 <= k < out@.len() && (#[trigger] out@[k]).at == found@[j].0@.len();
            assert(l[k].0 == s);
        }
        lemma_gates_until_is(t@, side, t@.len(), l);
    }
    out
}

/// A match begins with its name, and a full stop follows.
proof fn lemma_match_begins(t: Seq<char>, side: Side, s: int, v: Seq<char>)
    requires
        gate_match(t, side, s, v, v, v),
    ensures
        0 <= s,
        s + v.len() < t.len(),
        t.subrange(s, s + v.len()) == v,
        t[s + v.len()] == '.',
{
    let g = gate_of(side, v);
    let n = v.len() as int;
    assert(text::occurs_at(t, g, s)) by {
        reveal(gate_of);
    }
    lemma_gate_chars(side, v);
    let w = t.subrange(s, s + g.len());
    assert(w == g);
    assert(w.subrange(0, n) =~= t.subrange(s, s + n));
    assert(w[n] == t[s + n]);
}

/// The name of a match is the name at its position.
pub(crate) proof fn lemma_match_name(t: Seq<char>, side: Side, s: int, v: Seq<char>)
    requires
        gate_match(t, side, s, v, v, v),
    ensures
        v == name_at(t, s),
        gate_at(t, side, s),
{
    lemma_match_begins(t, side, s, v);
    let n = v.len() as int;
    assert forall|k: int| s <= k < s + n implies name_char(#[trigger] t[k]) by {
        assert(t.subrange(s, s + n)[k - s] == t[k]);
        assert(name_char(v[k - s]));
    }
    lemma_name_at(t, s, n);
    assert(gate_at(t, side, s)) by {
        reveal(gate_at);
    }
}

// ---------------------------------------------------------------------------
// Opening and closing
// ---------------------------------------------------------------------------

/// What an opened file ends with.
pub open spec fn seal() -> Seq<char> {
    "\n"@ + MARKER@ + "\n"@
}

/// Some line of `t` is the marker, up to White_Space around it.
pub open spec fn marked(t: Seq<char>) -> bool {
    exists|i: int|
        0 <= i < text::split_by(t, "\n"@).len() && text::trim(
            #[trigger] text::split_by(t, "\n"@)[i],
        ) == MARKER@
}

/// `t` with its gates opened and the plain pattern added.
pub open spec fn opened(t: Seq<char>) -> Seq<char> {
    text::replace_first(swapped(t, Side::Before, gates(t, Side::Before)), AX_BEFORE@, AX_AFTER@)
}

/// `t` with its gates closed and the plain pattern taken away.
pub open spec fn closed(t: Seq<char>) -> Seq<char> {
    text::replace_first(swapped(t, Side::After, gates(t, Side::After)), AX_AFTER@, AX_BEFORE@)
}

/// The refusal of a file with the wrong number of gates to open.
pub open spec fn patch_count_refusal(n: nat) -> Seq<char> {
    "拒绝打补丁：TraeWork 闸门匹配到 "@ + number::decimal(n)
        + " 处，期望 2 处。上游版本变过，本助手不认识这个版本 —— 不猜、不改。"@
}

/// The refusal of a file without the identity array.
pub open spec fn patch_array_refusal() -> Seq<char> {
    "拒绝打补丁：没找到身份头规则的 pattern 数组。只打闸门而漏掉它，会让应用不再给智能体请求带 Authorization（透传路径直接 401）。"@
}

/// The refusal of a file that does not look opened after it was opened.
pub open spec fn patch_check_refusal() -> Seq<char> {
    "拒绝打补丁：替换后的自检没通过（内存里就已不一致）。"@
}

/// The refusal of a file with the wrong number of gates to close.
pub open spec fn unpatch_count_refusal(n: nat) -> Seq<char> {
    "拒绝还原：补丁后的闸门匹配到 "@ + number::decimal(n)
        + " 处，期望 2 处。TraeWork 可能已升级（文件被整份换过），此时无需还原。"@
}

/// The refusal of a file that does not end with the marker.
pub open spec fn unpatch_seal_refusal() -> Seq<char> {
    "拒绝还原：文件尾没找到完整的补丁标记（期望以 `//[twa-gate v1]` 结尾）。文件可能被改动过，避免写出可疑内容，本次**未做任何改动**。"@
}

/// The refusal of a file that does not look delivered after it was closed.
pub open spec fn unpatch_check_refusal() -> Seq<char> {
    "拒绝还原：反向替换后的自检没通过，一个字节都没写。"@
}

/// The opened file, or why it is refused.
pub open spec fn patch_result(t: Seq<char>) -> Result<Seq<char>, Seq<char>> {
    let n = gates(t, Side::Before).len();
    let out = opened(t);
    if n != GATE_WANT {
        Err(patch_count_refusal(n))
    } else if !text::contains(t, AX_BEFORE@) {
        Err(patch_array_refusal())
    } else if gates(out, Side::After).len() != GATE_WANT || gates(out, Side::Before).len() != 0
        || !text::contains(out, AX_AFTER@) {
        Err(patch_check_refusal())
    } else {
        Ok(out + seal())
    }
}

/// The delivered file, or why closing is refused.
pub open spec fn unpatch_result(t: Seq<char>) -> Result<Seq<char>, Seq<char>> {
    let n = gates(t, Side::After).len();
    let out = closed(t);
    if n != GATE_WANT {
        Err(unpatch_count_refusal(n))
    } else if !text::ends_with(out, seal()) {
        Err(unpatch_seal_refusal())
    } else {
        let body = out.subrange(0, out.len() - seal().len());
        if gates(body, Side::Before).len() != GATE_WANT || gates(body, Side::After).len() != 0
            || marked(body) {
            Err(unpatch_check_refusal())
        } else {
            Ok(body)
        }
    }
}

/// The number of gates in a text that are closed.
pub fn gates_before(t: &str) -> (r: usize)
    ensures
        r == gates(t@, Side::Before).len(),
{
    find_gates(t, Side::Before).len()
}

/// The number of gates in a text that are open.
pub fn gates_after(t: &str) -> (r: usize)
    ensures
        r == gates(t@, Side::After).len(),
{
    find_gates(t, Side::After).len()
}

/// Whether some line of the text is the marker.
pub fn has_marker(t: &str) -> (r: bool)
    ensures
        r == marked(t@),
{
    let chars = text::to_chars(t);
    let newline = text::to_chars("\n");
    let marker = text::to_chars(MARKER);
    proof {
        reveal_strlit("\n");
    }
    let lines = text::split(chars.as_slice(), newline.as_slice());
    let mut i: usize = 0;
    while i < lines.len()
        invariant
            i <= lines@.len(),
            marker@ == MARKER@,
            text::rows(lines@) == text::split_by(t@, "\n"@),
            forall|k: int| 0 <= k < i ==> text::trim((#[trigger] lines@[k])@) != MARKER@,
        decreases lines@.len() - i,
    {
        let line = text::trimmed(lines[i].as_slice());
        assert(text::split_by(t@, "\n"@)[i as int] == lines@[i as int]@);
        if text::same_chars(line, marker.as_slice()) {
            return true;
        }
        i = i + 1;
    }
    assert forall|k: int| 0 <= k < text::split_by(t@, "\n"@).len() implies text::trim(
        #[trigger] text::split_by(t@, "\n"@)[k],
    ) != MARKER@ by {
        assert(text::split_by(t@, "\n"@)[k] == lines@[k]@);
    }
    false
}

/// Whether the array literal stands in the text.
pub fn has_ax(t: &str, needle: &str) -> (r: bool)
    ensures
        r == text::contains(t@, needle@),
{
    text::text_contains(t, needle)
}

/// Writes a gate over one variable.
fn write_gate(side: Side, var: &[char]) -> (r: Vec<char>)
    ensures
        r@ == gate_of(side, var@),
{
    let mut out: Vec<char> = Vec::new();
    text::push_chars(&mut out, var);
    match side {
        Side::Before => text::push_text(&mut out, HEAD_BEFORE),
        Side::After => text::push_text(&mut out, HEAD_AFTER),
    }
    text::push_chars(&mut out, var);
    text::push_text(&mut out, MIDDLE);
    text::push_chars(&mut out, var);
    text::push_text(&mut out, TAIL);
    proof {
        reveal(gate_of);
    }
    assert(out@ == gate_of(side, var@));
    out
}

/// Brings all gates of a text from one state to the other.
fn swap_gates(t: &str, side: Side) -> (r: Vec<char>)
    ensures
        r@ == swapped(t@, side, gates(t@, side)),
{
    let list = find_gates(t, side);
    let ghost l = gates(t@, side);
    let mut out = text::to_chars(t);
    let mut i: usize = list.len();
    proof {
        lemma_gates_until(t@, side, t@.len());
        assert(l.take(i as int) == l);
    }
    while i > 0
        invariant
            i <= list@.len(),
            gate_views(list@) == l,
            l == gates(t@, side),
            swapped(out@, side, l.take(i as int)) == swapped(t@, side, l),
            i == list@.len() ==> out@ == t@,
            i < list@.len() ==> l[i as int].0 <= out@.len(),
        decreases i,
    {
        let ghost rest = l.take(i as int);
        i = i - 1;
        let at: usize = list[i].at;
        let from = write_gate(side, list[i].var.as_slice());
        let to = match side {
            Side::Before => write_gate(Side::After, list[i].var.as_slice()),
            Side::After => write_gate(Side::Before, list[i].var.as_slice()),
        };
        proof {
            assert(l[i as int] == (at as int, list@[i as int].var@));
            lemma_gates_until(t@, side, t@.len());
            lemma_gate_at(t@, side, at as int);
            if i + 1 < list@.len() {
                assert(l[i as int].0 < l[i + 1].0);
                lemma_gates_apart(t@, side, at as int, side, l[i + 1].0);
            }
            assert(rest.last() == l[i as int]);
            assert(rest.drop_last() == l.take(i as int));
            text::lemma_edit_len(out@, at as int, from@.len() as int, to@);
        }
        out = text::edit_at(out.as_slice(), at, from.len(), to.as_slice());
    }
    out
}

/// Opens the gates of a delivered file.
pub fn patch_text(t: &str) -> (r: Result<String, String>)
    ensures
        text::result_text(r) == patch_result(t@),
{
    let before = gates_before(t);
    if before != GATE_WANT {
        let m = text::plus(
            "拒绝打补丁：TraeWork 闸门匹配到 ".to_owned(),
            number::to_decimal(before as u64).as_str(),
        );
        return Err(
            text::plus(m, " 处，期望 2 处。上游版本变过，本助手不认识这个版本 —— 不猜、不改。"),
        );
    }
    if !has_ax(t, AX_BEFORE) {
        return Err(
            "拒绝打补丁：没找到身份头规则的 pattern 数组。只打闸门而漏掉它，会让应用不再给智能体请求带 Authorization（透传路径直接 401）。".to_owned(),
        );
    }
    let swapped_chars = swap_gates(t, Side::Before);
    let ax_before = text::to_chars(AX_BEFORE);
    let ax_after = text::to_chars(AX_AFTER);
    let out = text::to_text(
        text::with_first_replaced(
            swapped_chars.as_slice(),
            ax_before.as_slice(),
            ax_after.as_slice(),
        ).as_slice(),
    );
    if gates_after(out.as_str()) != GATE_WANT || gates_before(out.as_str()) != 0 || !has_ax(
        out.as_str(),
        AX_AFTER,
    ) {
        return Err("拒绝打补丁：替换后的自检没通过（内存里就已不一致）。".to_owned());
    }
    let sealed = text::plus(text::plus(text::plus(out, "\n"), MARKER), "\n");
    assert(sealed@ == out@ + seal());
    Ok(sealed)
}

/// Closes the gates of an opened file.
pub fn unpatch_text(t: &str) -> (r: Result<String, String>)
    ensures
        text::result_text(r) == unpatch_result(t@),
{
    let after = gates_after(t);
    if after != GATE_WANT {
        let m = text::plus(
            "拒绝还原：补丁后的闸门匹配到 ".to_owned(),
            number::to_decimal(after as u64).as_str(),
        );
        return Err(
            text::plus(
                m,
                " 处，期望 2 处。TraeWork 可能已升级（文件被整份换过），此时无需还原。",
            ),
        );
    }
    let swapped_chars = swap_gates(t, Side::After);
    let ax_before = text::to_chars(AX_BEFORE);
    let ax_after = text::to_chars(AX_AFTER);
    let out = text::with_first_replaced(
        swapped_chars.as_slice(),
        ax_after.as_slice(),
        ax_before.as_slice(),
    );
    let end = text::plus(text::plus("\n".to_owned(), MARKER), "\n");
    let end_chars = text::to_chars(end.as_str());
    if out.len() < end_chars.len() || !text::stands_at(
        out.as_slice(),
        end_chars.as_slice(),
        out.len() - end_chars.len(),
    ) {
        return Err(
            "拒绝还原：文件尾没找到完整的补丁标记（期望以 `//[twa-gate v1]` 结尾）。文件可能被改动过，避免写出可疑内容，本次**未做任何改动**。".to_owned(),
        );
    }
    let n: usize = out.len() - end_chars.len();
    let body = text::to_text(vstd::slice::slice_subrange(out.as_slice(), 0, n));
    if gates_before(body.as_str()) != GATE_WANT || gates_after(body.as_str()) != 0 || has_marker(
        body.as_str(),
    ) {
        return Err("拒绝还原：反向替换后的自检没通过，一个字节都没写。".to_owned());
    }
    Ok(body)
}

} // verus!
