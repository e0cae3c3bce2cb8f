//! What opening and closing the URL gate have to do with each other.
use crate::gate;
use crate::gate::{Side, AX_AFTER, AX_BEFORE, GATE_WANT, MARKER};
use crate::text;
use vstd::prelude::*;
use vstd::string::*;

verus! {

// ---------------------------------------------------------------------------
// Edits
// ---------------------------------------------------------------------------

/// Putting the replaced characters back undoes an edit.
proof fn lemma_undo(t: Seq<char>, i: int, n: int, new: Seq<char>)
    requires
        0 <= i,
        0 <= n,
        i + n <= t.len(),
    ensures
        text::edit(text::edit(t, i, n, new), i, new.len() as int, t.subrange(i, i + n)) == t,
{
    reveal(text::edit);
    assert(text::edit(text::edit(t, i, n, new), i, new.len() as int, t.subrange(i, i + n)) =~= t);
}

/// Two edits that do not overlap may be made in either order.
proof fn lemma_commute(
    t: Seq<char>,
    i: int,
    n: int,
    a: Seq<char>,
    j: int,
    m: int,
    b: Seq<char>,
)
    requires
        0 <= i,
        0 <= n,
        i + n <= j,
        0 <= m,
        j + m <= t.len(),
    ensures
        text::edit(text::edit(t, j, m, b), i, n, a) == text::edit(
            text::edit(t, i, n, a),
            j + a.len() - n,
            m,
            b,
        ),
{
    reveal(text::edit);
    assert(text::edit(text::edit(t, j, m, b), i, n, a) =~= text::edit(
        text::edit(t, i, n, a),
        j + a.len() - n,
        m,
        b,
    ));
}

/// An edit before the end of `t` leaves what stands behind `t`.
proof fn lemma_edit_prefix(t: Seq<char>, z: Seq<char>, i: int, n: int, a: Seq<char>)
    requires
        0 <= i,
        0 <= n,
        i + n <= t.len(),
    ensures
        text::edit(t + z, i, n, a) == text::edit(t, i, n, a) + z,
{
    reveal(text::edit);
    assert(text::edit(t + z, i, n, a) =~= text::edit(t, i, n, a) + z);
}

/// Where a place of `len` characters at `s` has moved to by an edit beside it.
spec fn moved(s: int, len: int, i: int, n: int, new_len: int) -> int {
    if s + len <= i {
        s
    } else {
        s + new_len - n
    }
}

/// An occurrence beside an edit stays.
proof fn lemma_occurrence_moves(
    t: Seq<char>,
    i: int,
    n: int,
    new: Seq<char>,
    p: Seq<char>,
    x: int,
)
    requires
        0 <= i,
        0 <= n,
        i + n <= t.len(),
        text::occurs_at(t, p, x),
        x + p.len() <= i || i + n <= x,
    ensures
        text::occurs_at(
            text::edit(t, i, n, new),
            p,
            moved(x, p.len() as int, i, n, new.len() as int),
        ),
{
    reveal(text::edit);
    let u = text::edit(t, i, n, new);
    let y = moved(x, p.len() as int, i, n, new.len() as int);
    assert(u.subrange(y, y + p.len()) =~= t.subrange(x, x + p.len()));
}

/// A gate beside an edit stays, where no name reaches out of the edited place to the right.
proof fn lemma_gate_moves(t: Seq<char>, i: int, n: int, new: Seq<char>, side: Side, s: int)
    requires
        0 <= i,
        0 < n,
        i + n <= t.len(),
        0 < new.len(),
        !gate::name_char(t[i + n - 1]),
        !gate::name_char(new.last()),
        gate::gate_at(t, side, s),
        s + gate::gate_of(side, gate::name_at(t, s)).len() <= i || i + n <= s,
    ensures
        ({
            let v = gate::name_at(t, s);
            let g = gate::gate_of(side, v);
            let s2 = moved(s, g.len() as int, i, n, new.len() as int);
            let u = text::edit(t, i, n, new);
            &&& gate::gate_at(u, side, s2)
            &&& gate::name_at(u, s2) == v
        }),
{
    reveal(text::edit);
    reveal(gate::gate_at);
    reveal(gate::gate_of);
    let v = gate::name_at(t, s);
    let g = gate::gate_of(side, v);
    let u = text::edit(t, i, n, new);
    let s2 = moved(s, g.len() as int, i, n, new.len() as int);
    gate::lemma_gate_at(t, side, s);
    lemma_occurrence_moves(t, i, n, new, g, s);
    let e = i + new.len();
    assert(u[e - 1] == new.last());
    assert forall|j: int| 0 <= j < s2 && gate::name_run(u, j, s2) implies !gate::start_char(
        #[trigger] u[j],
    ) by {
        if s + g.len() <= i {
            assert forall|k: int| j <= k < s implies gate::name_char(#[trigger] t[k]) by {
                assert(u[k] == t[k]);
            }
            assert(gate::name_run(t, j, s));
            assert(!gate::start_char(t[j]));
        } else {
            if j < e {
                assert(gate::name_char(u[e - 1]));
            }
            let d = new.len() - n;
            assert forall|k: int| j - d <= k < s implies gate::name_char(#[trigger] t[k]) by {
                assert(u[k + d] == t[k]);
            }
            assert(gate::name_run(t, j - d, s));
            assert(!gate::start_char(t[j - d]));
            assert(u[j] == t[j - d]);
        }
    }
    gate::lemma_match_name(u, side, s2, v);
}

/// A gate that changes its state is a gate of the other state.
proof fn lemma_gate_turns(t: Seq<char>, side: Side, s: int)
    requires
        gate::gate_at(t, side, s),
    ensures
        ({
            let v = gate::name_at(t, s);
            let g = gate::gate_of(side, v);
            let u = text::edit(t, s, g.len() as int, gate::gate_of(gate::other(side), v));
            &&& gate::gate_at(u, gate::other(side), s)
            &&& gate::name_at(u, s) == v
        }),
{
    reveal(text::edit);
    reveal(gate::gate_at);
    reveal(gate::gate_of);
    let v = gate::name_at(t, s);
    let g = gate::gate_of(side, v);
    let h = gate::gate_of(gate::other(side), v);
    let u = text::edit(t, s, g.len() as int, h);
    gate::lemma_gate_at(t, side, s);
    gate::lemma_gate_chars(gate::other(side), v);
    assert(u.subrange(s, s + h.len()) =~= h);
    assert forall|j: int| 0 <= j < s && gate::name_run(u, j, s) implies !gate::start_char(
        #[trigger] u[j],
    ) by {
        assert forall|k: int| j <= k < s implies gate::name_char(#[trigger] t[k]) by {
            assert(u[k] == t[k]);
        }
        assert(gate::name_run(t, j, s));
        assert(!gate::start_char(t[j]));
    }
    gate::lemma_match_name(u, gate::other(side), s, v);
}

// ---------------------------------------------------------------------------
// The identity array
// ---------------------------------------------------------------------------

/// A literal in square brackets without a backquote or a bracket in between.
#[verifier::opaque]
spec fn array_literal(p: Seq<char>) -> bool {
    &&& p.len() >= 2
    &&& p[0] == '['
    &&& p.last() == ']'
    &&& forall|i: int| 0 <= i < p.len() ==> #[trigger] p[i] != '`'
    &&& forall|i: int| 0 < i < p.len() ==> #[trigger] p[i] != '['
}

/// Both forms of the identity array are such literals.
proof fn lemma_arrays()
    ensures
        array_literal(AX_BEFORE@),
        array_literal(AX_AFTER@),
{
    reveal(array_literal);
    reveal_strlit(r#"["https://*/trae/*","wss://*/explorer/*","ws://*/explorer/*"]"#);
    reveal_strlit(
        r#"["https://*/trae/*","http://*/trae/*","wss://*/explorer/*","ws://*/explorer/*"]"#,
    );
}

/// No name reaches out of an array literal to the right.
proof fn lemma_array_end(t: Seq<char>, p: Seq<char>, x: int)
    requires
        array_literal(p),
        text::occurs_at(t, p, x),
    ensures
        p.len() >= 2,
        !gate::name_char(p.last()),
        !gate::name_char(t[x + p.len() - 1]),
{
    reveal(array_literal);
    assert(t[x + p.len() - 1] == t.subrange(x, x + p.len())[p.len() - 1]);
}

/// An array literal and a gate never overlap.
proof fn lemma_array_apart(t: Seq<char>, side: Side, s: int, p: Seq<char>, x: int)
    requires
        gate::gate_at(t, side, s),
        array_literal(p),
        text::occurs_at(t, p, x),
    ensures
        x + p.len() <= s || s + gate::gate_of(side, gate::name_at(t, s)).len() <= x,
{
    reveal(array_literal);
    gate::lemma_gate_at(t, side, s);
    let e = s + gate::gate_of(side, gate::name_at(t, s)).len();
    let sub = t.subrange(x, x + p.len());
    assert(t[x] == sub[0]);
    assert(t[x + p.len() - 1] == sub[p.len() - 1]);
    if x < s && x + p.len() > s {
        if x + p.len() > e {
            assert(t[e - 1] == sub[e - 1 - x]);
        }
    }
}

// ---------------------------------------------------------------------------
// Opening and closing two gates
// ---------------------------------------------------------------------------

/// `t` with the gates at `p` and `q` brought to the other state.
spec fn turn_two(
    t: Seq<char>,
    side: Side,
    p: int,
    u: Seq<char>,
    q: int,
    w: Seq<char>,
) -> Seq<char> {
    text::edit(
        text::edit(
            t,
            q,
            gate::gate_of(side, w).len() as int,
            gate::gate_of(gate::other(side), w),
        ),
        p,
        gate::gate_of(side, u).len() as int,
        gate::gate_of(gate::other(side), u),
    )
}

/// How much longer a gate over `v` gets when it leaves `side`.
spec fn growth(side: Side, v: Seq<char>) -> int {
    gate::gate_of(gate::other(side), v).len() - gate::gate_of(side, v).len()
}

/// Two gates of one state stand at `p` and `q`, over the variables `u` and `w`.
spec fn two_gates(t: Seq<char>, side: Side, p: int, u: Seq<char>, q: int, w: Seq<char>) -> bool {
    &&& gate::gate_at(t, side, p)
    &&& gate::name_at(t, p) == u
    &&& gate::gate_at(t, side, q)
    &&& gate::name_at(t, q) == w
    &&& p < q
}

/// Turning the gates of a list of two.
proof fn lemma_swapped_two(t: Seq<char>, side: Side, p: int, u: Seq<char>, q: int, w: Seq<char>)
    ensures
        gate::swapped(t, side, seq![(p, u), (q, w)]) == turn_two(t, side, p, u, q, w),
{
    let l = seq![(p, u), (q, w)];
    assert(l.drop_last() =~= seq![(p, u)]);
    assert(seq![(p, u)].drop_last() =~= Seq::<(int, Seq<char>)>::empty());
    reveal_with_fuel(gate::swapped, 3);
}

/// The place of a gate.
proof fn lemma_gate_place(t: Seq<char>, side: Side, s: int)
    requires
        gate::gate_at(t, side, s),
    ensures
        ({
            let n = gate::gate_of(side, gate::name_at(t, s)).len();
            &&& gate::name(gate::name_at(t, s))
            &&& 0 <= s
            &&& 0 < n
            &&& s + n <= t.len()
            &&& !gate::name_char(t[s + n - 1])
            &&& t.subrange(s, s + n) == gate::gate_of(side, gate::name_at(t, s))
        }),
{
    reveal(gate::gate_at);
    reveal(gate::gate_of);
    gate::lemma_gate_at(t, side, s);
}

/// No name reaches out of a gate to the right.
proof fn lemma_gate_end(side: Side, v: Seq<char>)
    requires
        gate::name(v),
    ensures
        gate::gate_of(side, v).len() > 0,
        !gate::name_char(gate::gate_of(side, v).last()),
{
    gate::lemma_gate_chars(side, v);
}

/// After turning, the two gates are gates of the other state.
proof fn lemma_turned(t: Seq<char>, side: Side, p: int, u: Seq<char>, q: int, w: Seq<char>)
    requires
        two_gates(t, side, p, u, q, w),
    ensures
        two_gates(
            turn_two(t, side, p, u, q, w),
            gate::other(side),
            p,
            u,
            q + growth(side, u),
            w,
        ),
        p + gate::gate_of(side, u).len() <= q,
        q + gate::gate_of(side, w).len() <= t.len(),
{
    let o = gate::other(side);
    let a = gate::gate_of(side, u).len() as int;
    let b = gate::gate_of(side, w).len() as int;
    let gu = gate::gate_of(o, u);
    let gw = gate::gate_of(o, w);
    gate::lemma_gates_apart(t, side, p, side, q);
    lemma_gate_place(t, side, p);
    lemma_gate_place(t, side, q);
    lemma_gate_end(o, w);
    lemma_gate_end(o, u);
    let t1 = text::edit(t, q, b, gw);
    assert(gate::gate_at(t1, o, q) && gate::name_at(t1, q) == w) by {
        lemma_gate_turns(t, side, q);
    }
    assert(gate::gate_at(t1, side, p) && gate::name_at(t1, p) == u) by {
        lemma_gate_moves(t, q, b, gw, side, p);
    }
    let t2 = text::edit(t1, p, a, gu);
    assert(gate::gate_at(t2, o, p) && gate::name_at(t2, p) == u) by {
        lemma_gate_turns(t1, side, p);
    }
    lemma_gate_place(t1, side, p);
    lemma_gate_moves(t1, p, a, gu, o, q);
}

/// Turning two gates there and back leaves the text as it was.
proof fn lemma_turn_back(t: Seq<char>, side: Side, p: int, u: Seq<char>, q: int, w: Seq<char>)
    requires
        two_gates(t, side, p, u, q, w),
    ensures
        turn_two(
            turn_two(t, side, p, u, q, w),
            gate::other(side),
            p,
            u,
            q + growth(side, u),
            w,
        ) == t,
{
    let o = gate::other(side);
    let a = gate::gate_of(side, u);
    let b = gate::gate_of(side, w);
    let a2 = gate::gate_of(o, u);
    let b2 = gate::gate_of(o, w);
    lemma_turned(t, side, p, u, q, w);
    lemma_gate_place(t, side, p);
    lemma_gate_place(t, side, q);
    let c = turn_two(t, side, p, u, q, w);
    let tp = text::edit(t, p, a.len() as int, a2);
    lemma_commute(t, p, a.len() as int, a2, q, b.len() as int, b2);
    assert(c == text::edit(tp, q + growth(side, u), b.len() as int, b2));
    assert(tp.subrange(q + growth(side, u), q + growth(side, u) + b.len()) =~= b) by {
        reveal(text::edit);
    }
    text::lemma_edit_len(t, p, a.len() as int, a2);
    lemma_undo(tp, q + growth(side, u), b.len() as int, b2);
    lemma_undo(t, p, a.len() as int, a2);
    assert(gate::other(o) == side);
}

/// Where position `x` outside of the two gates has moved to when they have turned.
spec fn through(x: int, side: Side, p: int, u: Seq<char>, q: int, w: Seq<char>) -> int {
    x + (if x > p {
        growth(side, u)
    } else {
        0
    }) + (if x > q {
        growth(side, w)
    } else {
        0
    })
}

/// An array literal outlives the turning of two gates.
proof fn lemma_array_through(
    t: Seq<char>,
    side: Side,
    p: int,
    u: Seq<char>,
    q: int,
    w: Seq<char>,
    lit: Seq<char>,
    x: int,
)
    requires
        two_gates(t, side, p, u, q, w),
        array_literal(lit),
        text::occurs_at(t, lit, x),
    ensures
        text::occurs_at(turn_two(t, side, p, u, q, w), lit, through(x, side, p, u, q, w)),
        x + lit.len() <= p || p + gate::gate_of(side, u).len() <= x,
        x + lit.len() <= q || q + gate::gate_of(side, w).len() <= x,
{
    let o = gate::other(side);
    let a = gate::gate_of(side, u).len() as int;
    let b = gate::gate_of(side, w).len() as int;
    let t1 = text::edit(t, q, b, gate::gate_of(o, w));
    lemma_turned(t, side, p, u, q, w);
    lemma_array_apart(t, side, p, lit, x);
    lemma_array_apart(t, side, q, lit, x);
    lemma_gate_place(t, side, p);
    lemma_gate_place(t, side, q);
    lemma_gate_end(o, w);
    lemma_occurrence_moves(t, q, b, gate::gate_of(o, w), lit, x);
    let x1 = moved(x, lit.len() as int, q, b, gate::gate_of(o, w).len() as int);
    text::lemma_edit_len(t, q, b, gate::gate_of(o, w));
    lemma_occurrence_moves(t1, p, a, gate::gate_of(o, u), lit, x1);
}

/// A gate of the other state outlives the turning of two gates.
proof fn lemma_gate_through(
    t: Seq<char>,
    side: Side,
    p: int,
    u: Seq<char>,
    q: int,
    w: Seq<char>,
    s: int,
)
    requires
        two_gates(t, side, p, u, q, w),
        gate::gate_at(t, gate::other(side), s),
    ensures
        gate::gate_at(
            turn_two(t, side, p, u, q, w),
            gate::other(side),
            through(s, side, p, u, q, w),
        ),
        through(s, side, p, u, q, w) != p,
        through(s, side, p, u, q, w) != q + growth(side, u),
{
    reveal(text::edit);
    let o = gate::other(side);
    let a = gate::gate_of(side, u).len() as int;
    let b = gate::gate_of(side, w).len() as int;
    let gu = gate::gate_of(o, u);
    let gw = gate::gate_of(o, w);
    let v = gate::name_at(t, s);
    let n = gate::gate_of(o, v).len() as int;
    let t1 = text::edit(t, q, b, gw);
    lemma_turned(t, side, p, u, q, w);
    gate::lemma_gate_has_one_side(t, p);
    gate::lemma_gate_has_one_side(t, q);
    if s < p {
        gate::lemma_gates_apart(t, o, s, side, p);
    } else {
        gate::lemma_gates_apart(t, side, p, o, s);
    }
    if s < q {
        gate::lemma_gates_apart(t, o, s, side, q);
    } else {
        gate::lemma_gates_apart(t, side, q, o, s);
    }
    lemma_gate_place(t, side, p);
    lemma_gate_place(t, side, q);
    lemma_gate_place(t, o, s);
    lemma_gate_end(o, w);
    lemma_gate_end(o, u);
    lemma_gate_moves(t, q, b, gw, o, s);
    let s1 = moved(s, n, q, b, gw.len() as int);
    assert(t1[p + a - 1] == t[p + a - 1]);
    lemma_gate_moves(t1, p, a, gu, o, s1);
}

/// Replacing an array literal and turning two gates may be done in either order.
proof fn lemma_array_commutes(
    t: Seq<char>,
    side: Side,
    p: int,
    u: Seq<char>,
    q: int,
    w: Seq<char>,
    lit: Seq<char>,
    x: int,
    new: Seq<char>,
)
    requires
        two_gates(t, side, p, u, q, w),
        array_literal(lit),
        array_literal(new),
        text::occurs_at(t, lit, x),
    ensures
        ({
            let m = lit.len() as int;
            let c = text::edit(t, x, m, new);
            let p2 = if x < p { p + new.len() - m } else { p };
            let q2 = if x < q { q + new.len() - m } else { q };
            &&& text::edit(
                turn_two(t, side, p, u, q, w),
                through(x, side, p, u, q, w),
                m,
                new,
            ) == turn_two(c, side, p2, u, q2, w)
            &&& two_gates(c, side, p2, u, q2, w)
        }),
{
    let o = gate::other(side);
    let a = gate::gate_of(side, u).len() as int;
    let b = gate::gate_of(side, w).len() as int;
    let gu = gate::gate_of(o, u);
    let gw = gate::gate_of(o, w);
    let m = lit.len() as int;
    let c = text::edit(t, x, m, new);
    let t1 = text::edit(t, q, b, gw);
    lemma_turned(t, side, p, u, q, w);
    lemma_array_through(t, side, p, u, q, w, lit, x);
    lemma_gate_place(t, side, p);
    lemma_gate_place(t, side, q);
    lemma_array_end(t, lit, x);
    assert(new.subrange(0, new.len() as int) =~= new);
    lemma_array_end(new, new, 0);
    lemma_gate_moves(t, x, m, new, side, p);
    lemma_gate_moves(t, x, m, new, side, q);
    text::lemma_edit_len(t, q, b, gw);
    if x < p {
        lemma_commute(t1, x, m, new, p, a, gu);
        lemma_commute(t, x, m, new, q, b, gw);
    } else if x < q {
        lemma_commute(t1, p, a, gu, x, m, new);
        lemma_commute(t, x, m, new, q, b, gw);
    } else {
        lemma_commute(t, q, b, gw, x, m, new);
        lemma_commute(t1, p, a, gu, x + gw.len() - b, m, new);
    }
}

// ---------------------------------------------------------------------------
// Lists of gates
// ---------------------------------------------------------------------------

/// Two gates in a text that has two are all its gates.
proof fn lemma_two_listed(t: Seq<char>, side: Side, p: int, u: Seq<char>, q: int, w: Seq<char>)
    requires
        two_gates(t, side, p, u, q, w),
        gate::gates(t, side).len() == 2,
    ensures
        gate::gates(t, side) == seq![(p, u), (q, w)],
{
    let l = gate::gates(t, side);
    gate::lemma_gates_until(t, side, t.len());
    lemma_gate_place(t, side, p);
    lemma_gate_place(t, side, q);
    let i = choose|i: int| 0 <= i < l.len() && (#[trigger] l[i]).0 == p;
    let j = choose|j: int| 0 <= j < l.len() && (#[trigger] l[j]).0 == q;
    assert(l[0].0 < l[1].0);
    assert(i == 0 && j == 1);
    assert(l =~= seq![(p, u), (q, w)]);
}

/// A text with two listed gates has no third one.
proof fn lemma_no_third(t: Seq<char>, side: Side, p: int, q: int, s: int)
    requires
        gate::gates(t, side).len() == 2,
        gate::gate_at(t, side, p),
        gate::gate_at(t, side, q),
        gate::gate_at(t, side, s),
        p != q,
        s != p,
    ensures
        s == q,
{
    let l = gate::gates(t, side);
    gate::lemma_gates_until(t, side, t.len());
    lemma_gate_place(t, side, p);
    lemma_gate_place(t, side, q);
    lemma_gate_place(t, side, s);
    let i = choose|i: int| 0 <= i < l.len() && (#[trigger] l[i]).0 == p;
    let j = choose|j: int| 0 <= j < l.len() && (#[trigger] l[j]).0 == q;
    let k = choose|k: int| 0 <= k < l.len() && (#[trigger] l[k]).0 == s;
    assert(i != j && i != k);
}

/// A gate depends only on the text up to its end.
proof fn lemma_gate_prefix(t1: Seq<char>, t2: Seq<char>, n: int, side: Side, s: int)
    requires
        gate::gate_at(t1, side, s),
        s + gate::gate_of(side, gate::name_at(t1, s)).len() <= n,
        n <= t1.len(),
        n <= t2.len(),
        t1.subrange(0, n) == t2.subrange(0, n),
    ensures
        gate::gate_at(t2, side, s),
        gate::name_at(t2, s) == gate::name_at(t1, s),
{
    reveal(gate::gate_at);
    reveal(gate::gate_of);
    let v = gate::name_at(t1, s);
    let g = gate::gate_of(side, v);
    lemma_gate_place(t1, side, s);
    assert forall|k: int| 0 <= k < n implies #[trigger] t1[k] == t2[k] by {
        assert(t1[k] == t1.subrange(0, n)[k]);
        assert(t2[k] == t2.subrange(0, n)[k]);
    }
    assert(t2.subrange(s, s + g.len()) =~= t1.subrange(s, s + g.len()));
    assert forall|j: int| 0 <= j < s && gate::name_run(t2, j, s) implies !gate::start_char(
        #[trigger] t2[j],
    ) by {
        assert forall|k: int| j <= k < s implies gate::name_char(#[trigger] t1[k]) by {
            assert(t2[k] == t1[k]);
        }
        assert(gate::name_run(t1, j, s));
        assert(t1[j] == t2[j]);
    }
    gate::lemma_match_name(t2, side, s, v);
}

/// Sealing a text adds no gate and takes none away.
proof fn lemma_sealed_gates(t: Seq<char>, side: Side)
    ensures
        gate::gates(t + gate::seal(), side) == gate::gates(t, side),
{
    let z = gate::seal();
    let c = t + z;
    let n = t.len() as int;
    let l = gate::gates(t, side);
    reveal_strlit("\n");
    reveal_strlit("//[twa-gate v1]");
    assert(z.len() == 17);
    assert(c[n] == '\n');
    gate::lemma_gates_until(t, side, t.len());
    assert(c.subrange(0, n) =~= t.subrange(0, n));
    assert forall|i: int| 0 <= i < l.len() implies 0 <= (#[trigger] l[i]).0 < c.len()
        && gate::gate_at(c, side, l[i].0) && l[i].1 == gate::name_at(c, l[i].0) by {
        lemma_gate_place(t, side, l[i].0);
        lemma_gate_prefix(t, c, n, side, l[i].0);
    }
    assert forall|s: int| 0 <= s < c.len() && gate::gate_at(c, side, s) implies exists|i: int|
        0 <= i < l.len() && (#[trigger] l[i]).0 == s by {
        gate::lemma_gate_at(c, side, s);
        lemma_gate_prefix(c, t, n, side, s);
    }
    gate::lemma_gates_until_is(c, side, c.len(), l);
}

// ---------------------------------------------------------------------------
// The law
// ---------------------------------------------------------------------------

/// No opened identity array stands in `t` before the first delivered one.
pub open spec fn array_in_front(t: Seq<char>) -> bool {
    forall|j: int|
        0 <= j && (text::find_from(t, AX_BEFORE@, 0) matches Some(x) ==> j < x)
            ==> !#[trigger] text::occurs_at(t, AX_AFTER@, j)
}

/// Closing an opened file gives the delivered file back, character by character.
///
/// The delivered file holds no marker line (closing refuses a file that still has one), and no
/// opened identity array in front of the delivered one (closing would take the wrong one).
pub proof fn law_close_undoes_open(t: Seq<char>)
    requires
        gate::patch_result(t) is Ok,
        !gate::marked(t),
        array_in_front(t),
    ensures
        gate::unpatch_result(gate::patch_result(t)->Ok_0) == Ok::<Seq<char>, Seq<char>>(t),
{
    let lit = AX_BEFORE@;
    let new = AX_AFTER@;
    let m = lit.len() as int;
    let z = gate::seal();
    lemma_arrays();
    let l = gate::gates(t, Side::Before);
    gate::lemma_gates_until(t, Side::Before, t.len());
    let (p, u) = l[0];
    let (q, w) = l[1];
    assert(l =~= seq![(p, u), (q, w)]);
    assert(l[0].0 < l[1].0);
    lemma_swapped_two(t, Side::Before, p, u, q, w);
    let t2 = turn_two(t, Side::Before, p, u, q, w);
    text::lemma_find_from(t, lit, 0);
    let x = text::find_from(t, lit, 0)->0;
    let y = through(x, Side::Before, p, u, q, w);
    lemma_first_array(t, p, u, q, w);
    let t4 = text::edit(t, x, m, new);
    let p4 = if x < p { p + new.len() - m } else { p };
    let q4 = if x < q { q + new.len() - m } else { q };
    lemma_array_commutes(t, Side::Before, p, u, q, w, lit, x, new);
    let t3 = gate::opened(t);
    assert(t3 == turn_two(t4, Side::Before, p4, u, q4, w));
    lemma_turned(t4, Side::Before, p4, u, q4, w);
    let q3 = q4 + growth(Side::Before, u);
    lemma_two_listed(t3, Side::After, p4, u, q3, w);
    lemma_sealed_gates(t3, Side::After);
    let c = t3 + z;
    lemma_swapped_two(c, Side::After, p4, u, q3, w);
    lemma_turned(t3, Side::After, p4, u, q3, w);
    lemma_turn_back(t4, Side::Before, p4, u, q4, w);
    assert(turn_two(c, Side::After, p4, u, q3, w) == t4 + z) by {
        let b = gate::gate_of(Side::After, w).len() as int;
        let a = gate::gate_of(Side::After, u).len() as int;
        lemma_gate_place(t3, Side::After, p4);
        lemma_gate_place(t3, Side::After, q3);
        lemma_edit_prefix(t3, z, q3, b, gate::gate_of(Side::Before, w));
        let t5 = text::edit(t3, q3, b, gate::gate_of(Side::Before, w));
        text::lemma_edit_len(t3, q3, b, gate::gate_of(Side::Before, w));
        lemma_edit_prefix(t5, z, p4, a, gate::gate_of(Side::Before, u));
    }
    lemma_first_opened_array(t, x);
    lemma_undo(t, x, m, new);
    text::lemma_edit_len(t, x, m, new);
    lemma_edit_prefix(t4, z, x, new.len() as int, lit);
    assert(gate::closed(c) == t + z);
    assert((t + z).subrange(0, (t + z).len() - z.len()) =~= t);
    assert((t + z).subrange(t.len() as int, (t.len() + z.len()) as int) =~= z);
    assert(gate::gates(t, Side::After).len() == 0) by {
        let la = gate::gates(t, Side::After);
        if la.len() > 0 {
            gate::lemma_gates_until(t, Side::After, t.len());
            let s = la[0].0;
            lemma_array_apart(t, Side::After, s, lit, x);
            lemma_array_end(t, lit, x);
            assert(new.subrange(0, new.len() as int) =~= new);
            lemma_array_end(new, new, 0);
            lemma_gate_moves(t, x, m, new, Side::After, s);
            let n = gate::gate_of(Side::After, gate::name_at(t, s)).len() as int;
            let s4 = moved(s, n, x, m, new.len() as int);
            lemma_gate_through(t4, Side::Before, p4, u, q4, w, s4);
            lemma_no_third(
                t3,
                Side::After,
                p4,
                q3,
                through(s4, Side::Before, p4, u, q4, w),
            );
        }
    }
}

/// The first identity array stays the first when the gates open.
proof fn lemma_first_array(t: Seq<char>, p: int, u: Seq<char>, q: int, w: Seq<char>)
    requires
        two_gates(t, Side::Before, p, u, q, w),
        text::contains(t, AX_BEFORE@),
    ensures
        ({
            let x = text::find_from(t, AX_BEFORE@, 0)->0;
            text::find_from(turn_two(t, Side::Before, p, u, q, w), AX_BEFORE@, 0) == Some(
                through(x, Side::Before, p, u, q, w),
            )
        }),
{
    let lit = AX_BEFORE@;
    lemma_arrays();
    text::lemma_find_from(t, lit, 0);
    let x = text::find_from(t, lit, 0)->0;
    let y = through(x, Side::Before, p, u, q, w);
    let t2 = turn_two(t, Side::Before, p, u, q, w);
    let q2 = q + growth(Side::Before, u);
    lemma_array_through(t, Side::Before, p, u, q, w, lit, x);
    text::lemma_find_from(t2, lit, 0);
    let y2 = text::find_from(t2, lit, 0)->0;
    lemma_turned(t, Side::Before, p, u, q, w);
    lemma_turn_back(t, Side::Before, p, u, q, w);
    lemma_array_through(t2, Side::After, p, u, q2, w, lit, y2);
    let x2 = through(y2, Side::After, p, u, q2, w);
    assert(x <= x2);
    assert(y2 <= y);
    lemma_gate_place(t, Side::Before, p);
    lemma_gate_place(t, Side::Before, q);
    lemma_gate_end(Side::After, u);
    lemma_gate_end(Side::After, w);
    lemma_array_through(t, Side::Before, p, u, q, w, lit, x2);
}

/// In the text whose first array was opened, that array is the first opened one.
proof fn lemma_first_opened_array(t: Seq<char>, x: int)
    requires
        text::find_from(t, AX_BEFORE@, 0) == Some(x),
        array_in_front(t),
    ensures
        ({
            let c = text::edit(t, x, AX_BEFORE@.len() as int, AX_AFTER@) + gate::seal();
            text::find_from(c, AX_AFTER@, 0) == Some(x)
        }),
{
    reveal(array_literal);
    reveal(text::edit);
    let lit = AX_BEFORE@;
    let new = AX_AFTER@;
    lemma_arrays();
    text::lemma_find_from(t, lit, 0);
    let c = text::edit(t, x, lit.len() as int, new) + gate::seal();
    assert(c.subrange(x, x + new.len()) =~= new);
    assert forall|j: int| 0 <= j < x implies !text::occurs_at(c, new, j) by {
        if text::occurs_at(c, new, j) {
            let sub = c.subrange(j, j + new.len());
            if x < j + new.len() {
                assert(c[x] == sub[x - j]);
                assert(c[x] == c.subrange(x, x + new.len())[0]);
                assert(new[x - j] != '[');
            } else {
                assert(t.subrange(j, j + new.len()) =~= sub);
                assert(text::occurs_at(t, new, j));
            }
        }
    }
    text::lemma_find_is(c, new, 0, x);
}

/// A line between two line ends is a piece of the text.
proof fn lemma_line_is_piece(x: Seq<char>, y: Seq<char>)
    requires
        forall|k: int| 0 <= k < y.len() ==> #[trigger] y[k] != '\n',
    ensures
        ({
            let pieces = text::split_by(x + "\n"@ + y + "\n"@, "\n"@);
            exists|i: int| 0 <= i < pieces.len() && #[trigger] pieces[i] == y
        }),
    decreases x.len(),
{
    reveal_strlit("\n");
    let nl = "\n"@;
    let s = x + nl + y + nl;
    text::lemma_find_from(s, nl, 0);
    assert(s.subrange(x.len() as int, x.len() as int + 1) =~= nl);
    assert(text::occurs_at(s, nl, x.len() as int));
    let i = text::find_from(s, nl, 0)->0;
    let rest = s.subrange(i + 1, s.len() as int);
    let pieces = text::split_by(s, nl);
    assert(pieces == seq![s.subrange(0, i)] + text::split_by(rest, nl));
    if i < x.len() {
        let x2 = x.subrange(i + 1, x.len() as int);
        assert(rest =~= x2 + nl + y + nl);
        lemma_line_is_piece(x2, y);
        let k = choose|k: int|
            0 <= k < text::split_by(rest, nl).len() && #[trigger] text::split_by(rest, nl)[k] == y;
        assert(pieces[k + 1] == y);
    } else {
        assert(rest =~= y + nl);
        assert(rest.subrange(y.len() as int, y.len() as int + 1) =~= nl);
        assert forall|j: int| 0 <= j < y.len() implies !text::occurs_at(rest, nl, j) by {
            assert(rest.subrange(j, j + 1)[0] == y[j]);
        }
        text::lemma_find_is(rest, nl, 0, y.len() as int);
        let tail = text::split_by(rest.subrange(y.len() as int + 1, rest.len() as int), nl);
        assert(text::split_by(rest, nl) == seq![rest.subrange(0, y.len() as int)] + tail);
        assert(rest.subrange(0, y.len() as int) =~= y);
        assert(pieces[1] == y);
    }
}

/// An opened file counts as opened: it has a marker line, its gates are open, and the plain
/// pattern stands in it.
pub proof fn law_opened_file_is_recognised(t: Seq<char>)
    requires
        gate::patch_result(t) is Ok,
    ensures
        ({
            let p = gate::patch_result(t)->Ok_0;
            &&& gate::marked(p)
            &&& gate::gates(p, Side::After).len() == GATE_WANT
            &&& text::contains(p, AX_AFTER@)
        }),
{
    let out = gate::opened(t);
    let p = out + gate::seal();
    lemma_sealed_gates(out, Side::After);
    assert(text::contains(p, AX_AFTER@)) by {
        text::lemma_find_from(out, AX_AFTER@, 0);
        let x = text::find_from(out, AX_AFTER@, 0)->0;
        assert(p.subrange(x, x + AX_AFTER@.len()) =~= out.subrange(x, x + AX_AFTER@.len()));
        assert(text::occurs_at(p, AX_AFTER@, x));
        text::lemma_contains(p, AX_AFTER@);
    }
    reveal_strlit("//[twa-gate v1]");
    reveal_strlit("\n");
    assert(p =~= out + "\n"@ + MARKER@ + "\n"@);
    lemma_line_is_piece(out, MARKER@);
    assert(text::trim(MARKER@) == MARKER@);
}

// ---------------------------------------------------------------------------
// What gates are, and what opening them changes
// ---------------------------------------------------------------------------

/// The text of a closed gate over a variable: it takes an address as it is only with the secure
/// scheme.
pub open spec fn closed_gate(v: Seq<char>) -> Seq<char> {
    v + ".startsWith(\"https://\")?`${"@ + v + "}/*`:`https://${"@ + v + "}/*`"@
}

/// The text of an open gate over a variable: it takes an address with any scheme as it is.
pub open spec fn open_gate(v: Seq<char>) -> Seq<char> {
    v + ".includes(\"://\")?`${"@ + v + "}/*`:`https://${"@ + v + "}/*`"@
}

/// The gates that are found stand in the text, from left to right, each over one variable.
pub proof fn law_gates_stand_in_the_text(t: Seq<char>, i: int)
    ensures
        0 <= i < gate::gates(t, Side::Before).len() ==> {
            let (s, v) = gate::gates(t, Side::Before)[i];
            text::occurs_at(t, closed_gate(v), s) && gate::name(v)
        },
        0 <= i < gate::gates(t, Side::After).len() ==> {
            let (s, v) = gate::gates(t, Side::After)[i];
            text::occurs_at(t, open_gate(v), s) && gate::name(v)
        },
        0 < i < gate::gates(t, Side::Before).len() ==> gate::gates(t, Side::Before)[i - 1].0
            < gate::gates(t, Side::Before)[i].0,
        0 < i < gate::gates(t, Side::After).len() ==> gate::gates(t, Side::After)[i - 1].0
            < gate::gates(t, Side::After)[i].0,
{
    gate::lemma_gates_until(t, Side::Before, t.len());
    gate::lemma_gates_until(t, Side::After, t.len());
    reveal(gate::gate_at);
}

/// Opening one closed gate changes the test in it and nothing else; closing it changes it back.
pub proof fn law_opening_changes_the_test(pre: Seq<char>, v: Seq<char>, post: Seq<char>)
    ensures
        gate::swapped(pre + closed_gate(v) + post, Side::Before, seq![(pre.len() as int, v)]) == pre
            + open_gate(v) + post,
        gate::swapped(pre + open_gate(v) + post, Side::After, seq![(pre.len() as int, v)]) == pre
            + closed_gate(v) + post,
        gate::swapped(pre, Side::Before, Seq::empty()) == pre,
{
    let l = seq![(pre.len() as int, v)];
    let e = Seq::<(int, Seq<char>)>::empty();
    assert(l.drop_last() =~= e);
    reveal(gate::gate_of);
    reveal(text::edit);
    let a = pre + closed_gate(v) + post;
    let b = pre + open_gate(v) + post;
    let n = pre.len() as int;
    assert(gate::gate_of(Side::Before, v) =~= closed_gate(v));
    assert(gate::gate_of(Side::After, v) =~= open_gate(v));
    assert(a.subrange(0, n) =~= pre);
    assert(a.subrange(n + closed_gate(v).len(), a.len() as int) =~= post);
    assert(b.subrange(0, n) =~= pre);
    assert(b.subrange(n + open_gate(v).len(), b.len() as int) =~= post);
    assert(text::edit(a, n, closed_gate(v).len() as int, open_gate(v)) =~= b);
    assert(text::edit(b, n, open_gate(v).len() as int, closed_gate(v)) =~= a);
    assert(gate::swapped(b, Side::Before, e) == b);
    assert(gate::swapped(a, Side::After, e) == a);
}

/// A file is opened only with exactly two closed gates and the delivered identity array in it; what
/// is written has two open gates and no closed one, and ends with the marker on a line of its own.
pub proof fn law_what_is_opened(t: Seq<char>)
    ensures
        gate::gates(t, Side::Before).len() != 2 ==> gate::patch_result(t) is Err,
        !text::contains(
            t,
            "[\"https://*/trae/*\",\"wss://*/explorer/*\",\"ws://*/explorer/*\"]"@,
        ) ==> gate::patch_result(t) is Err,
        gate::patch_result(t) matches Ok(r) ==> {
            &&& gate::opened(t).is_prefix_of(r)
            &&& r.len() == gate::opened(t).len() + 17
            &&& "\n//[twa-gate v1]\n"@.is_suffix_of(r)
            &&& gate::gates(gate::opened(t), Side::After).len() == 2
            &&& gate::gates(gate::opened(t), Side::Before).len() == 0
            &&& text::contains(
                gate::opened(t),
                "[\"https://*/trae/*\",\"http://*/trae/*\",\"wss://*/explorer/*\",\"ws://*/explorer/*\"]"@,
            )
        },
{
    reveal_strlit("\n");
    reveal_strlit("//[twa-gate v1]");
    reveal_strlit("\n//[twa-gate v1]\n");
    assert(gate::seal() =~= "\n//[twa-gate v1]\n"@);
    assert(gate::seal().len() == 17);
    lemma_array_literals();
}

/// The identity arrays, written with quoted quotes.
proof fn lemma_array_literals()
    ensures
        AX_BEFORE@ == "[\"https://*/trae/*\",\"wss://*/explorer/*\",\"ws://*/explorer/*\"]"@,
        AX_AFTER@
            == "[\"https://*/trae/*\",\"http://*/trae/*\",\"wss://*/explorer/*\",\"ws://*/explorer/*\"]"@,
{
}

/// A file is closed only with exactly two open gates and the marker at its end; what is written has
/// two closed gates, no open one and no marker.
pub proof fn law_what_is_closed(t: Seq<char>)
    ensures
        gate::gates(t, Side::After).len() != 2 ==> gate::unpatch_result(t) is Err,
        !"\n//[twa-gate v1]\n"@.is_suffix_of(gate::closed(t)) ==> gate::unpatch_result(t) is Err,
        gate::unpatch_result(t) matches Ok(r) ==> {
            &&& gate::closed(t) == r + "\n//[twa-gate v1]\n"@
            &&& gate::gates(r, Side::Before).len() == 2
            &&& gate::gates(r, Side::After).len() == 0
            &&& !gate::marked(r)
        },
{
    reveal_strlit("\n");
    reveal_strlit("//[twa-gate v1]");
    reveal_strlit("\n//[twa-gate v1]\n");
    let z = gate::seal();
    assert(z =~= "\n//[twa-gate v1]\n"@);
    let c = gate::closed(t);
    if text::ends_with(c, z) {
        assert(c.subrange(c.len() - z.len(), c.len() as int) =~= z);
        assert(z.is_suffix_of(c));
        assert(c =~= c.subrange(0, c.len() - z.len()) + z);
    }
}

/// A text is marked exactly where one of its lines is the marker, up to White_Space around it.
pub proof fn law_what_is_marked(t: Seq<char>)
    ensures
        gate::marked(t) <==> exists|i: int|
            0 <= i < text::split_by(t, seq!['\n']).len() && text::trim(
                #[trigger] text::split_by(t, seq!['\n'])[i],
            ) == "//[twa-gate v1]"@,
{
    reveal_strlit("\n");
    assert("\n"@ =~= seq!['\n']);
}

} // verus!
