//! What a check-in sends, and what the answers to it mean.
use crate::accounts::Account;
use crate::checkin;
use crate::checkin::Checkin;
use crate::http;
use crate::json;
use crate::json::JsonV;
use crate::number;
use crate::proxy_laws;
use crate::text;
use vstd::prelude::*;
use vstd::string::*;
use vstd::utf8::*;

verus! {

// ---------------------------------------------------------------------------
// What is sent
// ---------------------------------------------------------------------------

/// Among the lines exactly one value goes with a name, or none does.
pub open spec fn line_says(
    lines: Seq<(Seq<char>, Seq<char>)>,
    name: Seq<char>,
    value: Option<Seq<char>>,
) -> bool {
    &&& value is Some ==> lines.contains((name, value->0))
    &&& forall|i: int|
        0 <= i < lines.len() && (#[trigger] lines[i]).0 == name ==> value == Some(lines[i].1)
}

/// A request carries the region and the user id of the account, each where the account has one; a
/// user id that is empty is not sent. Its device and its machine are those of the account, or else
/// its user id, or else its own id. Nothing else is sent but what says that JSON is spoken.
pub proof fn law_account_is_named(a: Account)
    ensures
        line_says(
            checkin::header_lines(a),
            "X-User-Id"@,
            match a.user_id {
                Some(u) => if u@.len() > 0 {
                    Some(u@)
                } else {
                    None
                },
                None => None,
            },
        ),
        line_says(
            checkin::header_lines(a),
            "X-User-Region"@,
            match a.region {
                Some(r) => Some(r@),
                None => None,
            },
        ),
        a.device_id matches Some(d) ==> line_says(
            checkin::header_lines(a),
            "X-Device-Id"@,
            Some(d@),
        ),
        a.device_id is None ==> (a.user_id matches Some(u) ==> line_says(
            checkin::header_lines(a),
            "X-Device-Id"@,
            Some(u@),
        )),
        a.device_id is None && a.user_id is None ==> line_says(
            checkin::header_lines(a),
            "X-Device-Id"@,
            Some(a.id@),
        ),
        a.machine_id matches Some(d) ==> line_says(
            checkin::header_lines(a),
            "X-Machine-Id"@,
            Some(d@),
        ),
        a.machine_id is None ==> (a.user_id matches Some(u) ==> line_says(
            checkin::header_lines(a),
            "X-Machine-Id"@,
            Some(u@),
        )),
        a.machine_id is None && a.user_id is None ==> line_says(
            checkin::header_lines(a),
            "X-Machine-Id"@,
            Some(a.id@),
        ),
        line_says(checkin::header_lines(a), "Content-Type"@, Some("application/json"@)),
        line_says(checkin::header_lines(a), "Accept"@, Some("application/json"@)),
        checkin::header_lines(a).len() <= 6,
{
    lemma_names_differ();
    let h = checkin::header_lines(a);
    assert(h[0] == ("Content-Type"@, "application/json"@));
    assert(h[1] == ("Accept"@, "application/json"@));
    assert(h[2] == ("X-Device-Id"@, checkin::device_of(a.device_id, a)));
    assert(h[3] == ("X-Machine-Id"@, checkin::device_of(a.machine_id, a)));
    let n = 4 + (if a.region is Some {
        1int
    } else {
        0
    });
    if let Some(r) = a.region {
        assert(h[4] == ("X-User-Region"@, r@));
    }
    if let Some(u) = a.user_id {
        if u@.len() > 0 {
            assert(h[n] == ("X-User-Id"@, u@));
            assert(h.len() == n + 1);
        }
    }
    assert forall|i: int| 0 <= i < h.len() implies {
        let name = (#[trigger] h[i]).0;
        &&& name == "Content-Type"@ ==> i == 0
        &&& name == "Accept"@ ==> i == 1
        &&& name == "X-Device-Id"@ ==> i == 2
        &&& name == "X-Machine-Id"@ ==> i == 3
        &&& name == "X-User-Region"@ ==> i == 4 && a.region is Some
        &&& name == "X-User-Id"@ ==> i == n
    } by {
        assert(i == 0 || i == 1 || i == 2 || i == 3 || i == 4 || i == 5);
    }
}

proof fn lemma_names_differ()
    ensures
        "Content-Type"@ != "Accept"@,
        "Content-Type"@ != "X-Device-Id"@,
        "Content-Type"@ != "X-Machine-Id"@,
        "Content-Type"@ != "X-User-Region"@,
        "Content-Type"@ != "X-User-Id"@,
        "Accept"@ != "X-Device-Id"@,
        "Accept"@ != "X-Machine-Id"@,
        "Accept"@ != "X-User-Region"@,
        "Accept"@ != "X-User-Id"@,
        "X-Device-Id"@ != "X-Machine-Id"@,
        "X-Device-Id"@ != "X-User-Region"@,
        "X-Device-Id"@ != "X-User-Id"@,
        "X-Machine-Id"@ != "X-User-Region"@,
        "X-Machine-Id"@ != "X-User-Id"@,
        "X-User-Region"@ != "X-User-Id"@,
{
    reveal_strlit("X-User-Id");
    reveal_strlit("X-User-Region");
    reveal_strlit("X-Device-Id");
    reveal_strlit("X-Machine-Id");
    reveal_strlit("Content-Type");
    reveal_strlit("Accept");
    assert("Content-Type"@[0] == 'C');
    assert("X-Machine-Id"@[0] == 'X');
    assert("Content-Type"@.len() == 12);
    assert("Accept"@.len() == 6);
    assert("X-Device-Id"@.len() == 11);
    assert("X-Machine-Id"@.len() == 12);
    assert("X-User-Region"@.len() == 13);
    assert("X-User-Id"@.len() == 9);
}

/// The credential of a request is the token of the account, behind the name of the scheme.
pub proof fn law_token_is_the_credential(a: Account)
    ensures
        "Cloud-IDE-JWT "@.is_prefix_of(checkin::authorization(a)),
        a.token@.is_suffix_of(checkin::authorization(a)),
        checkin::authorization(a).len() == "Cloud-IDE-JWT "@.len() + a.token@.len(),
{
}

/// Every character of the text is the given one.
pub open spec fn only(s: Seq<char>, c: char) -> bool {
    forall|i: int| 0 <= i < s.len() ==> #[trigger] s[i] == c
}

/// Every character of the text is White_Space.
pub open spec fn blank(s: Seq<char>) -> bool {
    forall|i: int| 0 <= i < s.len() ==> text::white(#[trigger] s[i])
}

/// A text is what is left of it in White_Space.
pub proof fn lemma_trimmed_part(before: Seq<char>, s: Seq<char>, after: Seq<char>)
    requires
        blank(before),
        blank(after),
        s.len() > 0,
        !text::white(s[0]),
        !text::white(s.last()),
    ensures
        text::trim(before + s + after) == s,
{
    let t = before + s + after;
    text::law_trim_takes_only_white_space(t);
    let (a, b) = choose|a: int, b: int| #[trigger]
        text::trim_cut(t, a, b) && text::trim(t) == t.subrange(a, b);
    let n = before.len() as int;
    let m = n + s.len();
    assert(t[n] == s[0]);
    assert(t[m - 1] == s.last());
    if a < n {
        assert(t[a] == before[a]);
    }
    assert(a <= n) by {
        if a > n {
            assert(text::white(t[n]));
        }
    }
    assert(b >= m) by {
        if b < m {
            assert(text::white(t[m - 1]));
        }
    }
    if b > m {
        assert(t[b - 1] == after[b - 1 - m]);
    }
    assert(t.subrange(a, b) =~= s);
}

/// An address loses the White_Space around it and the slashes at its end, and nothing else; one
/// without a scheme gets the scheme of secure connections.
pub proof fn law_address_is_completed(
    before: Seq<char>,
    address: Seq<char>,
    slashes: Seq<char>,
    after: Seq<char>,
)
    requires
        blank(before),
        blank(after),
        only(slashes, '/'),
        address.len() > 0,
        !text::white(address[0]),
        !text::white(address.last()),
        address.last() != '/',
    ensures
        ({
            let r = checkin::normal_host(before + address + slashes + after);
            if "http://"@.is_prefix_of(address) || "https://"@.is_prefix_of(address) {
                r == address
            } else {
                r == "https://"@ + address
            }
        }),
{
    let s = address + slashes;
    assert(before + address + slashes + after =~= before + s + after);
    assert(!text::white('/'));
    if slashes.len() > 0 {
        assert(s.last() == slashes.last());
        assert(slashes[slashes.len() - 1] == '/');
    }
    assert(s[0] == address[0]);
    lemma_trimmed_part(before, s, after);
    proxy_laws::lemma_base(s);
    assert(proxy_laws::is_base(address, s)) by {
        assert forall|k: int| address.len() <= k < s.len() implies #[trigger] s[k] == '/' by {
            assert(s[k] == slashes[k - address.len()]);
        }
    }
    proxy_laws::lemma_base_is_one(address, text::trim_end_char(s, '/'), s);
    proxy_laws::lemma_starts(address, "http://"@);
    proxy_laws::lemma_starts(address, "https://"@);
}

/// The state is asked and the credits are claimed at the host that the account names, or at the
/// default one; both requests carry the account's credential and lines.
pub proof fn law_checkin_goes_to_the_host(c: Checkin, a: Account)
    requires
        checkin::checkin_for(c, a),
    ensures
        a.host matches Some(h) ==> c.host@ == checkin::normal_host(h@),
        a.host is None ==> c.host@ == "https://api.trae.cn"@,
        c.status_url@ == c.host@ + "/trae/api/v2/ug/checkin_credits/status"@,
        c.claim_url@ == c.host@ + "/trae/api/v2/ug/checkin_credits/claim"@,
        c.authorization@ == "Cloud-IDE-JWT "@ + a.token@,
        http::headers_view(c.headers@) == checkin::header_lines(a),
{
    let d = "https://api.trae.cn"@;
    reveal_strlit("https://api.trae.cn");
    reveal_strlit("https://");
    reveal_strlit("http://");
    assert("https://"@.is_prefix_of(d));
    let e = Seq::<char>::empty();
    assert(!text::white('h') && !text::white('n'));
    law_address_is_completed(e, d, e, e);
    assert(e + d + e + e =~= d);
}

// ---------------------------------------------------------------------------
// What the answers mean
// ---------------------------------------------------------------------------

/// The text holds the word, in any case.
pub open spec fn speaks_of(s: Seq<char>, word: Seq<char>) -> bool {
    exists|i: int|
        0 <= i && i + word.len() <= s.len() && text::same_word(
            #[trigger] s.subrange(i, i + word.len()),
            word,
        )
}

proof fn lemma_speaks_of(s: Seq<char>, word: Seq<char>)
    requires
        text::ascii_lower(word) == word,
    ensures
        speaks_of(s, word) <==> text::contains(text::ascii_lower(s), word),
{
    let m = text::ascii_lower(s);
    text::lemma_contains(m, word);
    if speaks_of(s, word) {
        let i = choose|i: int|
            0 <= i && i + word.len() <= s.len() && text::same_word(
                #[trigger] s.subrange(i, i + word.len()),
                word,
            );
        assert(m.subrange(i, i + word.len()) =~= text::ascii_lower(
            s.subrange(i, i + word.len()),
        ));
        assert(text::occurs_at(m, word, i));
    }
    if text::contains(m, word) {
        let i = choose|i: int| text::occurs_at(m, word, i);
        assert(m.subrange(i, i + word.len()) =~= text::ascii_lower(
            s.subrange(i, i + word.len()),
        ));
        assert(text::same_word(s.subrange(i, i + word.len()), word));
    }
}

/// The server is busy exactly where the answer has the code for that, or its message one of the
/// words, in any case.
pub proof fn law_what_tells_a_busy_server(code: Option<i64>, msg: Seq<char>)
    ensures
        checkin::busy(code, msg) <==> {
            ||| code == Some(9074i64)
            ||| speaks_of(msg, "9074"@)
            ||| speaks_of(msg, "繁忙"@)
            ||| speaks_of(msg, "busy"@)
            ||| speaks_of(msg, "too many"@)
            ||| speaks_of(msg, "rate limit"@)
            ||| speaks_of(msg, "participants"@)
        },
{
    assert(text::ascii_lower("9074"@) == "9074"@) by {
        reveal_strlit("9074");
        assert(text::ascii_lower("9074"@) =~= "9074"@);
    }
    assert(text::ascii_lower("繁忙"@) == "繁忙"@) by {
        reveal_strlit("繁忙");
        assert(text::ascii_lower("繁忙"@) =~= "繁忙"@);
    }
    assert(text::ascii_lower("busy"@) == "busy"@) by {
        reveal_strlit("busy");
        assert(text::ascii_lower("busy"@) =~= "busy"@);
    }
    assert(text::ascii_lower("too many"@) == "too many"@) by {
        reveal_strlit("too many");
        assert(text::ascii_lower("too many"@) =~= "too many"@);
    }
    assert(text::ascii_lower("rate limit"@) == "rate limit"@) by {
        reveal_strlit("rate limit");
        assert(text::ascii_lower("rate limit"@) =~= "rate limit"@);
    }
    assert(text::ascii_lower("participants"@) == "participants"@) by {
        reveal_strlit("participants");
        assert(text::ascii_lower("participants"@) =~= "participants"@);
    }
    lemma_speaks_of(msg, "9074"@);
    lemma_speaks_of(msg, "繁忙"@);
    lemma_speaks_of(msg, "busy"@);
    lemma_speaks_of(msg, "too many"@);
    lemma_speaks_of(msg, "rate limit"@);
    lemma_speaks_of(msg, "participants"@);
}

/// An object that holds exactly one member under a name gives that member for it.
pub open spec fn has(v: JsonV, key: Seq<char>, x: JsonV) -> bool {
    v matches JsonV::Obj(m) && exists|i: int|
        0 <= i < m.len() && (#[trigger] m[i]).0 == key && m[i].1 == x && forall|j: int|
            0 <= j < i ==> (#[trigger] m[j]).0 != key
}

/// The value is no object, or an object without a member of that name.
pub open spec fn lacks(v: JsonV, key: Seq<char>) -> bool {
    v matches JsonV::Obj(m) ==> forall|i: int| 0 <= i < m.len() ==> (#[trigger] m[i]).0 != key
}

/// Of an object, the first member under a name is the one that counts.
pub proof fn law_first_member_counts(v: JsonV, key: Seq<char>)
    ensures
        match json::member(v, key) {
            Some(x) => has(v, key, x),
            None => lacks(v, key),
        },
{
    if let JsonV::Obj(m) = v {
        lemma_lookup(m, key);
    }
}

proof fn lemma_lookup(m: Seq<(Seq<char>, JsonV)>, key: Seq<char>)
    ensures
        match json::lookup(m, key) {
            Some(x) => exists|i: int|
                0 <= i < m.len() && (#[trigger] m[i]).0 == key && m[i].1 == x && forall|j: int|
                    0 <= j < i ==> (#[trigger] m[j]).0 != key,
            None => forall|i: int| 0 <= i < m.len() ==> (#[trigger] m[i]).0 != key,
        },
    decreases m.len(),
{
    if m.len() > 0 {
        let rest = m.subrange(1, m.len() as int);
        lemma_lookup(rest, key);
        if m[0].0 != key {
            match json::lookup(rest, key) {
                Some(x) => {
                    let i = choose|i: int|
                        0 <= i < rest.len() && (#[trigger] rest[i]).0 == key && rest[i].1 == x
                            && forall|j: int| 0 <= j < i ==> (#[trigger] rest[j]).0 != key;
                    assert(m[i + 1] == rest[i]);
                    assert forall|j: int| 0 <= j < i + 1 implies (#[trigger] m[j]).0 != key by {
                        if j > 0 {
                            assert(rest[j - 1].0 != key);
                        }
                    }
                },
                None => {
                    assert forall|i: int| 0 <= i < m.len() implies (#[trigger] m[i]).0 != key by {
                        if i > 0 {
                            assert(rest[i - 1].0 != key);
                        }
                    }
                },
            }
        } else {
            assert(m[0].1 == json::lookup(m, key)->0);
        }
    }
}

/// A member that an object has is the one that is found.
pub proof fn lemma_member(v: JsonV, key: Seq<char>)
    ensures
        forall|x: JsonV| #[trigger] has(v, key, x) ==> json::member(v, key) == Some(x),
        lacks(v, key) ==> json::member(v, key) is None,
{
    law_first_member_counts(v, key);
    if let JsonV::Obj(m) = v {
        assert forall|x: JsonV| #[trigger] has(v, key, x) implies json::member(v, key) == Some(
            x,
        ) by {
            let i = choose|i: int|
                0 <= i < m.len() && (#[trigger] m[i]).0 == key && m[i].1 == x && forall|j: int|
                    0 <= j < i ==> (#[trigger] m[j]).0 != key;
            match json::member(v, key) {
                Some(y) => {
                    let k = choose|k: int|
                        0 <= k < m.len() && (#[trigger] m[k]).0 == key && m[k].1 == y && forall|
                            j: int,
                        | 0 <= j < k ==> (#[trigger] m[j]).0 != key;
                    if i < k {
                        assert(m[i].0 != key);
                    } else if k < i {
                        assert(m[k].0 != key);
                    }
                },
                None => {
                    assert(m[i].0 != key);
                },
            }
        }
        if lacks(v, key) {
            if let Some(y) = json::member(v, key) {
                let k = choose|k: int|
                    0 <= k < m.len() && (#[trigger] m[k]).0 == key && m[k].1 == y && forall|j: int|
                        0 <= j < k ==> (#[trigger] m[j]).0 != key;
                assert(m[k].0 != key);
            }
        }
    }
}

/// A state with the code of success that tells that today's check-in is done settles it as done
/// before, with the credits that it tells.
pub proof fn law_done_state_settles(c: Checkin, v: JsonV)
    requires
        has(v, "code"@, JsonV::Int(0)),
        has(v, "checked_in"@, JsonV::Bool(true)) || (lacks(v, "checked_in"@) && has(
            v,
            "did_checked_in"@,
            JsonV::Bool(true),
        )),
    ensures
        checkin::settled(c, Some(v)) matches Some(x) && {
            &&& x.success && x.already && !x.inactive && !x.transient
            &&& x.host == Some(c.host@)
            &&& x.at == c.at@
            &&& x.message == "今日已签到"@
            &&& x.credit == (match checkin::credit_of(v) {
                Some(n) => Some(n as i64),
                None => None,
            })
        },
{
    lemma_member(v, "code"@);
    lemma_member(v, "checked_in"@);
    lemma_member(v, "did_checked_in"@);
}

/// A state that tells that there is no check-in settles it as inactive; any other leaves it open.
pub proof fn law_other_states(c: Checkin, v: JsonV)
    requires
        has(v, "checked_in"@, JsonV::Bool(false)),
    ensures
        has(v, "code"@, JsonV::Int(0)) && has(v, "enable"@, JsonV::Bool(false)) ==> ({
            let r = checkin::settled(c, Some(v));
            r is Some && r->0.inactive && !r->0.success && !r->0.already && r->0.credit is None
                && !r->0.transient && r->0.host == Some(c.host@) && r->0.at == c.at@
        }),
        has(v, "code"@, JsonV::Int(0)) && has(v, "enable"@, JsonV::Bool(true))
            ==> checkin::settled(c, Some(v)) is None,
        has(v, "code"@, JsonV::Int(0)) && lacks(v, "enable"@) ==> checkin::settled(
            c,
            Some(v),
        ) is None,
        lacks(v, "code"@) ==> checkin::settled(c, Some(v)) is None,
        forall|n: int| n != 0 && #[trigger] has(v, "code"@, JsonV::Int(n)) && i64::MIN <= n
            <= i64::MAX ==> checkin::settled(c, Some(v)) is None,
        checkin::settled(c, None) is None,
{
    lemma_member(v, "code"@);
    lemma_member(v, "checked_in"@);
    lemma_member(v, "enable"@);
}

/// The credits in the `data` of an answer count before those at its top, and of each the one under
/// the first of the names `credit`, `credits`, `gain_credit` and `today_credit`.
pub proof fn law_which_credits_count(v: JsonV, d: JsonV, n: int)
    requires
        has(v, "data"@, d),
        i64::MIN <= n <= i64::MAX,
    ensures
        has(d, "credit"@, JsonV::Int(n)) ==> checkin::credit_of(v) == Some(n),
        lacks(d, "credit"@) && has(d, "credits"@, JsonV::Int(n)) ==> checkin::credit_of(v) == Some(
            n,
        ),
        lacks(d, "credit"@) && lacks(d, "credits"@) && has(d, "gain_credit"@, JsonV::Int(n))
            ==> checkin::credit_of(v) == Some(n),
        lacks(d, "credit"@) && lacks(d, "credits"@) && lacks(d, "gain_credit"@) && has(
            d,
            "today_credit"@,
            JsonV::Int(n),
        ) ==> checkin::credit_of(v) == Some(n),
        lacks(d, "credit"@) && lacks(d, "credits"@) && lacks(d, "gain_credit"@) && lacks(
            d,
            "today_credit"@,
        ) && has(v, "credit"@, JsonV::Int(n)) ==> checkin::credit_of(v) == Some(n),
{
    lemma_member(v, "data"@);
    lemma_member(v, "credit"@);
    lemma_member(d, "credit"@);
    lemma_member(d, "credits"@);
    lemma_member(d, "gain_credit"@);
    lemma_member(d, "today_credit"@);
}

/// At the top of an answer the credits of a member come with the extra ones; an answer that tells no
/// credits has none.
pub proof fn law_extra_credits_are_added(v: JsonV, n: int, extra: int)
    requires
        lacks(v, "data"@),
        lacks(v, "credit"@),
        i64::MIN <= n <= i64::MAX,
        i64::MIN <= extra <= i64::MAX,
    ensures
        has(v, "credits"@, JsonV::Int(n)) && has(v, "extra_credits"@, JsonV::Int(extra))
            && i64::MIN <= n + extra <= i64::MAX ==> checkin::credit_of(v) == Some(n + extra),
        has(v, "credits"@, JsonV::Int(n)) && lacks(v, "extra_credits"@) ==> checkin::credit_of(v)
            == Some(n),
        lacks(v, "credits"@) && has(v, "gain_credit"@, JsonV::Int(n)) ==> checkin::credit_of(v)
            == Some(n),
        lacks(v, "credits"@) && lacks(v, "gain_credit"@) && has(v, "today_credit"@, JsonV::Int(n))
            ==> checkin::credit_of(v) == Some(n),
        lacks(v, "credits"@) && lacks(v, "gain_credit"@) && lacks(v, "today_credit"@)
            ==> checkin::credit_of(v) is None,
{
    lemma_member(v, "data"@);
    lemma_member(v, "credit"@);
    lemma_member(v, "credits"@);
    lemma_member(v, "extra_credits"@);
    lemma_member(v, "gain_credit"@);
    lemma_member(v, "today_credit"@);
}

/// Credits that are written as a text count as the number that it shows.
pub proof fn law_written_credits_count(n: int, before: Seq<char>, after: Seq<char>)
    requires
        i64::MIN <= n <= i64::MAX,
        blank(before),
        blank(after),
    ensures
        checkin::credit_number(
            Some(JsonV::Str(before + number::signed_decimal(n) + after)),
        ) == Some(n),
{
    let s = number::signed_decimal(n);
    number::law_signed_reads_back(n as i64);
    lemma_number_is_visible(n);
    lemma_trimmed_part(before, s, after);
}

proof fn lemma_number_is_visible(n: int)
    ensures
        number::signed_decimal(n).len() > 0,
        !text::white(number::signed_decimal(n)[0]),
        !text::white(number::signed_decimal(n).last()),
{
    assert(!text::white('-'));
    if n < 0 {
        number::lemma_decimal_digits((-n) as nat);
    } else {
        number::lemma_decimal_digits(n as nat);
    }
}

/// What an answer to a claim means: one that says that there is nothing to claim is no success,
/// whatever else it says; the code of success means success where the status tells it too, or where
/// the message says that the credits were claimed before; any other code does not.
pub proof fn law_what_an_answer_means(http_ok: bool, code: Option<i64>, msg: Seq<char>)
    ensures
        ({
            let d = checkin::verdict(http_ok, code, msg);
            let off = checkin::says_inactive(msg);
            let done = checkin::says_already(msg);
            &&& d.inactive == off
            &&& d.already <==> !off && code == Some(0i64) && done
            &&& d.ok <==> !off && code == Some(0i64) && (http_ok || done)
        }),
{
}

/// A message that holds one of the phrases says that there is nothing to claim.
pub proof fn law_inactive_phrases(a: Seq<char>, b: Seq<char>, c: Seq<char>)
    requires
        forall|k: int| 0 <= k < b.len() ==> #[trigger] b[k] != '\n',
    ensures
        checkin::says_inactive(a + "未开启"@ + c),
        checkin::says_inactive(a + "未开始"@ + c),
        checkin::says_inactive(a + "未开放"@ + c),
        checkin::says_inactive(a + "无"@ + b + "活动"@ + c),
        checkin::says_inactive(a + "活动"@ + b + "结束"@ + c),
        checkin::says_inactive(a + "活动"@ + b + "关闭"@ + c),
        checkin::says_inactive(a + "活动"@ + b + "暂停"@ + c),
{
    lemma_held(a, "未开启"@, c);
    lemma_held(a, "未开始"@, c);
    lemma_held(a, "未开放"@, c);
    lemma_led(a, "无"@, b, "活动"@, c);
    lemma_led(a, "活动"@, b, "结束"@, c);
    lemma_led(a, "活动"@, b, "关闭"@, c);
    lemma_led(a, "活动"@, b, "暂停"@, c);
}

/// A message that holds one of the phrases says that the credits were claimed before.
pub proof fn law_already_phrases(a: Seq<char>, b: Seq<char>, w: Seq<char>, c: Seq<char>)
    requires
        forall|k: int| 0 <= k < b.len() ==> #[trigger] b[k] != '\n',
        blank(w),
    ensures
        checkin::says_already(a + "已签到"@ + c),
        checkin::says_already(a + "已领取"@ + c),
        checkin::says_already(a + "daily"@ + b + "already"@ + c),
        checkin::says_already(a + "already"@ + w + "checkedin"@ + c),
        checkin::says_already(a + "already"@ + w + "checked-in"@ + c),
        checkin::says_already(a + "already"@ + w + "checked in"@ + c),
        checkin::says_already(a + "already"@ + w + "claimed"@ + c),
{
    lemma_held(a, "已签到"@, c);
    lemma_held(a, "已领取"@, c);
    lemma_led(a, "daily"@, b, "already"@, c);
    lemma_spaced(a, "already"@, w, "checkedin"@, c);
    lemma_spaced(a, "already"@, w, "checked-in"@, c);
    lemma_spaced(a, "already"@, w, "checked in"@, c);
    lemma_spaced(a, "already"@, w, "claimed"@, c);
}

proof fn lemma_held(a: Seq<char>, p: Seq<char>, c: Seq<char>)
    ensures
        text::contains(a + p + c, p),
{
    let s = a + p + c;
    text::lemma_contains(s, p);
    assert(s.subrange(a.len() as int, (a.len() + p.len()) as int) =~= p);
    assert(text::occurs_at(s, p, a.len() as int));
}

proof fn lemma_led(a: Seq<char>, p: Seq<char>, b: Seq<char>, q: Seq<char>, c: Seq<char>)
    requires
        forall|k: int| 0 <= k < b.len() ==> #[trigger] b[k] != '\n',
    ensures
        checkin::leads_to(a + p + b + q + c, p, q),
{
    let s = a + p + b + q + c;
    let i = a.len() as int;
    let k = i + p.len() + b.len();
    assert(s.subrange(i, i + p.len()) =~= p);
    assert(s.subrange(k, k + q.len()) =~= q);
    assert(text::occurs_at(s, p, i) && text::occurs_at(s, q, k));
    assert forall|n: int| i + p.len() <= n < k implies (#[trigger] s[n]) != '\n' by {
        assert(s[n] == b[n - i - p.len()]);
    }
}

proof fn lemma_spaced(a: Seq<char>, p: Seq<char>, b: Seq<char>, q: Seq<char>, c: Seq<char>)
    requires
        blank(b),
    ensures
        checkin::spaced(a + p + b + q + c, p, q),
{
    let s = a + p + b + q + c;
    let i = a.len() as int;
    let k = i + p.len() + b.len();
    assert(s.subrange(i, i + p.len()) =~= p);
    assert(s.subrange(k, k + q.len()) =~= q);
    assert(text::occurs_at(s, p, i) && text::occurs_at(s, q, k));
    assert forall|n: int| i + p.len() <= n < k implies text::white(#[trigger] s[n]) by {
        assert(s[n] == b[n - i - p.len()]);
    }
}

/// The message of an answer is the text under the first of the names `msg`, `message` and `error`
/// that it has, without the White_Space around it.
pub proof fn law_message_of_an_answer(v: JsonV, before: Seq<char>, s: Seq<char>, after: Seq<char>)
    requires
        blank(before),
        blank(after),
        s.len() > 0,
        !text::white(s[0]),
        !text::white(s.last()),
    ensures
        has(v, "msg"@, JsonV::Str(before + s + after)) ==> checkin::own_message(v) == s,
        lacks(v, "msg"@) && has(v, "message"@, JsonV::Str(before + s + after))
            ==> checkin::own_message(v) == s,
        lacks(v, "msg"@) && lacks(v, "message"@) && has(v, "error"@, JsonV::Str(before + s + after))
            ==> checkin::own_message(v) == s,
        lacks(v, "msg"@) && lacks(v, "message"@) && lacks(v, "error"@) ==> checkin::own_message(
            v,
        ).len() == 0,
{
    lemma_trimmed_part(before, s, after);
    lemma_member(v, "msg"@);
    lemma_member(v, "message"@);
    lemma_member(v, "error"@);
    reveal_strlit("");
}

/// The outcome of a claim that an answer settles: it succeeded where the answer means so or has the
/// code of success, and it holds the answer's message and credits, with the host and the time of the
/// check-in.
pub proof fn law_outcome_of_an_answer(c: Checkin, status: u16, body: Seq<char>)
    ensures
        ({
            let v = checkin::claim_json(body);
            let msg = checkin::claim_message(status, body);
            let r = checkin::claimed(c, status, body);
            let d = checkin::verdict(200 <= status <= 299, checkin::code_of(v), msg);
            &&& r.success <==> d.ok || has(v, "code"@, JsonV::Int(0))
            &&& r.already == d.already && r.inactive == d.inactive
            &&& r.message == msg
            &&& checkin::own_message(v).len() > 0 ==> msg == checkin::own_message(v)
            &&& r.host == Some(c.host@) && r.at == c.at@ && !r.transient
            &&& r.credit == (match checkin::credit_of(v) {
                Some(n) => Some(n as i64),
                None => None,
            })
            &&& checkin::decides(status, body) <==> d.ok || d.already || d.inactive || has(
                v,
                "code"@,
                JsonV::Int(0),
            )
        }),
{
    let v = checkin::claim_json(body);
    law_first_member_counts(v, "code"@);
    lemma_member(v, "code"@);
    if let Some(JsonV::Int(n)) = json::member(v, "code"@) {
        if i64::MIN <= n <= i64::MAX {
            assert((n as i64) as int == n);
        }
    }
}

/// A claim that settles nothing is made again exactly where the server is busy and fewer than three
/// attempts were made; or else it has failed, with the status, the code and the message shown.
pub proof fn law_busy_claims_are_repeated(c: Checkin, attempt: u32, status: u16, body: Seq<char>)
    requires
        !checkin::decides(status, body),
    ensures
        ({
            let code = checkin::code_of(checkin::claim_json(body));
            let msg = checkin::claim_message(status, body);
            let r = checkin::refused(c, status, body);
            &&& checkin::claims_again(attempt, status, body) <==> checkin::busy(code, msg)
                && attempt < 3
            &&& !r.success && !r.already && !r.inactive && r.credit is None && r.host is None
            &&& r.at == c.at@
            &&& r.transient == checkin::busy(code, msg)
            &&& r.message == "[HTTP "@ + number::decimal(status as nat) + " code="@ + (match code {
                Some(n) => "Some("@ + number::signed_decimal(n as int) + ")"@,
                None => "None"@,
            }) + "] "@ + msg
        }),
{
}

/// An answer without a message is described by its status, and by its code and the beginning of its
/// body where it has one.
pub proof fn law_answer_without_message_is_described(
    status: u16,
    code: Option<i64>,
    before: Seq<char>,
    s: Seq<char>,
    after: Seq<char>,
)
    requires
        blank(before),
        blank(after),
        s.len() > 0,
        !text::white(s[0]),
        !text::white(s.last()),
    ensures
        ({
            let r = checkin::detail(status, code, before + s + after);
            let head = "HTTP "@ + number::decimal(status as nat) + " code="@ + (match code {
                Some(n) => "Some("@ + number::signed_decimal(n as int) + ")"@,
                None => "None"@,
            }) + " "@;
            &&& head.is_prefix_of(r)
            &&& s.len() <= 160 ==> r == head + s
            &&& s.len() > 160 ==> r == head + s.take(160)
        }),
{
    lemma_trimmed_part(before, s, after);
    if s.len() > 160 {
        assert(s.subrange(0, 160) =~= s.take(160));
    }
}

// ---------------------------------------------------------------------------
// The issuer of a token
// ---------------------------------------------------------------------------

/// A text for addresses becomes one of the standard alphabet: a hyphen becomes a plus sign and an
/// underscore a slash, all else stays; fewer than four equals signs behind it make its length a
/// multiple of four.
pub proof fn law_standard_text(s: Seq<char>)
    ensures
        ({
            let r = checkin::padded(s);
            &&& s.len() <= r.len() < s.len() + 4
            &&& forall|i: int|
                0 <= i < s.len() ==> (#[trigger] r[i]) == (if s[i] == '-' {
                    '+'
                } else if s[i] == '_' {
                    '/'
                } else {
                    s[i]
                })
            &&& forall|i: int| s.len() <= i < r.len() ==> (#[trigger] r[i]) == '='
            &&& encode_utf8(r).len() % 4 == 0
        }),
{
    let t = checkin::standard_text(s);
    let n = encode_utf8(t).len();
    let pad = Seq::new(checkin::missing(n), |i: int| '=');
    crate::http_laws::lemma_encode_concat(t, pad);
    assert(is_ascii_chars(pad));
    is_ascii_chars_encode_utf8(pad);
    assert((n + checkin::missing(n)) % 4 == 0) by (nonlinear_arith)
        requires
            checkin::missing(n) == ((4 - n % 4) % 4) as nat,
    ;
}

/// The two services are known by their names wherever they stand in the issuer; any other issuer is
/// its own host, without the slashes at its end.
pub proof fn law_host_of_an_issuer(a: Seq<char>, b: Seq<char>, base: Seq<char>, iss: Seq<char>)
    requires
        proxy_laws::is_base(base, iss),
    ensures
        checkin::issuer_of(a + "api.trae.cn"@ + b) == "https://api.trae.cn"@,
        !text::contains(a + "api.trae.ai"@ + b, "api.trae.cn"@) ==> checkin::issuer_of(
            a + "api.trae.ai"@ + b,
        ) == "https://api.trae.ai"@,
        !text::contains(iss, "api.trae.cn"@) && !text::contains(iss, "api.trae.ai"@)
            ==> checkin::issuer_of(iss) == base,
{
    lemma_held(a, "api.trae.cn"@, b);
    lemma_held(a, "api.trae.ai"@, b);
    proxy_laws::lemma_base(iss);
    proxy_laws::lemma_base_is_one(base, text::trim_end_char(iss, '/'), iss);
}

/// The text is made of five parts, the second and the fourth of which are given, with nothing but
/// White_Space between them.
pub open spec fn reads_spaced(s: Seq<char>, p: Seq<char>, q: Seq<char>) -> bool {
    exists|a: Seq<char>, w: Seq<char>, c: Seq<char>|
        blank(w) && s == #[trigger] (a + p + w + q + c)
}

/// The text is made of five parts, the second and the fourth of which are given, in one line.
pub open spec fn reads_on(s: Seq<char>, p: Seq<char>, q: Seq<char>) -> bool {
    exists|a: Seq<char>, b: Seq<char>, c: Seq<char>|
        (forall|k: int| 0 <= k < b.len() ==> #[trigger] b[k] != '\n') && s == #[trigger] (a + p + b
            + q + c)
}

proof fn lemma_parts(s: Seq<char>, p: Seq<char>, q: Seq<char>, i: int, k: int)
    requires
        text::occurs_at(s, p, i),
        text::occurs_at(s, q, k),
        i + p.len() <= k,
    ensures
        s == s.subrange(0, i) + p + s.subrange(i + p.len(), k) + q + s.subrange(
            k + q.len(),
            s.len() as int,
        ),
{
    assert(s.subrange(i, i + p.len()) == p);
    assert(s.subrange(k, k + q.len()) == q);
    assert(s =~= s.subrange(0, i) + s.subrange(i, i + p.len()) + s.subrange(i + p.len(), k)
        + s.subrange(k, k + q.len()) + s.subrange(k + q.len(), s.len() as int));
}

proof fn lemma_reads_spaced(s: Seq<char>, p: Seq<char>, q: Seq<char>)
    ensures
        checkin::spaced(s, p, q) <==> reads_spaced(s, p, q),
{
    if checkin::spaced(s, p, q) {
        let (i, k) = choose|i: int, k: int|
            #![trigger text::occurs_at(s, p, i), text::occurs_at(s, q, k)]
            text::occurs_at(s, p, i) && text::occurs_at(s, q, k) && i + p.len() <= k && forall|
                n: int,
            | i + p.len() <= n < k ==> text::white(#[trigger] s[n]);
        lemma_parts(s, p, q, i, k);
        let w = s.subrange(i + p.len(), k);
        assert(blank(w));
    }
    if reads_spaced(s, p, q) {
        let (a, w, c) = choose|a: Seq<char>, w: Seq<char>, c: Seq<char>|
            blank(w) && s == #[trigger] (a + p + w + q + c);
        lemma_spaced(a, p, w, q, c);
    }
}

proof fn lemma_reads_on(s: Seq<char>, p: Seq<char>, q: Seq<char>)
    ensures
        checkin::leads_to(s, p, q) <==> reads_on(s, p, q),
{
    if checkin::leads_to(s, p, q) {
        let (i, k) = choose|i: int, k: int|
            #![trigger text::occurs_at(s, p, i), text::occurs_at(s, q, k)]
            text::occurs_at(s, p, i) && text::occurs_at(s, q, k) && i + p.len() <= k && forall|
                n: int,
            | i + p.len() <= n < k ==> (#[trigger] s[n]) != '\n';
        lemma_parts(s, p, q, i, k);
        let b = s.subrange(i + p.len(), k);
        assert forall|n: int| 0 <= n < b.len() implies #[trigger] b[n] != '\n' by {
            assert(s[i + p.len() + n] == b[n]);
        }
    }
    if reads_on(s, p, q) {
        let (a, b, c) = choose|a: Seq<char>, b: Seq<char>, c: Seq<char>|
            (forall|k: int| 0 <= k < b.len() ==> #[trigger] b[k] != '\n') && s == #[trigger] (a + p
                + b + q + c);
        lemma_led(a, p, b, q, c);
    }
}

/// Only these phrases say that the credits were claimed before, and only those that there is nothing
/// to claim.
pub proof fn law_no_other_phrases(s: Seq<char>)
    ensures
        checkin::says_already(s) <==> {
            ||| exists|i: int| #[trigger] text::occurs_at(s, "已签到"@, i)
            ||| exists|i: int| #[trigger] text::occurs_at(s, "已领取"@, i)
            ||| reads_spaced(s, "already"@, "checkedin"@)
            ||| reads_spaced(s, "already"@, "checked-in"@)
            ||| reads_spaced(s, "already"@, "checked in"@)
            ||| reads_spaced(s, "already"@, "claimed"@)
            ||| reads_on(s, "daily"@, "already"@)
        },
        checkin::says_inactive(s) <==> {
            ||| exists|i: int| #[trigger] text::occurs_at(s, "未开启"@, i)
            ||| exists|i: int| #[trigger] text::occurs_at(s, "未开始"@, i)
            ||| exists|i: int| #[trigger] text::occurs_at(s, "未开放"@, i)
            ||| reads_on(s, "无"@, "活动"@)
            ||| reads_on(s, "活动"@, "结束"@)
            ||| reads_on(s, "活动"@, "关闭"@)
            ||| reads_on(s, "活动"@, "暂停"@)
        },
{
    text::lemma_contains(s, "已签到"@);
    text::lemma_contains(s, "已领取"@);
    text::lemma_contains(s, "未开启"@);
    text::lemma_contains(s, "未开始"@);
    text::lemma_contains(s, "未开放"@);
    lemma_reads_spaced(s, "already"@, "checkedin"@);
    lemma_reads_spaced(s, "already"@, "checked-in"@);
    lemma_reads_spaced(s, "already"@, "checked in"@);
    lemma_reads_spaced(s, "already"@, "claimed"@);
    lemma_reads_on(s, "daily"@, "already"@);
    lemma_reads_on(s, "无"@, "活动"@);
    lemma_reads_on(s, "活动"@, "结束"@);
    lemma_reads_on(s, "活动"@, "关闭"@);
    lemma_reads_on(s, "活动"@, "暂停"@);
}

} // verus!
