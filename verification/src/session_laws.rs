//! Where the id of a conversation stands, it is found: in the path, in any pair of the query, and
//! behind any of the names in the body.
use crate::http;
use crate::session;
use crate::text;
use vstd::prelude::*;
use vstd::string::*;
use vstd::utf8::*;

verus! {

// ---------------------------------------------------------------------------
// Path
// ---------------------------------------------------------------------------

/// A path that begins with a slash and has no question mark.
pub open spec fn is_path(s: Seq<char>) -> bool {
    s.len() > 0 && s[0] == '/' && forall|k: int| 0 <= k < s.len() ==> #[trigger] s[k] != '?'
}

/// A path segment: not empty, with neither a slash nor a question mark.
pub open spec fn is_segment(s: Seq<char>) -> bool {
    s.len() > 0 && forall|k: int| 0 <= k < s.len() ==> #[trigger] s[k] != '?' && s[k] != '/'
}

proof fn lemma_before_is(s: Seq<char>, c: char, n: int)
    requires
        0 <= n <= s.len(),
        forall|k: int| 0 <= k < n ==> #[trigger] s[k] != c,
        n < s.len() ==> s[n] == c,
    ensures
        text::before_char(s, c) == s.subrange(0, n),
        n < s.len() ==> text::after_char(s, c) == Some(s.subrange(n + 1, s.len() as int)),
        n == s.len() ==> text::after_char(s, c) is None,
{
    text::lemma_find_char(s, c, 0);
    if n < s.len() {
        assert(text::find_char(s, c, 0) == Some(n));
    } else {
        assert(s.subrange(0, n) =~= s);
    }
}

/// The segment behind the first `/chat_sessions/` of a path is the conversation, whatever path or
/// query follows.
pub proof fn law_path_names_the_conversation(pre: Seq<char>, id: Seq<char>, rest: Seq<char>)
    requires
        pre.len() > 0 ==> is_path(pre),
        is_segment(id),
        rest.len() > 0 ==> rest[0] == '/' || rest[0] == '?',
        forall|j: int|
            0 <= j < pre.len() ==> !text::occurs_at(
                pre + "/chat_sessions/"@ + id + rest,
                "/chat_sessions/"@,
                j,
            ),
    ensures
        session::path_session(pre + "/chat_sessions/"@ + id + rest) == Some(id),
{
    reveal_strlit("/chat_sessions/");
    let mark = "/chat_sessions/"@;
    let t = pre + mark + id + rest;
    let n = pre.len() as int;
    let m = mark.len() as int;
    let e = n + m + id.len();
    assert(t[0] == '/') by {
        if n == 0 {
            assert(t[0] == mark[0]);
        } else {
            assert(t[0] == pre[0]);
        }
    }
    http::law_origin_form_is_kept(t);
    text::law_cut_at_char(t, '?');
    let path = text::before_char(t, '?');
    assert(path.len() >= e && path == t.subrange(0, path.len() as int)) by {
        text::lemma_find_char(t, '?', 0);
        if let Some(i) = text::find_char(t, '?', 0) {
            if i < e {
                if i < n {
                    assert(t[i] == pre[i]);
                } else if i < n + m {
                    assert(t[i] == mark[i - n]);
                } else {
                    assert(t[i] == id[i - n - m]);
                }
            }
        } else {
            assert(t.subrange(0, t.len() as int) =~= t);
        }
    }
    assert(path.subrange(n, n + m) =~= mark);
    assert forall|j: int| 0 <= j < n implies !text::occurs_at(path, mark, j) by {
        if text::occurs_at(path, mark, j) {
            assert(t.subrange(j, j + m) =~= path.subrange(j, j + m));
            assert(text::occurs_at(t, mark, j));
        }
    }
    text::lemma_find_is(path, mark, 0, n);
    let tail = path.subrange(n + m, path.len() as int);
    assert forall|k: int| 0 <= k < id.len() implies #[trigger] tail[k] != '/' by {
        assert(tail[k] == t[n + m + k]);
        assert(t[n + m + k] == id[k]);
    }
    if path.len() > e {
        assert(path[e] == rest[0]);
        assert(path[e] != '?');
        assert(tail[id.len() as int] == path[e]);
    }
    lemma_before_is(tail, '/', id.len() as int);
    assert(tail.subrange(0, id.len() as int) =~= id);
}

/// A path without `/chat_sessions/` names no conversation, even where the query holds it.
pub proof fn law_no_conversation_in_other_paths(path: Seq<char>, query: Seq<char>)
    requires
        is_path(path),
        forall|j: int| !text::occurs_at(path, "/chat_sessions/"@, j),
    ensures
        session::path_session(path) is None,
        session::path_session(path + "?"@ + query) is None,
{
    reveal_strlit("?");
    let t = path + "?"@ + query;
    http::law_origin_form_is_kept(path);
    http::law_origin_form_is_kept(t);
    lemma_before_is(path, '?', path.len() as int);
    assert(path.subrange(0, path.len() as int) =~= path);
    assert forall|k: int| 0 <= k < path.len() implies #[trigger] t[k] != '?' by {
        assert(t[k] == path[k]);
    }
    lemma_before_is(t, '?', path.len() as int);
    assert(t.subrange(0, path.len() as int) =~= path);
    text::lemma_find_from(path, "/chat_sessions/"@, 0);
}

// ---------------------------------------------------------------------------
// Query
// ---------------------------------------------------------------------------

/// The name of a conversation in a query, in any case of its letters.
pub open spec fn names_conversation(key: Seq<char>) -> bool {
    ||| text::same_word(key, "session_id"@)
    ||| text::same_word(key, "sessionId"@)
    ||| text::same_word(key, "conversation_id"@)
    ||| text::same_word(key, "conversationId"@)
}

/// A text without the characters that part a query.
pub open spec fn is_query_part(s: Seq<char>) -> bool {
    forall|k: int| 0 <= k < s.len() ==> #[trigger] s[k] != '&' && s[k] != '='
}

/// An id that is taken from a query: not empty, not too long, without White_Space at its ends.
pub open spec fn is_query_id(s: Seq<char>) -> bool {
    &&& s.len() > 0
    &&& encode_utf8(s).len() <= 128
    &&& !text::white(s[0])
    &&& !text::white(s.last())
    &&& forall|k: int| 0 <= k < s.len() ==> #[trigger] s[k] != '&'
}

/// The session of a row of pairs is that of the first pair that has one, wherever it stands; there
/// is none exactly if no pair has one.
pub proof fn law_first_naming_pair_counts(pairs: Seq<Seq<char>>)
    ensures
        match session::pairs_session(pairs) {
            Some(id) => exists|i: int|
                0 <= i < pairs.len() && session::pair_session(#[trigger] pairs[i]) == Some(id)
                    && forall|j: int|
                    0 <= j < i ==> session::pair_session(#[trigger] pairs[j]) is None,
            None => forall|i: int|
                0 <= i < pairs.len() ==> session::pair_session(#[trigger] pairs[i]) is None,
        },
    decreases pairs.len(),
{
    if pairs.len() > 0 {
        let rest = pairs.subrange(1, pairs.len() as int);
        law_first_naming_pair_counts(rest);
        if session::pair_session(pairs[0]) is None {
            match session::pairs_session(rest) {
                Some(id) => {
                    let i = choose|i: int|
                        0 <= i < rest.len() && session::pair_session(#[trigger] rest[i]) == Some(id)
                            && forall|j: int|
                            0 <= j < i ==> session::pair_session(#[trigger] rest[j]) is None;
                    assert(pairs[i + 1] == rest[i]);
                    assert forall|j: int| 0 <= j < i + 1 implies session::pair_session(
                        #[trigger] pairs[j],
                    ) is None by {
                        if j > 0 {
                            assert(rest[j - 1] == pairs[j]);
                        }
                    }
                },
                None => {
                    assert forall|i: int| 0 <= i < pairs.len() implies session::pair_session(
                        #[trigger] pairs[i],
                    ) is None by {
                        if i > 0 {
                            assert(rest[i - 1] == pairs[i]);
                        }
                    }
                },
            }
        }
    }
}

/// A pair names a conversation by its value, exactly if its key is one of the names; a value that is
/// blank or too long names none, nor does a pair without a value.
pub proof fn law_pair_names_its_value(key: Seq<char>, value: Seq<char>)
    requires
        is_query_part(key),
    ensures
        session::pair_session(key) is None,
        is_query_id(value) && names_conversation(key) ==> session::pair_session(
            key + "="@ + value,
        ) == Some(value),
        !names_conversation(key) || text::trim(value).len() == 0 || encode_utf8(
            text::trim(value),
        ).len() > 128 ==> session::pair_session(key + "="@ + value) is None,
{
    reveal_strlit("=");
    let p = key + "="@ + value;
    lemma_before_is(key, '=', key.len() as int);
    assert forall|k: int| 0 <= k < key.len() implies #[trigger] p[k] != '=' by {
        assert(p[k] == key[k]);
    }
    lemma_before_is(p, '=', key.len() as int);
    assert(p.subrange(0, key.len() as int) =~= key);
    assert(p.subrange((key.len() + 1) as int, p.len() as int) =~= value);
    if is_query_id(value) {
        text::lemma_trim_keeps(value);
    }
}

/// The conversation that the query of a request names is found, whatever pairs stand before and
/// behind, as long as none before it names one.
pub proof fn law_query_names_the_conversation(
    path: Seq<char>,
    before: Seq<(Seq<char>, Seq<char>)>,
    key: Seq<char>,
    id: Seq<char>,
    behind: Seq<Seq<char>>,
)
    requires
        is_path(path),
        names_conversation(key),
        is_query_part(key),
        is_query_id(id),
        forall|i: int|
            0 <= i < before.len() ==> is_query_part((#[trigger] before[i]).0) && is_query_part(
                before[i].1,
            ) && !names_conversation(before[i].0),
        forall|i: int, k: int|
            0 <= i < behind.len() && 0 <= k < behind[i].len() ==> #[trigger] behind[i][k] != '&',
    ensures
        ({
            let front = Seq::new(before.len(), |i: int| before[i].0 + "="@ + before[i].1);
            let pairs = front + seq![key + "="@ + id] + behind;
            session::query_session(path + "?"@ + text::glued(pairs, "&"@)) == Some(id)
        }),
{
    reveal_strlit("?");
    reveal_strlit("&");
    reveal_strlit("=");
    assert("&"@ =~= seq!['&']);
    let front = Seq::new(before.len(), |i: int| before[i].0 + "="@ + before[i].1);
    let pairs = front + seq![key + "="@ + id] + behind;
    let n = before.len() as int;
    assert forall|i: int, k: int| 0 <= i < pairs.len() && 0 <= k < pairs[i].len() implies
        #[trigger] pairs[i][k] != '&' by {
        if i < n {
            let (a, b) = before[i];
            assert(is_query_part(before[i].0));
            assert(pairs[i] == a + "="@ + b);
            if k < a.len() {
                assert(pairs[i][k] == a[k]);
            } else if k > a.len() {
                assert(pairs[i][k] == b[k - a.len() - 1]);
            }
        } else if i == n {
            if k < key.len() {
                assert(pairs[i][k] == key[k]);
            } else if k > key.len() {
                assert(pairs[i][k] == id[k - key.len() - 1]);
            }
        } else {
            assert(pairs[i] == behind[i - n - 1]);
            assert(behind[i - n - 1][k] != '&');
        }
    }
    text::law_glued_pieces_come_apart(pairs, '&');
    let q = text::glued(pairs, "&"@);
    let t = path + "?"@ + q;
    http::law_origin_form_is_kept(t);
    assert forall|k: int| 0 <= k < path.len() implies #[trigger] t[k] != '?' by {
        assert(t[k] == path[k]);
    }
    lemma_before_is(t, '?', path.len() as int);
    assert(t.subrange((path.len() + 1) as int, t.len() as int) =~= q);
    law_pair_names_its_value(key, id);
    assert(pairs[n] == key + "="@ + id);
    assert forall|j: int| 0 <= j < n implies session::pair_session(#[trigger] pairs[j]) is None by {
        assert(is_query_part(before[j].0));
        assert(pairs[j] == before[j].0 + "="@ + before[j].1);
        law_pair_names_its_value(before[j].0, before[j].1);
    }
    law_first_naming_pair_counts(pairs);
    match session::pairs_session(pairs) {
        Some(x) => {
            let i = choose|i: int|
                0 <= i < pairs.len() && session::pair_session(#[trigger] pairs[i]) == Some(x)
                    && forall|j: int|
                    0 <= j < i ==> session::pair_session(#[trigger] pairs[j]) is None;
            if i < n {
                assert(session::pair_session(pairs[i]) is None);
            } else if i > n {
                assert(session::pair_session(pairs[n]) is None);
            }
        },
        None => {
            assert(session::pair_session(pairs[n]) is None);
        },
    }
}

// ---------------------------------------------------------------------------
// Body
// ---------------------------------------------------------------------------

/// The names of a conversation in a body, in the order in which they are tried.
pub open spec fn body_name(n: int) -> Seq<char> {
    if n == 0 {
        "\"session_id\""@
    } else if n == 1 {
        "\"sessionId\""@
    } else if n == 2 {
        "\"conversation_id\""@
    } else if n == 3 {
        "\"conversationId\""@
    } else if n == 4 {
        "\"chat_session_id\""@
    } else {
        "\"chatSessionId\""@
    }
}

/// Blanks of a JSON text.
pub open spec fn blanks(s: Seq<u8>) -> bool {
    forall|k: int|
        0 <= k < s.len() ==> {
            ||| #[trigger] s[k] == 0x20
            ||| s[k] == 0x09
            ||| s[k] == 0x0a
            ||| s[k] == 0x0c
            ||| s[k] == 0x0d
        }
}

/// Bytes that can stand in a string without an escape.
pub open spec fn unescaped(s: Seq<u8>) -> bool {
    forall|k: int|
        0 <= k < s.len() ==> #[trigger] s[k] != 0x22 && s[k] != 0x5c && s[k] >= 0x20
}

/// A colon with blanks around it, a quote, the bytes, and a quote.
pub open spec fn member_value(gap: Seq<u8>, gap2: Seq<u8>, raw: Seq<u8>) -> Seq<u8> {
    gap + seq![0x3au8] + gap2 + seq![0x22u8] + raw + seq![0x22u8]
}

proof fn lemma_skip_blank(s: Seq<u8>, i: int, n: int)
    requires
        0 <= i <= n < s.len(),
        blanks(s.subrange(i, n)),
        !session::blank(s[n]),
    ensures
        session::skip_blank(s, i) == n,
    decreases n - i,
{
    if i < n {
        assert(s.subrange(i, n)[0] == s[i]);
        assert forall|k: int| 0 <= k < n - i - 1 implies {
            ||| #[trigger] s.subrange(i + 1, n)[k] == 0x20
            ||| s.subrange(i + 1, n)[k] == 0x09
            ||| s.subrange(i + 1, n)[k] == 0x0a
            ||| s.subrange(i + 1, n)[k] == 0x0c
            ||| s.subrange(i + 1, n)[k] == 0x0d
        } by {
            assert(s.subrange(i, n)[k + 1] == s[i + 1 + k]);
        }
        lemma_skip_blank(s, i + 1, n);
    }
}

proof fn lemma_literal_end(s: Seq<u8>, i: int, n: int)
    requires
        0 <= i <= n < s.len(),
        forall|k: int| i <= k < n ==> #[trigger] s[k] != 0x22 && s[k] != 0x5c && s[k] >= 0x20,
        s[n] == 0x22,
    ensures
        session::literal_end(s, i) == n,
    decreases n - i,
{
    if i < n {
        lemma_literal_end(s, i + 1, n);
    }
}

proof fn lemma_value_start(gap: Seq<u8>, gap2: Seq<u8>, raw: Seq<u8>, post: Seq<u8>)
    requires
        blanks(gap),
        blanks(gap2),
    ensures
        session::value_start(member_value(gap, gap2, raw) + post) == Some(
            (gap.len() + gap2.len() + 2) as int,
        ),
{
    let s = member_value(gap, gap2, raw) + post;
    let a = gap.len() as int;
    let b = a + 1 + gap2.len();
    assert(s[a] == 0x3a);
    assert(s[b] == 0x22);
    assert(s.subrange(0, a) =~= gap);
    assert(s.subrange(a + 1, b) =~= gap2);
    lemma_skip_blank(s, 0, a);
    lemma_skip_blank(s, a + 1, b);
}

/// The string behind a colon is an id, with blanks around the colon or without: up to 128 bytes, at
/// least one, nothing escaped, in valid UTF-8.
pub proof fn law_string_behind_a_colon_is_an_id(
    gap: Seq<u8>,
    gap2: Seq<u8>,
    raw: Seq<u8>,
    post: Seq<u8>,
)
    requires
        blanks(gap),
        blanks(gap2),
        unescaped(raw),
    ensures
        session::string_value(member_value(gap, gap2, raw) + post) == (if 0 < raw.len() <= 128
            && valid_utf8(raw) {
            Some(decode_utf8(raw))
        } else {
            None
        }),
        session::empty_value(member_value(gap, gap2, raw) + post) == (raw.len() == 0),
{
    let s = member_value(gap, gap2, raw) + post;
    lemma_value_start(gap, gap2, raw, post);
    let c = (gap.len() + gap2.len() + 2) as int;
    let e = c + raw.len();
    assert(s[e] == 0x22);
    assert forall|k: int| c <= k < e implies #[trigger] s[k] != 0x22 && s[k] != 0x5c && s[k]
        >= 0x20 by {
        assert(s[k] == raw[k - c]);
    }
    lemma_literal_end(s, c, e);
    assert(s.subrange(c, e) =~= raw);
    if raw.len() > 0 {
        assert(s[c] == raw[0]);
    }
}

proof fn lemma_skip_bound(s: Seq<u8>, i: int) -> (n: int)
    requires
        0 <= i <= s.len(),
    ensures
        n == session::skip_blank(s, i),
        i <= n <= s.len(),
        blanks(s.subrange(i, n)),
    decreases s.len() - i,
{
    if i < s.len() && session::blank(s[i]) {
        let n = lemma_skip_bound(s, i + 1);
        assert forall|k: int| 0 <= k < n - i implies {
            ||| #[trigger] s.subrange(i, n)[k] == 0x20
            ||| s.subrange(i, n)[k] == 0x09
            ||| s.subrange(i, n)[k] == 0x0a
            ||| s.subrange(i, n)[k] == 0x0c
            ||| s.subrange(i, n)[k] == 0x0d
        } by {
            if k > 0 {
                assert(s.subrange(i + 1, n)[k - 1] == s[i + k]);
            }
        }
        n
    } else {
        i
    }
}

proof fn lemma_literal_bound(s: Seq<u8>, i: int)
    requires
        0 <= i <= s.len(),
    ensures
        i <= session::literal_end(s, i) <= s.len(),
        unescaped(s.subrange(i, session::literal_end(s, i))),
    decreases s.len() - i,
{
    let e = session::literal_end(s, i);
    if i < s.len() && s[i] != 0x22 && s[i] != 0x5c && s[i] >= 0x20 {
        lemma_literal_bound(s, i + 1);
        assert forall|k: int| 0 <= k < e - i implies #[trigger] s.subrange(i, e)[k] != 0x22
            && s.subrange(i, e)[k] != 0x5c && s.subrange(i, e)[k] >= 0x20 by {
            if k > 0 {
                assert(s.subrange(i + 1, e)[k - 1] == s[i + k]);
            }
        }
    }
}

/// The bytes are a colon with blanks around it, a string without an escape, and what follows.
pub open spec fn laid_out(
    rest: Seq<u8>,
    gap: Seq<u8>,
    gap2: Seq<u8>,
    raw: Seq<u8>,
    post: Seq<u8>,
) -> bool {
    blanks(gap) && blanks(gap2) && unescaped(raw) && rest == member_value(gap, gap2, raw) + post
}

/// Nothing else is an id: where one is found, a colon with blanks around it and a closed string
/// stand there, and the id is that string.
pub proof fn law_only_such_strings_are_ids(rest: Seq<u8>)
    ensures
        session::string_value(rest) matches Some(id) ==> exists|
            gap: Seq<u8>,
            gap2: Seq<u8>,
            raw: Seq<u8>,
            post: Seq<u8>,
        |
            #[trigger] laid_out(rest, gap, gap2, raw, post) && 0 < raw.len() <= 128 && valid_utf8(
                raw,
            ) && id == decode_utf8(raw),
{
    if session::string_value(rest) is Some {
        let a = lemma_skip_bound(rest, 0);
        let b = lemma_skip_bound(rest, a + 1);
        let c = b + 1;
        lemma_literal_bound(rest, c);
        let e = session::literal_end(rest, c);
        let gap = rest.subrange(0, a);
        let gap2 = rest.subrange(a + 1, b);
        let raw = rest.subrange(c, e);
        let post = rest.subrange(e + 1, rest.len() as int);
        assert(rest =~= member_value(gap, gap2, raw) + post);
        assert(laid_out(rest, gap, gap2, raw, post));
    }
}

proof fn lemma_names_have_bytes()
    ensures
        forall|n: int| encode_utf8(#[trigger] body_name(n)).len() > 0,
{
    reveal_strlit("\"session_id\"");
    reveal_strlit("\"sessionId\"");
    reveal_strlit("\"conversation_id\"");
    reveal_strlit("\"conversationId\"");
    reveal_strlit("\"chat_session_id\"");
    reveal_strlit("\"chatSessionId\"");
    assert forall|n: int| encode_utf8(#[trigger] body_name(n)).len() > 0 by {
        assert(is_ascii_chars(body_name(n)));
        is_ascii_chars_encode_utf8(body_name(n));
    }
}

proof fn lemma_absent(s: Seq<u8>, key: Seq<u8>)
    requires
        forall|j: int| !text::occurs_at(s, key, j),
    ensures
        session::value_after(s, key, 0) is None,
        !session::empty_after(s, key, 0),
{
    text::lemma_find_from(s, key, 0);
}

proof fn lemma_found_first(s: Seq<u8>, key: Seq<u8>, i: int)
    requires
        key.len() > 0,
        text::occurs_at(s, key, i),
        forall|j: int| 0 <= j < i ==> !text::occurs_at(s, key, j),
        session::string_value(s.subrange(i + key.len(), s.len() as int)) is Some,
    ensures
        session::value_after(s, key, 0) == session::string_value(
            s.subrange(i + key.len(), s.len() as int),
        ),
{
    text::lemma_find_is(s, key, 0, i);
}

/// The conversation that a body names is found, wherever the name stands: the string behind one of
/// the names, where none of the names that are tried before stands in the body.
pub proof fn law_body_names_the_conversation(
    n: int,
    pre: Seq<u8>,
    gap: Seq<u8>,
    gap2: Seq<u8>,
    id: Seq<char>,
    post: Seq<u8>,
)
    requires
        0 <= n < 6,
        blanks(gap),
        blanks(gap2),
        unescaped(encode_utf8(id)),
        0 < encode_utf8(id).len() <= 128,
        ({
            let body = pre + encode_utf8(body_name(n)) + member_value(gap, gap2, encode_utf8(id))
                + post;
            &&& body.len() <= 65536
            &&& forall|j: int|
                0 <= j < pre.len() ==> !text::occurs_at(body, encode_utf8(body_name(n)), j)
            &&& forall|m: int, j: int|
                0 <= m < n ==> !#[trigger] text::occurs_at(body, encode_utf8(body_name(m)), j)
        }),
    ensures
        session::body_session(
            pre + encode_utf8(body_name(n)) + member_value(gap, gap2, encode_utf8(id)) + post,
        ) == Some(id),
{
    let key = encode_utf8(body_name(n));
    let raw = encode_utf8(id);
    let body = pre + key + member_value(gap, gap2, raw) + post;
    lemma_names_have_bytes();
    encode_utf8_valid_utf8(id);
    encode_utf8_decode_utf8(id);
    law_string_behind_a_colon_is_an_id(gap, gap2, raw, post);
    let i = pre.len() as int;
    assert(key.len() > 0);
    assert(body.subrange(i, i + key.len()) =~= key);
    assert(text::occurs_at(body, key, i));
    assert(body.subrange(i + key.len(), body.len() as int) =~= member_value(gap, gap2, raw) + post);
    lemma_found_first(body, key, i);
    assert forall|m: int| 0 <= m < n implies session::keyed(body, #[trigger] body_name(m)) is None by {
        assert forall|j: int| !text::occurs_at(body, encode_utf8(body_name(m)), j) by {}
        lemma_absent(body, encode_utf8(body_name(m)));
    }
    assert(session::keyed(body, body_name(n)) == Some(id));
    assert(n > 0 ==> session::keyed(body, body_name(0)) is None);
    assert(n > 1 ==> session::keyed(body, body_name(1)) is None);
    assert(n > 2 ==> session::keyed(body, body_name(2)) is None);
    assert(n > 3 ==> session::keyed(body, body_name(3)) is None);
    assert(n > 4 ==> session::keyed(body, body_name(4)) is None);
}

/// A body without any of the names names no conversation, and asks for none.
pub proof fn law_nameless_body_names_nothing(body: Seq<u8>)
    requires
        body.len() <= 65536,
        forall|n: int, j: int|
            0 <= n < 6 ==> !#[trigger] text::occurs_at(body, encode_utf8(body_name(n)), j),
    ensures
        session::body_session(body) is None,
        !session::declares_new(body),
{
    assert forall|m: int| 0 <= m < 6 implies session::keyed(body, #[trigger] body_name(m)) is None
        && !session::keyed_empty(body, body_name(m)) by {
        assert forall|j: int| !text::occurs_at(body, encode_utf8(body_name(m)), j) by {}
        lemma_absent(body, encode_utf8(body_name(m)));
    }
    assert(session::keyed(body, body_name(0)) is None);
    assert(session::keyed(body, body_name(1)) is None);
    assert(session::keyed(body, body_name(2)) is None);
    assert(session::keyed(body, body_name(3)) is None);
    assert(session::keyed(body, body_name(4)) is None);
    assert(session::keyed(body, body_name(5)) is None);
}

/// A body that gives an empty string for one of the names asks for a new conversation, wherever the
/// name stands first.
pub proof fn law_empty_name_asks_for_a_new_conversation(
    n: int,
    pre: Seq<u8>,
    gap: Seq<u8>,
    gap2: Seq<u8>,
    post: Seq<u8>,
)
    requires
        0 <= n < 6,
        blanks(gap),
        blanks(gap2),
        ({
            let body = pre + encode_utf8(body_name(n)) + member_value(gap, gap2, Seq::empty())
                + post;
            &&& body.len() <= 65536
            &&& forall|j: int|
                0 <= j < pre.len() ==> !text::occurs_at(body, encode_utf8(body_name(n)), j)
        }),
    ensures
        session::declares_new(
            pre + encode_utf8(body_name(n)) + member_value(gap, gap2, Seq::empty()) + post,
        ),
{
    let key = encode_utf8(body_name(n));
    let none = Seq::<u8>::empty();
    let body = pre + key + member_value(gap, gap2, none) + post;
    lemma_names_have_bytes();
    law_string_behind_a_colon_is_an_id(gap, gap2, none, post);
    let i = pre.len() as int;
    assert(key.len() > 0);
    assert(body.subrange(i, i + key.len()) =~= key);
    assert(text::occurs_at(body, key, i));
    assert(body.subrange(i + key.len(), body.len() as int) =~= member_value(gap, gap2, none) + post);
    text::lemma_find_is(body, key, 0, i);
    assert(session::keyed_empty(body, body_name(n)));
}

proof fn lemma_value_is_somewhere(s: Seq<u8>, key: Seq<u8>, from: int) -> (i: int)
    requires
        key.len() > 0,
        0 <= from,
        session::value_after(s, key, from) is Some,
    ensures
        from <= i,
        text::occurs_at(s, key, i),
        session::value_after(s, key, from) == session::string_value(
            s.subrange(i + key.len(), s.len() as int),
        ),
    decreases s.len() - from,
{
    text::lemma_find_from(s, key, from);
    let i = text::find_from(s, key, from)->0;
    if session::string_value(s.subrange(i + key.len(), s.len() as int)) is Some {
        i
    } else {
        lemma_value_is_somewhere(s, key, i + key.len())
    }
}

/// A conversation that is found in a body stands there, behind one of the names: no other string is
/// taken for one.
pub proof fn law_conversation_of_a_body_stands_in_it(body: Seq<u8>)
    requires
        body.len() <= 65536,
    ensures
        session::body_session(body) matches Some(id) ==> exists|n: int, i: int|
            0 <= n < 6 && #[trigger] text::occurs_at(body, encode_utf8(body_name(n)), i)
                && session::string_value(
                body.skip(i + encode_utf8(body_name(n)).len()),
            ) == Some(id),
{
    if session::body_session(body) is Some {
        lemma_names_have_bytes();
        let n: int = if session::keyed(body, body_name(0)) is Some {
            0
        } else if session::keyed(body, body_name(1)) is Some {
            1
        } else if session::keyed(body, body_name(2)) is Some {
            2
        } else if session::keyed(body, body_name(3)) is Some {
            3
        } else if session::keyed(body, body_name(4)) is Some {
            4
        } else {
            5
        };
        assert(session::keyed(body, body_name(n)) == session::body_session(body));
        let key = encode_utf8(body_name(n));
        let i = lemma_value_is_somewhere(body, key, 0);
        assert(body.skip(i + key.len()) =~= body.subrange(i + key.len(), body.len() as int));
        assert(text::occurs_at(body, encode_utf8(body_name(n)), i));
    }
}

// ---------------------------------------------------------------------------
// The conversation
// ---------------------------------------------------------------------------

/// The path decides, then the query, then the body; a request in which none of them names a
/// conversation belongs to none.
pub proof fn law_path_then_query_then_body(target: Seq<char>, body: Seq<u8>)
    ensures
        session::path_session(target) is Some ==> session::conversation_of(target, body)
            == session::path_session(target),
        session::path_session(target) is None && session::query_session(target) is Some
            ==> session::conversation_of(target, body) == session::query_session(target),
        session::path_session(target) is None && session::query_session(target) is None
            ==> session::conversation_of(target, body) == session::body_session(body),
{
}

} // verus!
