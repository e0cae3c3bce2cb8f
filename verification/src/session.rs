//! Which conversation a request belongs to.
//!
//! A conversation belongs to one account, so that all of its requests have to go to the same one.
//! The id of a conversation stands in the path, in the query or in the body of a request.
use crate::http;
use crate::text;
use vstd::prelude::*;
use vstd::slice::slice_subrange;
use vstd::string::*;
use vstd::utf8::*;

verus! {

/// How much of a body is searched for an id, in bytes.
pub const BODY_SCAN_MAX: usize = 65536;

/// The longest id that is taken from a query or a body, in bytes.
pub const MAX_ID: usize = 128;

/// The first of two that is there.
pub open spec fn or<T>(a: Option<T>, b: Option<T>) -> Option<T> {
    match a {
        Some(_) => a,
        None => b,
    }
}

// ---------------------------------------------------------------------------
// Path
// ---------------------------------------------------------------------------

/// The path segment behind `/chat_sessions/`, unless it is empty.
pub open spec fn path_session(target: Seq<char>) -> Option<Seq<char>> {
    let path = text::before_char(http::bare_target(target), '?');
    match text::find_from(path, "/chat_sessions/"@, 0) {
        Some(i) => {
            let seg = text::before_char(
                path.subrange(i + "/chat_sessions/"@.len(), path.len() as int),
                '/',
            );
            if seg.len() == 0 {
                None
            } else {
                Some(seg)
            }
        },
        None => None,
    }
}

/// The id of the conversation in the path of a request.
pub fn session_id_from_path(target: &str) -> (r: Option<String>)
    ensures
        text::opt_text(r) == path_session(target@),
{
    let bare = text::to_chars(http::normalize_target(target).as_str());
    let path = text::head_before(bare.as_slice(), '?');
    let mark = text::to_chars("/chat_sessions/");
    match text::find(path, mark.as_slice(), 0) {
        Some(i) => {
            let n: usize = path.len();
            let m: usize = mark.len();
            assert(i + m <= n);
            let seg = text::head_before(slice_subrange(path, i + m, n), '/');
            if seg.len() == 0 {
                None
            } else {
                Some(text::to_text(seg))
            }
        },
        None => None,
    }
}

// ---------------------------------------------------------------------------
// Query
// ---------------------------------------------------------------------------

/// A query key that names a conversation.
pub open spec fn query_key(k: Seq<char>) -> bool {
    ||| text::same_word(k, "session_id"@)
    ||| text::same_word(k, "sessionId"@)
    ||| text::same_word(k, "conversation_id"@)
    ||| text::same_word(k, "conversationId"@)
}

/// The id in one pair of a query.
pub open spec fn pair_session(pair: Seq<char>) -> Option<Seq<char>> {
    match text::after_char(pair, '=') {
        Some(value) => {
            let v = text::trim(value);
            if query_key(text::before_char(pair, '=')) && v.len() > 0 && encode_utf8(v).len()
                <= MAX_ID {
                Some(v)
            } else {
                None
            }
        },
        None => None,
    }
}

/// The id in the first pair that has one.
pub open spec fn pairs_session(pairs: Seq<Seq<char>>) -> Option<Seq<char>>
    decreases pairs.len(),
{
    if pairs.len() == 0 {
        None
    } else {
        or(pair_session(pairs[0]), pairs_session(pairs.subrange(1, pairs.len() as int)))
    }
}

/// The id in the query of a request.
pub open spec fn query_session(target: Seq<char>) -> Option<Seq<char>> {
    match text::after_char(http::bare_target(target), '?') {
        Some(q) => pairs_session(text::split_by(q, "&"@)),
        None => None,
    }
}

fn session_of_pair(pair: &[char]) -> (r: Option<String>)
    ensures
        text::opt_text(r) == pair_session(pair@),
{
    match text::tail_after(pair, '=') {
        Some(value) => {
            let k = text::to_text(text::head_before(pair, '='));
            let known = text::text_matches_word(k.as_str(), "session_id") || text::text_matches_word(
                k.as_str(),
                "sessionId",
            ) || text::text_matches_word(k.as_str(), "conversation_id") || text::text_matches_word(
                k.as_str(),
                "conversationId",
            );
            let v = text::to_text(text::trimmed(value));
            let bytes = text::text_bytes(v.as_str());
            if known && !v.as_str().is_empty() && bytes.len() <= MAX_ID {
                Some(v)
            } else {
                None
            }
        },
        None => None,
    }
}

/// The id of the conversation in the query of a request.
pub fn session_id_from_query(target: &str) -> (r: Option<String>)
    ensures
        text::opt_text(r) == query_session(target@),
{
    let bare = text::to_chars(http::normalize_target(target).as_str());
    let q = match text::tail_after(bare.as_slice(), '?') {
        Some(q) => q,
        None => {
            return None;
        },
    };
    let sep = text::to_chars("&");
    proof {
        reveal_strlit("&");
    }
    let pairs = text::split(q, sep.as_slice());
    let ghost all = text::rows(pairs@);
    assert(all.subrange(0, all.len() as int) == all);
    let mut i: usize = 0;
    while i < pairs.len()
        invariant
            i <= pairs@.len(),
            all == text::rows(pairs@),
            query_session(target@) == pairs_session(all),
            pairs_session(all) == pairs_session(all.subrange(i as int, all.len() as int)),
        decreases pairs@.len() - i,
    {
        let found = session_of_pair(pairs[i].as_slice());
        assert(all[i as int] == pairs@[i as int]@);
        if found.is_some() {
            return found;
        }
        assert(all.subrange(i as int, all.len() as int).subrange(1, all.len() - i) == all.subrange(
            i + 1,
            all.len() as int,
        ));
        i = i + 1;
    }
    None
}

// ---------------------------------------------------------------------------
// Body
// ---------------------------------------------------------------------------

/// An ASCII White_Space byte.
pub open spec fn blank(b: u8) -> bool {
    b == 0x20 || b == 0x09 || b == 0x0a || b == 0x0c || b == 0x0d
}

/// The first position at or after `i` that is not blank.
pub open spec fn skip_blank(s: Seq<u8>, i: int) -> int
    decreases s.len() - i,
{
    if 0 <= i < s.len() && blank(s[i]) {
        skip_blank(s, i + 1)
    } else {
        i
    }
}

/// The first position at or after `i` of a quote, a backslash or a control character, or the end.
pub open spec fn literal_end(s: Seq<u8>, i: int) -> int
    decreases s.len() - i,
{
    if 0 <= i < s.len() && s[i] != 0x22 && s[i] != 0x5c && s[i] >= 0x20 {
        literal_end(s, i + 1)
    } else {
        i
    }
}

/// The position behind the opening quote, where `rest` begins with a colon and a string.
pub open spec fn value_start(rest: Seq<u8>) -> Option<int> {
    let a = skip_blank(rest, 0);
    let b = skip_blank(rest, a + 1);
    if a < rest.len() && rest[a] == 0x3a && b < rest.len() && rest[b] == 0x22 {
        Some(b + 1)
    } else {
        None
    }
}

/// The string behind a colon. One that is not closed, or with an escape or a control character, is
/// no id, nor is an empty or a long one.
pub open spec fn string_value(rest: Seq<u8>) -> Option<Seq<char>> {
    match value_start(rest) {
        Some(c) => {
            let e = literal_end(rest, c);
            let raw = rest.subrange(c, e);
            if e >= rest.len() || rest[e] != 0x22 || !valid_utf8(raw) || raw.len() == 0
                || raw.len() > MAX_ID {
                None
            } else {
                Some(decode_utf8(raw))
            }
        },
        None => None,
    }
}

/// `rest` begins with a colon and an empty string.
pub open spec fn empty_value(rest: Seq<u8>) -> bool {
    value_start(rest) matches Some(c) && c < rest.len() && rest[c] == 0x22
}

/// The first string behind an occurrence of `key` at or after `from`.
pub open spec fn value_after(s: Seq<u8>, key: Seq<u8>, from: int) -> Option<Seq<char>>
    decreases s.len() - from,
{
    match text::find_from(s, key, from) {
        Some(i) => if key.len() > 0 && 0 <= from {
            proof {
                text::lemma_find_from(s, key, from);
            }
            or(
                string_value(s.subrange(i + key.len(), s.len() as int)),
                value_after(s, key, i + key.len()),
            )
        } else {
            None
        },
        None => None,
    }
}

/// Some occurrence of `key` at or after `from` has an empty string behind it.
pub open spec fn empty_after(s: Seq<u8>, key: Seq<u8>, from: int) -> bool
    decreases s.len() - from,
{
    match text::find_from(s, key, from) {
        Some(i) => if key.len() > 0 && 0 <= from {
            proof {
                text::lemma_find_from(s, key, from);
            }
            empty_value(s.subrange(i + key.len(), s.len() as int)) || empty_after(
                s,
                key,
                i + key.len(),
            )
        } else {
            false
        },
        None => false,
    }
}

/// The part of a body that is searched.
pub open spec fn scanned(body: Seq<u8>) -> Seq<u8> {
    if body.len() > BODY_SCAN_MAX {
        body.subrange(0, BODY_SCAN_MAX as int)
    } else {
        body
    }
}

/// The id under one key of a body.
pub open spec fn keyed(body: Seq<u8>, key: Seq<char>) -> Option<Seq<char>> {
    value_after(scanned(body), encode_utf8(key), 0)
}

/// One key of a body has an empty string.
pub open spec fn keyed_empty(body: Seq<u8>, key: Seq<char>) -> bool {
    empty_after(scanned(body), encode_utf8(key), 0)
}

/// The id in a body: the keys are tried one after the other.
pub open spec fn body_session(body: Seq<u8>) -> Option<Seq<char>> {
    or(
        keyed(body, "\"session_id\""@),
        or(
            keyed(body, "\"sessionId\""@),
            or(
                keyed(body, "\"conversation_id\""@),
                or(
                    keyed(body, "\"conversationId\""@),
                    or(
                        keyed(body, "\"chat_session_id\""@),
                        keyed(body, "\"chatSessionId\""@),
                    ),
                ),
            ),
        ),
    )
}

/// The body names its conversation by an empty string: it asks for a new one.
pub open spec fn declares_new(body: Seq<u8>) -> bool {
    ||| keyed_empty(body, "\"session_id\""@)
    ||| keyed_empty(body, "\"sessionId\""@)
    ||| keyed_empty(body, "\"conversation_id\""@)
    ||| keyed_empty(body, "\"conversationId\""@)
    ||| keyed_empty(body, "\"chat_session_id\""@)
    ||| keyed_empty(body, "\"chatSessionId\""@)
}

fn after_blank(s: &[u8], from: usize) -> (r: usize)
    requires
        from <= s@.len(),
    ensures
        r == skip_blank(s@, from as int),
        from <= r <= s@.len(),
{
    let mut i: usize = from;
    while i < s.len() && (s[i] == 0x20 || s[i] == 0x09 || s[i] == 0x0a || s[i] == 0x0c || s[i]
        == 0x0d)
        invariant
            from <= i <= s@.len(),
            skip_blank(s@, from as int) == skip_blank(s@, i as int),
        decreases s@.len() - i,
    {
        i = i + 1;
    }
    i
}

fn find_value_start(rest: &[u8]) -> (r: Option<usize>)
    ensures
        match r {
            Some(c) => value_start(rest@) == Some(c as int) && c <= rest@.len(),
            None => value_start(rest@) is None,
        },
{
    let a = after_blank(rest, 0);
    if a >= rest.len() || rest[a] != 0x3a {
        return None;
    }
    let b = after_blank(rest, a + 1);
    if b >= rest.len() || rest[b] != 0x22 {
        return None;
    }
    Some(b + 1)
}

/// Whether a colon and an empty string follow.
pub fn empty_string_value(rest: &[u8]) -> (r: bool)
    ensures
        r == empty_value(rest@),
{
    match find_value_start(rest) {
        Some(c) => c < rest.len() && rest[c] == 0x22,
        None => false,
    }
}

/// The string behind a colon, if it can be an id.
pub fn json_string_value(rest: &[u8]) -> (r: Option<String>)
    ensures
        text::opt_text(r) == string_value(rest@),
{
    let start = match find_value_start(rest) {
        Some(c) => c,
        None => {
            return None;
        },
    };
    let mut i: usize = start;
    while i < rest.len() && rest[i] != 0x22 && rest[i] != 0x5c && rest[i] >= 0x20
        invariant
            start <= i <= rest@.len(),
            literal_end(rest@, start as int) == literal_end(rest@, i as int),
        decreases rest@.len() - i,
    {
        i = i + 1;
    }
    if i >= rest.len() || rest[i] != 0x22 {
        return None;
    }
    let raw = slice_subrange(rest, start, i);
    if raw.len() == 0 || raw.len() > MAX_ID {
        return None;
    }
    text::utf8_text(raw)
}

fn find_value(scan: &[u8], key: &str) -> (r: Option<String>)
    requires
        encode_utf8(key@).len() > 0,
    ensures
        text::opt_text(r) == value_after(scan@, encode_utf8(key@), 0),
{
    let k = text::text_bytes(key);
    let mut from: usize = 0;
    loop
        invariant
            k@ == encode_utf8(key@),
            k@.len() > 0,
            from <= scan@.len(),
            value_after(scan@, k@, 0) == value_after(scan@, k@, from as int),
        decreases scan@.len() - from,
    {
        match http::find_slice_from(scan, k.as_slice(), from) {
            Some(i) => {
                let n: usize = scan.len();
                let m: usize = k.len();
                assert(i + m <= n);
                let v = json_string_value(slice_subrange(scan, i + m, n));
                if v.is_some() {
                    return v;
                }
                from = i + m;
            },
            None => {
                return None;
            },
        }
    }
}

fn find_empty(scan: &[u8], key: &str) -> (r: bool)
    requires
        encode_utf8(key@).len() > 0,
    ensures
        r == empty_after(scan@, encode_utf8(key@), 0),
{
    let k = text::text_bytes(key);
    let mut from: usize = 0;
    loop
        invariant
            k@ == encode_utf8(key@),
            k@.len() > 0,
            from <= scan@.len(),
            empty_after(scan@, k@, 0) == empty_after(scan@, k@, from as int),
        decreases scan@.len() - from,
    {
        match http::find_slice_from(scan, k.as_slice(), from) {
            Some(i) => {
                let n: usize = scan.len();
                let m: usize = k.len();
                assert(i + m <= n);
                if empty_string_value(slice_subrange(scan, i + m, n)) {
                    return true;
                }
                from = i + m;
            },
            None => {
                return false;
            },
        }
    }
}

fn scan_of(body: &[u8]) -> (r: &[u8])
    ensures
        r@ == scanned(body@),
{
    if body.len() > BODY_SCAN_MAX {
        slice_subrange(body, 0, BODY_SCAN_MAX)
    } else {
        body
    }
}

proof fn lemma_keys()
    ensures
        encode_utf8("\"session_id\""@).len() > 0,
        encode_utf8("\"sessionId\""@).len() > 0,
        encode_utf8("\"conversation_id\""@).len() > 0,
        encode_utf8("\"conversationId\""@).len() > 0,
        encode_utf8("\"chat_session_id\""@).len() > 0,
        encode_utf8("\"chatSessionId\""@).len() > 0,
{
    broadcast use is_ascii_chars_encode_utf8;

    reveal_strlit("\"session_id\"");
    reveal_strlit("\"sessionId\"");
    reveal_strlit("\"conversation_id\"");
    reveal_strlit("\"conversationId\"");
    reveal_strlit("\"chat_session_id\"");
    reveal_strlit("\"chatSessionId\"");
    assert(is_ascii_chars("\"session_id\""@));
    assert(is_ascii_chars("\"sessionId\""@));
    assert(is_ascii_chars("\"conversation_id\""@));
    assert(is_ascii_chars("\"conversationId\""@));
    assert(is_ascii_chars("\"chat_session_id\""@));
    assert(is_ascii_chars("\"chatSessionId\""@));
}

/// The id of the conversation in the body of a request.
pub fn session_id_from_body(body: &[u8]) -> (r: Option<String>)
    ensures
        text::opt_text(r) == body_session(body@),
{
    let scan = scan_of(body);
    proof {
        lemma_keys();
    }
    let a = find_value(scan, "\"session_id\"");
    if a.is_some() {
        return a;
    }
    let b = find_value(scan, "\"sessionId\"");
    if b.is_some() {
        return b;
    }
    let c = find_value(scan, "\"conversation_id\"");
    if c.is_some() {
        return c;
    }
    let d = find_value(scan, "\"conversationId\"");
    if d.is_some() {
        return d;
    }
    let e = find_value(scan, "\"chat_session_id\"");
    if e.is_some() {
        return e;
    }
    find_value(scan, "\"chatSessionId\"")
}

/// Whether a body asks for a new conversation.
pub fn body_declares_empty_session(body: &[u8]) -> (r: bool)
    ensures
        r == declares_new(body@),
{
    let scan = scan_of(body);
    proof {
        lemma_keys();
    }
    find_empty(scan, "\"session_id\"") || find_empty(scan, "\"sessionId\"") || find_empty(
        scan,
        "\"conversation_id\"",
    ) || find_empty(scan, "\"conversationId\"") || find_empty(scan, "\"chat_session_id\"")
        || find_empty(scan, "\"chatSessionId\"")
}

// ---------------------------------------------------------------------------
// The conversation
// ---------------------------------------------------------------------------

/// The conversation that a request belongs to: the path decides, then the query, then the body.
pub open spec fn conversation_of(target: Seq<char>, body: Seq<u8>) -> Option<Seq<char>> {
    or(path_session(target), or(query_session(target), body_session(body)))
}

/// The conversation that a request belongs to.
pub fn conversation_key(target: &str, body: &[u8]) -> (r: Option<String>)
    ensures
        text::opt_text(r) == conversation_of(target@, body@),
{
    let a = session_id_from_path(target);
    if a.is_some() {
        return a;
    }
    let b = session_id_from_query(target);
    if b.is_some() {
        return b;
    }
    session_id_from_body(body)
}

/// A request whose path names a conversation belongs to it, whatever its body says.
pub proof fn law_path_decides(target: Seq<char>, body: Seq<u8>)
    requires
        path_session(target) is Some,
    ensures
        conversation_of(target, body) == path_session(target),
{
}

/// No conversation has an empty name.
pub proof fn law_ids_are_not_empty(target: Seq<char>, body: Seq<u8>)
    ensures
        conversation_of(target, body) matches Some(id) ==> id.len() > 0,
{
    if path_session(target) is None {
        if query_session(target) is Some {
            let q = text::after_char(http::bare_target(target), '?')->0;
            lemma_pairs_not_empty(text::split_by(q, "&"@));
        } else {
            lemma_keys();
            let s = scanned(body);
            lemma_value_not_empty(s, encode_utf8("\"session_id\""@), 0);
            lemma_value_not_empty(s, encode_utf8("\"sessionId\""@), 0);
            lemma_value_not_empty(s, encode_utf8("\"conversation_id\""@), 0);
            lemma_value_not_empty(s, encode_utf8("\"conversationId\""@), 0);
            lemma_value_not_empty(s, encode_utf8("\"chat_session_id\""@), 0);
            lemma_value_not_empty(s, encode_utf8("\"chatSessionId\""@), 0);
        }
    }
}

proof fn lemma_pairs_not_empty(pairs: Seq<Seq<char>>)
    ensures
        pairs_session(pairs) matches Some(id) ==> id.len() > 0,
    decreases pairs.len(),
{
    if pairs.len() > 0 {
        lemma_pairs_not_empty(pairs.subrange(1, pairs.len() as int));
    }
}

proof fn lemma_value_not_empty(s: Seq<u8>, key: Seq<u8>, from: int)
    requires
        0 <= from,
    ensures
        value_after(s, key, from) matches Some(id) ==> id.len() > 0,
    decreases s.len() - from,
{
    match text::find_from(s, key, from) {
        Some(i) => {
            if key.len() > 0 {
                text::lemma_find_from(s, key, from);
                lemma_value_not_empty(s, key, i + key.len());
                let rest = s.subrange(i + key.len(), s.len() as int);
                if string_value(rest) is Some {
                    let c = value_start(rest)->0;
                    let raw = rest.subrange(c, literal_end(rest, c));
                    assert(decode_utf8(raw).len() > 0);
                }
            }
        },
        None => {},
    }
}

} // verus!
