//! Text primitives over character sequences: searching, splitting, trimming, ASCII case
//! folding, and the decimal and hexadecimal notations.
use vstd::prelude::*;
use vstd::slice::slice_subrange;
use vstd::utf8::*;
use vstd::string::*;

verus! {

// ---------------------------------------------------------------------------
// Strings and their characters
// ---------------------------------------------------------------------------

/// `String::push` of std: appends the given character at the end of the string.
pub assume_specification[ String::push ](s: &mut String, c: char)
    ensures
        final(s)@ == old(s)@.push(c),
;

/// The characters of a string.
pub fn to_chars(s: &str) -> (r: Vec<char>)
    ensures
        r@ == s@,
{
    let mut v: Vec<char> = Vec::new();
    for c in it: s.chars()
        invariant
            it.seq() == s@,
            v@ == s@.take(it.index() as int),
    {
        v.push(c);
    }
    assert(s@.take(s@.len() as int) == s@);
    v
}

/// The string made of the given characters.
pub fn to_text(chars: &[char]) -> (r: String)
    ensures
        r@ == chars@,
{
    let mut s = String::new();
    let mut i: usize = 0;
    while i < chars.len()
        invariant
            i <= chars@.len(),
            s@ == chars@.take(i as int),
        decreases chars@.len() - i,
    {
        s.push(chars[i]);
        i = i + 1;
        assert(chars@.take(i as int) == chars@.take(i - 1).push(chars@[i - 1]));
    }
    assert(chars@.take(i as int) == chars@);
    s
}

/// Appends characters to a buffer.
pub fn push_chars(out: &mut Vec<char>, more: &[char])
    ensures
        final(out)@ == old(out)@ + more@,
{
    let mut i: usize = 0;
    while i < more.len()
        invariant
            i <= more@.len(),
            out@ == old(out)@ + more@.take(i as int),
        decreases more@.len() - i,
    {
        out.push(more[i]);
        i = i + 1;
        assert(more@.take(i as int) == more@.take(i - 1).push(more@[i - 1]));
    }
    assert(more@.take(i as int) == more@);
}

/// Appends the characters of a string to a buffer.
pub fn push_text(out: &mut Vec<char>, more: &str)
    ensures
        final(out)@ == old(out)@ + more@,
{
    let chars = to_chars(more);
    push_chars(out, chars.as_slice());
}

/// A string with another text behind it.
pub fn plus(s: String, more: &str) -> (r: String)
    ensures
        r@ == s@ + more@,
{
    let mut out = s;
    out.append(more);
    out
}

/// Whether two strings hold the same characters.
pub fn same_text(a: &str, b: &str) -> (r: bool)
    ensures
        r == (a@ == b@),
{
    a.to_owned() == b.to_owned()
}

/// Whether two character slices are equal.
pub fn same_chars(a: &[char], b: &[char]) -> (r: bool)
    ensures
        r == (a@ == b@),
{
    if a.len() != b.len() {
        return false;
    }
    let mut i: usize = 0;
    while i < a.len()
        invariant
            i <= a@.len(),
            a@.len() == b@.len(),
            forall|k: int| 0 <= k < i ==> a@[k] == b@[k],
        decreases a@.len() - i,
    {
        if a[i] != b[i] {
            return false;
        }
        i = i + 1;
    }
    assert(a@ =~= b@);
    true
}

/// The views of a list of strings.
pub open spec fn texts(v: Seq<String>) -> Seq<Seq<char>> {
    v.map_values(|s: String| s@)
}

/// The views of a list of character buffers.
pub open spec fn rows(v: Seq<Vec<char>>) -> Seq<Seq<char>> {
    v.map_values(|s: Vec<char>| s@)
}

/// The view of an optional string.
pub open spec fn opt_text(o: Option<String>) -> Option<Seq<char>> {
    match o {
        Some(s) => Some(s@),
        None => None,
    }
}

/// Copies an optional string.
pub fn clone_opt(o: &Option<String>) -> (r: Option<String>)
    ensures
        r == *o,
{
    match o {
        Some(s) => Some(s.clone()),
        None => None,
    }
}

/// Copies a list of strings.
pub fn clone_texts(v: &[String]) -> (r: Vec<String>)
    ensures
        r@ == v@,
{
    let mut out: Vec<String> = Vec::new();
    let mut i: usize = 0;
    while i < v.len()
        invariant
            i <= v@.len(),
            out@ == v@.take(i as int),
        decreases v@.len() - i,
    {
        out.push(v[i].clone());
        i = i + 1;
        assert(v@.take(i as int) == v@.take(i - 1).push(v@[i - 1]));
    }
    assert(v@.take(i as int) == v@);
    out
}

/// The views of the two sides of a result.
pub open spec fn result_text(r: Result<String, String>) -> Result<Seq<char>, Seq<char>> {
    match r {
        Ok(s) => Ok(s@),
        Err(e) => Err(e@),
    }
}

/// Whether a list of strings holds the given text.
pub open spec fn has_text(v: Seq<String>, t: Seq<char>) -> bool {
    exists|i: int| 0 <= i < v.len() && (#[trigger] v[i])@ == t
}

/// Looks a text up in a list.
pub fn contains_text(v: &[String], t: &str) -> (r: bool)
    ensures
        r == has_text(v@, t@),
{
    let mut i: usize = 0;
    while i < v.len()
        invariant
            i <= v@.len(),
            forall|k: int| 0 <= k < i ==> (#[trigger] v@[k])@ != t@,
        decreases v@.len() - i,
    {
        if same_text(v[i].as_str(), t) {
            assert(v@[i as int]@ == t@);
            return true;
        }
        i = i + 1;
    }
    false
}

// ---------------------------------------------------------------------------
// Searching
// ---------------------------------------------------------------------------

/// `p` stands in `s` at position `i`.
pub open spec fn occurs_at<T>(s: Seq<T>, p: Seq<T>, i: int) -> bool {
    0 <= i && i + p.len() <= s.len() && s.subrange(i, i + p.len()) == p
}

/// The first position at or after `from` where `p` stands in `s`.
pub open spec fn find_from<T>(s: Seq<T>, p: Seq<T>, from: int) -> Option<int>
    decreases s.len() + 1 - from,
{
    if from < 0 || from + p.len() > s.len() {
        None
    } else if occurs_at(s, p, from) {
        Some(from)
    } else {
        find_from(s, p, from + 1)
    }
}

/// `p` stands somewhere in `s`.
pub open spec fn contains<T>(s: Seq<T>, p: Seq<T>) -> bool {
    find_from(s, p, 0) is Some
}

/// `s` begins with `p`.
pub open spec fn starts_with<T>(s: Seq<T>, p: Seq<T>) -> bool {
    occurs_at(s, p, 0)
}

/// `s` ends with `p`.
pub open spec fn ends_with<T>(s: Seq<T>, p: Seq<T>) -> bool {
    occurs_at(s, p, s.len() - p.len())
}

/// [`find_from`] is the least position at which the pattern stands, if there is one.
pub proof fn lemma_find_from<T>(s: Seq<T>, p: Seq<T>, from: int)
    requires
        0 <= from,
    ensures
        match find_from(s, p, from) {
            Some(i) => from <= i && occurs_at(s, p, i) && forall|j: int|
                from <= j < i ==> !occurs_at(s, p, j),
            None => forall|j: int| from <= j ==> !occurs_at(s, p, j),
        },
    decreases s.len() + 1 - from,
{
    if from + p.len() > s.len() {
    } else if occurs_at(s, p, from) {
    } else {
        lemma_find_from(s, p, from + 1);
    }
}

/// A position at which the pattern stands, with none before it, is the one that is found.
pub proof fn lemma_find_is<T>(s: Seq<T>, p: Seq<T>, from: int, i: int)
    requires
        0 <= from <= i,
        occurs_at(s, p, i),
        forall|j: int| from <= j < i ==> !occurs_at(s, p, j),
    ensures
        find_from(s, p, from) == Some(i),
{
    lemma_find_from(s, p, from);
}

/// The text `p` is contained exactly if it stands at some position.
pub proof fn lemma_contains<T>(s: Seq<T>, p: Seq<T>)
    ensures
        contains(s, p) <==> exists|i: int| occurs_at(s, p, i),
{
    lemma_find_from(s, p, 0);
}

/// Whether `p` stands in `s` at position `i`.
pub fn stands_at(s: &[char], p: &[char], i: usize) -> (r: bool)
    ensures
        r == occurs_at(s@, p@, i as int),
{
    if s.len() < p.len() || s.len() - p.len() < i {
        return false;
    }
    let mut k: usize = 0;
    while k < p.len()
        invariant
            k <= p@.len(),
            i + p@.len() <= s.len(),
            forall|j: int| 0 <= j < k ==> s@[i + j] == p@[j],
        decreases p@.len() - k,
    {
        if s[i + k] != p[k] {
            assert(s@.subrange(i as int, i + p@.len())[k as int] == s@[i + k]);
            return false;
        }
        k = k + 1;
    }
    assert(s@.subrange(i as int, i + p@.len()) =~= p@);
    true
}

/// The first position at or after `from` where `p` stands in `s`.
pub fn find(s: &[char], p: &[char], from: usize) -> (r: Option<usize>)
    requires
        from <= s@.len(),
    ensures
        match r {
            Some(i) => find_from(s@, p@, from as int) == Some(i as int) && i + p@.len() <= s@.len(),
            None => find_from(s@, p@, from as int) is None,
        },
{
    if s.len() < p.len() {
        return None;
    }
    let last: usize = s.len() - p.len();
    let mut i: usize = from;
    while i <= last
        invariant
            last + p@.len() == s@.len(),
            from <= i <= s@.len() + 1,
            s@.len() <= usize::MAX,
            find_from(s@, p@, from as int) == find_from(s@, p@, i as int),
        decreases s@.len() + 1 - i,
    {
        if stands_at(s, p, i) {
            return Some(i);
        }
        if i == last {
            assert(find_from(s@, p@, i + 1) is None);
            return None;
        }
        i = i + 1;
    }
    None
}

/// Whether `p` stands somewhere in `s`.
pub fn text_contains(s: &str, p: &str) -> (r: bool)
    ensures
        r == contains(s@, p@),
{
    let a = to_chars(s);
    let b = to_chars(p);
    find(a.as_slice(), b.as_slice(), 0).is_some()
}

/// Whether `s` begins with `p`.
pub fn text_starts_with(s: &str, p: &str) -> (r: bool)
    ensures
        r == starts_with(s@, p@),
{
    let a = to_chars(s);
    let b = to_chars(p);
    stands_at(a.as_slice(), b.as_slice(), 0)
}

/// The first position at or after `from` of the character `c`.
pub open spec fn find_char(s: Seq<char>, c: char, from: int) -> Option<int>
    decreases s.len() - from,
{
    if from < 0 || from >= s.len() {
        None
    } else if s[from] == c {
        Some(from)
    } else {
        find_char(s, c, from + 1)
    }
}

/// [`find_char`] is the least position that holds the character, if there is one.
pub proof fn lemma_find_char(s: Seq<char>, c: char, from: int)
    requires
        0 <= from,
    ensures
        match find_char(s, c, from) {
            Some(i) => from <= i < s.len() && s[i] == c && forall|j: int|
                from <= j < i ==> s[j] != c,
            None => forall|j: int| from <= j < s.len() ==> s[j] != c,
        },
    decreases s.len() - from,
{
    if from < s.len() && s[from] != c {
        lemma_find_char(s, c, from + 1);
    }
}

/// The first position at or after `from` of the character `c`.
pub fn find_char_at(s: &[char], c: char, from: usize) -> (r: Option<usize>)
    ensures
        match r {
            Some(i) => find_char(s@, c, from as int) == Some(i as int) && from <= i < s@.len(),
            None => find_char(s@, c, from as int) is None,
        },
{
    let mut i: usize = from;
    while i < s.len()
        invariant
            from <= i,
            find_char(s@, c, from as int) == find_char(s@, c, i as int),
        decreases s@.len() - i,
    {
        if s[i] == c {
            return Some(i);
        }
        i = i + 1;
    }
    None
}

/// The part of `s` before the first `c`, or all of `s`.
pub open spec fn before_char(s: Seq<char>, c: char) -> Seq<char> {
    match find_char(s, c, 0) {
        Some(i) => s.subrange(0, i),
        None => s,
    }
}

/// The part of `s` after the first `c`, if there is one.
pub open spec fn after_char(s: Seq<char>, c: char) -> Option<Seq<char>> {
    match find_char(s, c, 0) {
        Some(i) => Some(s.subrange(i + 1, s.len() as int)),
        None => None,
    }
}

/// The part of `s` before the first `c`, or all of `s`.
pub fn head_before(s: &[char], c: char) -> (r: &[char])
    ensures
        r@ == before_char(s@, c),
{
    match find_char_at(s, c, 0) {
        Some(i) => slice_subrange(s, 0, i),
        None => s,
    }
}

/// The part of `s` after the first `c`, if there is one.
pub fn tail_after(s: &[char], c: char) -> (r: Option<&[char]>)
    ensures
        match r {
            Some(t) => after_char(s@, c) == Some(t@),
            None => after_char(s@, c) is None,
        },
{
    match find_char_at(s, c, 0) {
        Some(i) => {
            let n: usize = s.len();
            assert(i < n);
            Some(slice_subrange(s, i + 1, n))
        },
        None => None,
    }
}

// ---------------------------------------------------------------------------
// Replacing
// ---------------------------------------------------------------------------

/// `s` with the `n` characters at position `i` replaced by `new`.
#[verifier::opaque]
pub open spec fn edit(s: Seq<char>, i: int, n: int, new: Seq<char>) -> Seq<char> {
    s.subrange(0, i) + new + s.subrange(i + n, s.len() as int)
}

/// The length of an edited text.
pub proof fn lemma_edit_len(s: Seq<char>, i: int, n: int, new: Seq<char>)
    requires
        0 <= i,
        0 <= n,
        i + n <= s.len(),
    ensures
        edit(s, i, n, new).len() == s.len() - n + new.len(),
{
    reveal(edit);
}

/// `s` with the first `p` replaced by `q`, or `s` itself where `p` does not stand in it.
pub open spec fn replace_first(s: Seq<char>, p: Seq<char>, q: Seq<char>) -> Seq<char> {
    match find_from(s, p, 0) {
        Some(i) => edit(s, i, p.len() as int, q),
        None => s,
    }
}

/// Replaces the `n` characters at position `i`.
pub fn edit_at(s: &[char], i: usize, n: usize, new: &[char]) -> (r: Vec<char>)
    requires
        i + n <= s.len(),
    ensures
        r@ == edit(s@, i as int, n as int, new@),
{
    proof {
        reveal(edit);
    }
    let mut out: Vec<char> = Vec::new();
    push_chars(&mut out, slice_subrange(s, 0, i));
    push_chars(&mut out, new);
    push_chars(&mut out, slice_subrange(s, i + n, s.len()));
    out
}

/// Replaces the first `p` in `s` by `q`.
pub fn with_first_replaced(s: &[char], p: &[char], q: &[char]) -> (r: Vec<char>)
    ensures
        r@ == replace_first(s@, p@, q@),
{
    match find(s, p, 0) {
        Some(i) => {
            proof {
                lemma_find_from(s@, p@, 0);
            }
            edit_at(s, i, p.len(), q)
        },
        None => {
            let mut out: Vec<char> = Vec::new();
            push_chars(&mut out, s);
            out
        },
    }
}

// ---------------------------------------------------------------------------
// Splitting
// ---------------------------------------------------------------------------

/// The pieces of `s` between the occurrences of `sep`, taken from the left.
pub open spec fn split_by(s: Seq<char>, sep: Seq<char>) -> Seq<Seq<char>>
    decreases s.len(),
{
    match find_from(s, sep, 0) {
        Some(i) => {
            if sep.len() > 0 {
                proof {
                    lemma_find_from(s, sep, 0);
                }
                seq![s.subrange(0, i)] + split_by(s.subrange(i + sep.len(), s.len() as int), sep)
            } else {
                seq![s]
            }
        },
        None => seq![s],
    }
}

/// Splits `s` at each occurrence of `sep`.
pub fn split(s: &[char], sep: &[char]) -> (r: Vec<Vec<char>>)
    requires
        sep@.len() > 0,
    ensures
        rows(r@) == split_by(s@, sep@),
        r@.len() > 0,
{
    let mut out: Vec<Vec<char>> = Vec::new();
    let mut start: usize = 0;
    assert(s@.subrange(0, s@.len() as int) == s@);
    loop
        invariant
            sep@.len() > 0,
            start <= s.len(),
            split_by(s@, sep@) == rows(out@) + split_by(
                s@.subrange(start as int, s@.len() as int),
                sep@,
            ),
        decreases s.len() - start,
    {
        let rest = slice_subrange(s, start, s.len());
        let mut piece: Vec<char> = Vec::new();
        match find(rest, sep, 0) {
            Some(i) => {
                push_chars(&mut piece, slice_subrange(rest, 0, i));
                proof {
                    lemma_find_from(rest@, sep@, 0);
                    let next = rest@.subrange(i + sep@.len(), rest@.len() as int);
                    assert(next == s@.subrange(start + i + sep@.len(), s@.len() as int));
                    assert(split_by(rest@, sep@) == seq![piece@] + split_by(next, sep@));
                    assert(rows(out@.push(piece)) == rows(out@) + seq![piece@]);
                    assert(rows(out@) + (seq![piece@] + split_by(next, sep@)) == rows(
                        out@.push(piece),
                    ) + split_by(next, sep@));
                }
                out.push(piece);
                start = start + i + sep.len();
            },
            None => {
                push_chars(&mut piece, rest);
                assert(rows(out@.push(piece)) == rows(out@) + seq![piece@]);
                out.push(piece);
                return out;
            },
        }
    }
}

/// The Unicode White_Space characters.
pub open spec fn white(c: char) -> bool {
    let n = c as u32;
    ||| 0x09 <= n <= 0x0d
    ||| n == 0x20
    ||| n == 0x85
    ||| n == 0xa0
    ||| n == 0x1680
    ||| 0x2000 <= n <= 0x200a
    ||| n == 0x2028
    ||| n == 0x2029
    ||| n == 0x202f
    ||| n == 0x205f
    ||| n == 0x3000
}

/// Whether a character is White_Space.
pub fn is_white(c: char) -> (r: bool)
    ensures
        r == white(c),
{
    let n: u32 = c as u32;
    (0x09 <= n && n <= 0x0d) || n == 0x20 || n == 0x85 || n == 0xa0 || n == 0x1680 || (0x2000 <= n
        && n <= 0x200a) || n == 0x2028 || n == 0x2029 || n == 0x202f || n == 0x205f || n == 0x3000
}

/// `s` without its leading White_Space.
pub open spec fn trim_start(s: Seq<char>) -> Seq<char>
    decreases s.len(),
{
    if s.len() > 0 && white(s[0]) {
        trim_start(s.subrange(1, s.len() as int))
    } else {
        s
    }
}

/// `s` without its trailing White_Space.
pub open spec fn trim_end(s: Seq<char>) -> Seq<char>
    decreases s.len(),
{
    if s.len() > 0 && white(s.last()) {
        trim_end(s.subrange(0, s.len() - 1))
    } else {
        s
    }
}

/// `s` without the White_Space on both sides.
pub open spec fn trim(s: Seq<char>) -> Seq<char> {
    trim_end(trim_start(s))
}

/// Removes leading White_Space.
pub fn without_leading(s: &[char]) -> (r: &[char])
    ensures
        r@ == trim_start(s@),
{
    let mut i: usize = 0;
    assert(s@.subrange(0, s@.len() as int) == s@);
    while i < s.len() && is_white(s[i])
        invariant
            i <= s@.len(),
            trim_start(s@) == trim_start(s@.subrange(i as int, s@.len() as int)),
        decreases s@.len() - i,
    {
        assert(s@.subrange(i as int, s@.len() as int).subrange(1, s@.len() - i) == s@.subrange(
            i + 1,
            s@.len() as int,
        ));
        i = i + 1;
    }
    slice_subrange(s, i, s.len())
}

/// Removes trailing White_Space.
pub fn without_trailing(s: &[char]) -> (r: &[char])
    ensures
        r@ == trim_end(s@),
{
    let mut n: usize = s.len();
    assert(s@.subrange(0, s@.len() as int) == s@);
    while n > 0 && is_white(s[n - 1])
        invariant
            n <= s@.len(),
            trim_end(s@) == trim_end(s@.subrange(0, n as int)),
        decreases n,
    {
        assert(s@.subrange(0, n as int).subrange(0, n - 1) == s@.subrange(0, n - 1));
        n = n - 1;
    }
    slice_subrange(s, 0, n)
}

/// Removes the White_Space on both sides.
pub fn trimmed(s: &[char]) -> (r: &[char])
    ensures
        r@ == trim(s@),
{
    without_trailing(without_leading(s))
}

/// The text without the White_Space on both sides.
pub fn trim_text(s: &str) -> (r: String)
    ensures
        r@ == trim(s@),
{
    let chars = to_chars(s);
    to_text(trimmed(chars.as_slice()))
}

/// The number of leading characters of `s` that are not White_Space.
pub open spec fn word_len(s: Seq<char>) -> nat
    decreases s.len(),
{
    if s.len() > 0 && !white(s[0]) {
        1 + word_len(s.subrange(1, s.len() as int))
    } else {
        0
    }
}

/// [`word_len`] counts no more characters than there are, and at least one unless White_Space
/// stands first.
pub proof fn lemma_word_len(s: Seq<char>)
    ensures
        word_len(s) <= s.len(),
        s.len() > 0 && !white(s[0]) ==> word_len(s) > 0,
    decreases s.len(),
{
    if s.len() > 0 && !white(s[0]) {
        lemma_word_len(s.subrange(1, s.len() as int));
    }
}

/// Trimming the front leaves either nothing or a text that begins with a visible character.
pub proof fn lemma_trim_start(s: Seq<char>)
    ensures
        trim_start(s).len() <= s.len(),
        trim_start(s).len() > 0 ==> !white(trim_start(s)[0]),
    decreases s.len(),
{
    if s.len() > 0 && white(s[0]) {
        lemma_trim_start(s.subrange(1, s.len() as int));
    }
}

/// The maximal runs of `s` without White_Space, from left to right.
pub open spec fn words(s: Seq<char>) -> Seq<Seq<char>>
    decreases s.len(),
{
    let t = trim_start(s);
    if t.len() == 0 {
        Seq::empty()
    } else {
        proof {
            lemma_trim_start(s);
            lemma_word_len(t);
        }
        seq![t.subrange(0, word_len(t) as int)] + words(
            t.subrange(word_len(t) as int, t.len() as int),
        )
    }
}

/// The `n`-th run of `s` without White_Space, counted from zero.
pub open spec fn word(s: Seq<char>, n: int) -> Option<Seq<char>> {
    if 0 <= n < words(s).len() {
        Some(words(s)[n])
    } else {
        None
    }
}

/// Splits `s` into its runs without White_Space.
pub fn split_words(s: &[char]) -> (r: Vec<Vec<char>>)
    ensures
        rows(r@) == words(s@),
{
    let mut out: Vec<Vec<char>> = Vec::new();
    let mut rest: &[char] = s;
    loop
        invariant
            words(s@) == rows(out@) + words(rest@),
        decreases rest@.len(),
    {
        let t = without_leading(rest);
        proof {
            lemma_trim_start(rest@);
            lemma_word_len(t@);
        }
        if t.len() == 0 {
            assert(rows(out@) + Seq::<Seq<char>>::empty() == rows(out@));
            return out;
        }
        let mut n: usize = 0;
        assert(t@.subrange(0, t@.len() as int) == t@);
        while n < t.len() && !is_white(t[n])
            invariant
                n <= t@.len(),
                word_len(t@) == n + word_len(t@.subrange(n as int, t@.len() as int)),
            decreases t@.len() - n,
        {
            assert(t@.subrange(n as int, t@.len() as int).subrange(1, t@.len() - n) == t@.subrange(
                n + 1,
                t@.len() as int,
            ));
            n = n + 1;
        }
        let mut piece: Vec<char> = Vec::new();
        push_chars(&mut piece, slice_subrange(t, 0, n));
        proof {
            let next = t@.subrange(n as int, t@.len() as int);
            assert(rows(out@.push(piece)) == rows(out@) + seq![piece@]);
            assert(rows(out@) + (seq![piece@] + words(next)) == rows(out@.push(piece)) + words(
                next,
            ));
        }
        out.push(piece);
        rest = slice_subrange(t, n, t.len());
    }
}

/// `s` without the characters `c` at its end.
pub open spec fn trim_end_char(s: Seq<char>, c: char) -> Seq<char>
    decreases s.len(),
{
    if s.len() > 0 && s.last() == c {
        trim_end_char(s.subrange(0, s.len() - 1), c)
    } else {
        s
    }
}

/// Removes the characters `c` at the end.
pub fn without_trailing_char(s: &[char], c: char) -> (r: &[char])
    ensures
        r@ == trim_end_char(s@, c),
{
    let mut n: usize = s.len();
    assert(s@.subrange(0, s@.len() as int) == s@);
    while n > 0 && s[n - 1] == c
        invariant
            n <= s@.len(),
            trim_end_char(s@, c) == trim_end_char(s@.subrange(0, n as int), c),
        decreases n,
    {
        assert(s@.subrange(0, n as int).subrange(0, n - 1) == s@.subrange(0, n - 1));
        n = n - 1;
    }
    slice_subrange(s, 0, n)
}

// ---------------------------------------------------------------------------
// ASCII case
// ---------------------------------------------------------------------------

/// The ASCII lower case of a character.
pub open spec fn lower(c: char) -> char {
    if 'A' <= c && c <= 'Z' {
        (c as u32 + 32) as char
    } else {
        c
    }
}

/// The ASCII upper case of a character.
pub open spec fn upper(c: char) -> char {
    if 'a' <= c && c <= 'z' {
        (c as u32 - 32) as char
    } else {
        c
    }
}

/// A text in ASCII lower case.
pub open spec fn ascii_lower(s: Seq<char>) -> Seq<char> {
    s.map_values(|c: char| lower(c))
}

/// A text in ASCII upper case.
pub open spec fn ascii_upper(s: Seq<char>) -> Seq<char> {
    s.map_values(|c: char| upper(c))
}

/// Two texts are equal up to the case of ASCII letters.
pub open spec fn same_word(a: Seq<char>, b: Seq<char>) -> bool {
    ascii_lower(a) == ascii_lower(b)
}

/// The ASCII lower case of a character.
pub fn to_lower(c: char) -> (r: char)
    ensures
        r == lower(c),
{
    if 'A' <= c && c <= 'Z' {
        ((c as u8) + 32u8) as char
    } else {
        c
    }
}

/// The ASCII upper case of a character.
pub fn to_upper(c: char) -> (r: char)
    ensures
        r == upper(c),
{
    if 'a' <= c && c <= 'z' {
        ((c as u8) - 32u8) as char
    } else {
        c
    }
}

/// The characters in ASCII lower case.
pub fn lowered(s: &[char]) -> (r: Vec<char>)
    ensures
        r@ == ascii_lower(s@),
{
    let mut out: Vec<char> = Vec::new();
    let mut i: usize = 0;
    while i < s.len()
        invariant
            i <= s@.len(),
            out@ == ascii_lower(s@.take(i as int)),
        decreases s@.len() - i,
    {
        out.push(to_lower(s[i]));
        i = i + 1;
    }
    assert(s@.take(i as int) == s@);
    out
}

/// The characters in ASCII upper case.
pub fn uppered(s: &[char]) -> (r: Vec<char>)
    ensures
        r@ == ascii_upper(s@),
{
    let mut out: Vec<char> = Vec::new();
    let mut i: usize = 0;
    while i < s.len()
        invariant
            i <= s@.len(),
            out@ == ascii_upper(s@.take(i as int)),
        decreases s@.len() - i,
    {
        out.push(to_upper(s[i]));
        i = i + 1;
    }
    assert(s@.take(i as int) == s@);
    out
}

/// Whether two texts are equal up to the case of ASCII letters.
pub fn same_ignoring_case(a: &[char], b: &[char]) -> (r: bool)
    ensures
        r == same_word(a@, b@),
{
    let x = lowered(a);
    let y = lowered(b);
    same_chars(x.as_slice(), y.as_slice())
}

/// Whether two texts are equal up to the case of ASCII letters.
pub fn text_matches_word(a: &str, b: &str) -> (r: bool)
    ensures
        r == same_word(a@, b@),
{
    let x = to_chars(a);
    let y = to_chars(b);
    same_ignoring_case(x.as_slice(), y.as_slice())
}

// ---------------------------------------------------------------------------
// Order
// ---------------------------------------------------------------------------

/// The order of texts by their characters, from the left; a prefix comes first.
pub open spec fn text_less(a: Seq<char>, b: Seq<char>) -> bool
    decreases a.len(),
{
    if b.len() == 0 {
        false
    } else if a.len() == 0 {
        true
    } else if a[0] != b[0] {
        a[0] < b[0]
    } else {
        text_less(a.subrange(1, a.len() as int), b.subrange(1, b.len() as int))
    }
}

/// Of two different texts exactly one comes first.
pub proof fn lemma_text_order_total(a: Seq<char>, b: Seq<char>)
    ensures
        a == b ==> !text_less(a, b),
        a != b ==> (text_less(a, b) <==> !text_less(b, a)),
    decreases a.len(),
{
    if a.len() == 0 || b.len() == 0 {
        if a.len() == 0 && b.len() == 0 {
            assert(a == b);
        }
    } else if a[0] == b[0] {
        let x = a.subrange(1, a.len() as int);
        let y = b.subrange(1, b.len() as int);
        lemma_text_order_total(x, y);
        if x == y {
            assert(a == seq![a[0]] + x);
            assert(b == seq![b[0]] + y);
        }
    }
}

/// The order of texts is transitive.
pub proof fn lemma_text_order_transitive(a: Seq<char>, b: Seq<char>, c: Seq<char>)
    requires
        text_less(a, b),
        text_less(b, c),
    ensures
        text_less(a, c),
    decreases a.len(),
{
    if a.len() > 0 && a[0] == b[0] && b[0] == c[0] {
        lemma_text_order_transitive(
            a.subrange(1, a.len() as int),
            b.subrange(1, b.len() as int),
            c.subrange(1, c.len() as int),
        );
    }
}

/// Whether `a` comes before `b`.
pub fn comes_before(a: &[char], b: &[char]) -> (r: bool)
    ensures
        r == text_less(a@, b@),
{
    let mut i: usize = 0;
    assert(a@.subrange(0, a@.len() as int) == a@);
    assert(b@.subrange(0, b@.len() as int) == b@);
    loop
        invariant
            i <= a@.len(),
            i <= b@.len(),
            text_less(a@, b@) == text_less(
                a@.subrange(i as int, a@.len() as int),
                b@.subrange(i as int, b@.len() as int),
            ),
        decreases a@.len() - i,
    {
        if i == b.len() {
            return false;
        }
        if i == a.len() {
            return true;
        }
        if a[i] != b[i] {
            return a[i] < b[i];
        }
        assert(a@.subrange(i as int, a@.len() as int).subrange(1, a@.len() - i) == a@.subrange(
            i + 1,
            a@.len() as int,
        ));
        assert(b@.subrange(i as int, b@.len() as int).subrange(1, b@.len() - i) == b@.subrange(
            i + 1,
            b@.len() as int,
        ));
        i = i + 1;
    }
}

/// Whether the text `a` comes before the text `b`.
pub fn text_comes_before(a: &str, b: &str) -> (r: bool)
    ensures
        r == text_less(a@, b@),
{
    let x = to_chars(a);
    let y = to_chars(b);
    comes_before(x.as_slice(), y.as_slice())
}

// ---------------------------------------------------------------------------
// UTF-8
// ---------------------------------------------------------------------------

/// The text that `String::from_utf8_lossy` reads out of a byte string.
pub uninterp spec fn lossy_text(bytes: Seq<u8>) -> Seq<char>;

/// The text that `str::to_lowercase` makes of a text.
pub uninterp spec fn lowercase(s: Seq<char>) -> Seq<char>;

/// `std::str::from_utf8`: succeeds on valid UTF-8 and on nothing else, and gives the text that
/// the bytes encode.
#[verifier::external_body]
pub(crate) fn utf8_text(bytes: &[u8]) -> (r: Option<String>)
    ensures
        r is Some <==> valid_utf8(bytes@),
        r matches Some(s) ==> s@ == decode_utf8(bytes@),
{
    std::str::from_utf8(bytes).ok().map(|s| s.to_owned())
}

/// `String::from_utf8_lossy`: a function of the bytes alone. On valid UTF-8 it gives the text that
/// the bytes encode; what stands for an invalid sequence is not stated.
#[verifier::external_body]
pub(crate) fn utf8_text_lossy(bytes: &[u8]) -> (r: String)
    ensures
        r@ == lossy_text(bytes@),
        valid_utf8(bytes@) ==> r@ == decode_utf8(bytes@),
{
    String::from_utf8_lossy(bytes).into_owned()
}

/// `str::to_lowercase`: a function of the text alone.
#[verifier::external_body]
pub(crate) fn lowercase_text(s: &str) -> (r: String)
    ensures
        r@ == lowercase(s@),
{
    s.to_lowercase()
}

/// The bytes of a text.
pub fn text_bytes(s: &str) -> (r: Vec<u8>)
    ensures
        r@ == encode_utf8(s@),
{
    let b = s.as_bytes();
    let mut out: Vec<u8> = Vec::new();
    push_bytes(&mut out, b);
    out
}

/// Appends bytes to a buffer.
pub fn push_bytes(out: &mut Vec<u8>, more: &[u8])
    ensures
        final(out)@ == old(out)@ + more@,
{
    let mut i: usize = 0;
    while i < more.len()
        invariant
            i <= more@.len(),
            out@ == old(out)@ + more@.take(i as int),
        decreases more@.len() - i,
    {
        out.push(more[i]);
        i = i + 1;
        assert(more@.take(i as int) == more@.take(i - 1).push(more@[i - 1]));
    }
    assert(more@.take(i as int) == more@);
}

// ---------------------------------------------------------------------------
// Laws
// ---------------------------------------------------------------------------

/// What stands before the first `c`, then `c`, then what stands after it, is the whole text; the
/// first part holds no `c`. Without a `c` nothing stands after it.
pub proof fn law_cut_at_char(s: Seq<char>, c: char)
    ensures
        forall|k: int| 0 <= k < before_char(s, c).len() ==> #[trigger] before_char(s, c)[k] != c,
        match after_char(s, c) {
            Some(t) => s == before_char(s, c) + seq![c] + t,
            None => s == before_char(s, c),
        },
{
    lemma_find_char(s, c, 0);
}

/// The pieces put together again with the separator between them.
pub open spec fn glued(pieces: Seq<Seq<char>>, sep: Seq<char>) -> Seq<char>
    decreases pieces.len(),
{
    if pieces.len() == 0 {
        Seq::empty()
    } else if pieces.len() == 1 {
        pieces[0]
    } else {
        glued(pieces.drop_last(), sep) + sep + pieces.last()
    }
}

/// A piece in front of others.
pub proof fn lemma_glued_front(p: Seq<char>, pieces: Seq<Seq<char>>, sep: Seq<char>)
    requires
        pieces.len() > 0,
    ensures
        glued(seq![p] + pieces, sep) == p + sep + glued(pieces, sep),
    decreases pieces.len(),
{
    let all = seq![p] + pieces;
    assert(all.drop_last() =~= seq![p] + pieces.drop_last());
    if pieces.len() > 1 {
        lemma_glued_front(p, pieces.drop_last(), sep);
        assert(glued(all, sep) =~= p + sep + glued(pieces, sep));
    } else {
        assert(all.drop_last() =~= seq![p]);
        assert(glued(seq![p], sep) == p);
        assert(all.last() == pieces[0]);
        assert(glued(all, sep) =~= p + sep + glued(pieces, sep));
    }
}

/// A text that was split has at least one piece; no piece holds the separator, and the pieces with
/// the separator between them are the text.
pub proof fn law_split_loses_nothing(s: Seq<char>, sep: Seq<char>)
    requires
        sep.len() > 0,
    ensures
        split_by(s, sep).len() > 0,
        glued(split_by(s, sep), sep) == s,
        forall|i: int, j: int|
            0 <= i < split_by(s, sep).len() ==> !#[trigger] occurs_at(split_by(s, sep)[i], sep, j),
    decreases s.len(),
{
    lemma_find_from(s, sep, 0);
    match find_from(s, sep, 0) {
        Some(i) => {
            let rest = s.subrange(i + sep.len(), s.len() as int);
            let head = s.subrange(0, i);
            law_split_loses_nothing(rest, sep);
            lemma_glued_front(head, split_by(rest, sep), sep);
            assert(s =~= head + sep + rest) by {
                assert(s.subrange(i, i + sep.len()) == sep);
            }
            assert forall|k: int, j: int| 0 <= k < split_by(s, sep).len() implies !#[trigger] occurs_at(
                split_by(s, sep)[k],
                sep,
                j,
            ) by {
                if k == 0 {
                    if occurs_at(head, sep, j) {
                        assert(s.subrange(j, j + sep.len()) =~= head.subrange(j, j + sep.len()));
                        assert(occurs_at(s, sep, j));
                    }
                } else {
                    assert(split_by(s, sep)[k] == split_by(rest, sep)[k - 1]);
                }
            }
        },
        None => {
            assert(split_by(s, sep)[0] == s);
        },
    }
}

proof fn lemma_trim_start_cut(s: Seq<char>) -> (a: int)
    ensures
        0 <= a <= s.len(),
        trim_start(s) == s.subrange(a, s.len() as int),
        forall|k: int| 0 <= k < a ==> white(#[trigger] s[k]),
        a < s.len() ==> !white(s[a]),
    decreases s.len(),
{
    if s.len() > 0 && white(s[0]) {
        let t = s.subrange(1, s.len() as int);
        let b = lemma_trim_start_cut(t);
        assert(t.subrange(b, t.len() as int) =~= s.subrange(b + 1, s.len() as int));
        assert forall|k: int| 0 <= k < b + 1 implies white(#[trigger] s[k]) by {
            if k > 0 {
                assert(t[k - 1] == s[k]);
            }
        }
        if b < t.len() {
            assert(t[b] == s[b + 1]);
        }
        b + 1
    } else {
        assert(s.subrange(0, s.len() as int) =~= s);
        0
    }
}

proof fn lemma_trim_end_cut(s: Seq<char>) -> (b: int)
    ensures
        0 <= b <= s.len(),
        trim_end(s) == s.subrange(0, b),
        forall|k: int| b <= k < s.len() ==> white(#[trigger] s[k]),
        0 < b ==> !white(s[b - 1]),
    decreases s.len(),
{
    if s.len() > 0 && white(s.last()) {
        let t = s.subrange(0, s.len() - 1);
        let b = lemma_trim_end_cut(t);
        assert(t.subrange(0, b) =~= s.subrange(0, b));
        assert forall|k: int| b <= k < s.len() implies white(#[trigger] s[k]) by {
            if k < s.len() - 1 {
                assert(t[k] == s[k]);
            }
        }
        b
    } else {
        assert(s.subrange(0, s.len() as int) =~= s);
        s.len() as int
    }
}

/// Trimming takes White_Space from both ends and nothing else: what is left neither begins nor ends
/// with it.
pub proof fn law_trim_takes_only_white_space(s: Seq<char>)
    ensures
        exists|a: int, b: int| #[trigger]
            trim_cut(s, a, b) && trim(s) == s.subrange(a, b),
{
    let a = lemma_trim_start_cut(s);
    let t = trim_start(s);
    let n = lemma_trim_end_cut(t);
    let b = a + n;
    assert(t.subrange(0, n) =~= s.subrange(a, b));
    assert forall|k: int| b <= k < s.len() implies white(#[trigger] s[k]) by {
        assert(t[k - a] == s[k]);
    }
    if n > 0 {
        assert(t[0] == s[a]);
        assert(t[n - 1] == s[b - 1]);
    }
    assert(trim_cut(s, a, b));
}

/// Everything outside of the given part is White_Space, and the part has none at its ends.
pub open spec fn trim_cut(s: Seq<char>, a: int, b: int) -> bool {
    &&& 0 <= a <= b <= s.len()
    &&& forall|k: int| 0 <= k < a ==> white(#[trigger] s[k])
    &&& forall|k: int| b <= k < s.len() ==> white(#[trigger] s[k])
    &&& a < b ==> !white(s[a]) && !white(s[b - 1])
}

/// A text without White_Space at its ends is not changed by trimming.
pub proof fn lemma_trim_keeps(s: Seq<char>)
    requires
        s.len() > 0 ==> !white(s[0]) && !white(s.last()),
    ensures
        trim(s) == s,
{
}

proof fn lemma_word_len_stops(s: Seq<char>, c: char, t: Seq<char>)
    requires
        white(c),
    ensures
        word_len(s + seq![c] + t) == word_len(s),
    decreases s.len(),
{
    let w = s + seq![c] + t;
    if s.len() > 0 {
        let rest = s.subrange(1, s.len() as int);
        assert(w.subrange(1, w.len() as int) =~= rest + seq![c] + t);
        lemma_word_len_stops(rest, c, t);
    }
}

proof fn lemma_word_len_whole(s: Seq<char>)
    requires
        forall|k: int| 0 <= k < s.len() ==> !white(#[trigger] s[k]),
    ensures
        word_len(s) == s.len(),
    decreases s.len(),
{
    if s.len() > 0 {
        let rest = s.subrange(1, s.len() as int);
        assert forall|k: int| 0 <= k < rest.len() implies !white(#[trigger] rest[k]) by {
            assert(rest[k] == s[k + 1]);
        }
        lemma_word_len_whole(rest);
    }
}

/// White_Space parts words: the words of two texts with White_Space between them are those of the
/// one and then those of the other.
pub proof fn law_white_space_parts_words(s: Seq<char>, c: char, t: Seq<char>)
    requires
        white(c),
    ensures
        words(s + seq![c] + t) == words(s) + words(t),
    decreases s.len(),
{
    let w = s + seq![c] + t;
    if s.len() == 0 {
        assert(w.subrange(1, w.len() as int) =~= t);
        assert(trim_start(w) == trim_start(t));
        assert(words(s) =~= Seq::<Seq<char>>::empty());
        assert(words(w) == words(t));
        assert(words(s) + words(t) =~= words(t));
    } else if white(s[0]) {
        let rest = s.subrange(1, s.len() as int);
        assert(w.subrange(1, w.len() as int) =~= rest + seq![c] + t);
        law_white_space_parts_words(rest, c, t);
        assert(trim_start(w) == trim_start(rest + seq![c] + t));
        assert(words(w) == words(rest + seq![c] + t));
        assert(words(s) == words(rest));
    } else {
        lemma_word_len_stops(s, c, t);
        lemma_word_len(s);
        let n = word_len(s) as int;
        let rest = s.subrange(n, s.len() as int);
        assert(w.subrange(n, w.len() as int) =~= rest + seq![c] + t);
        assert(w.subrange(0, n) =~= s.subrange(0, n));
        law_white_space_parts_words(rest, c, t);
        assert(words(w) =~= seq![s.subrange(0, n)] + words(rest + seq![c] + t));
        assert(words(s) =~= seq![s.subrange(0, n)] + words(rest));
        assert(words(w) =~= words(s) + words(t));
    }
}

/// A text without White_Space is one word, and an empty one is none.
pub proof fn law_visible_text_is_one_word(s: Seq<char>)
    requires
        forall|k: int| 0 <= k < s.len() ==> !white(#[trigger] s[k]),
    ensures
        s.len() > 0 ==> words(s) == seq![s],
        s.len() == 0 ==> words(s).len() == 0,
{
    if s.len() > 0 {
        lemma_word_len_whole(s);
        let none = s.subrange(s.len() as int, s.len() as int);
        assert(none.len() == 0);
        assert(words(none) =~= Seq::<Seq<char>>::empty());
        assert(s.subrange(0, s.len() as int) =~= s);
        assert(words(s) =~= seq![s]);
    }
}

/// Taking the trailing `c` away leaves a text that does not end with `c`; only `c` was taken.
pub proof fn law_trailing_char_goes(s: Seq<char>, c: char)
    ensures
        ({
            let t = trim_end_char(s, c);
            &&& t.len() <= s.len()
            &&& t == s.subrange(0, t.len() as int)
            &&& t.len() > 0 ==> t.last() != c
            &&& forall|k: int| t.len() <= k < s.len() ==> #[trigger] s[k] == c
        }),
    decreases s.len(),
{
    if s.len() > 0 && s.last() == c {
        let p = s.subrange(0, s.len() - 1);
        law_trailing_char_goes(p, c);
        let t = trim_end_char(p, c);
        assert(p.subrange(0, t.len() as int) =~= s.subrange(0, t.len() as int));
        assert forall|k: int| t.len() <= k < s.len() implies #[trigger] s[k] == c by {
            if k < s.len() - 1 {
                assert(p[k] == s[k]);
            }
        }
    } else {
        assert(s.subrange(0, s.len() as int) =~= s);
    }
}

/// Two words are the same exactly if they are equally long and differ nowhere but in the case of
/// an ASCII letter.
pub proof fn law_case_is_all_that_may_differ(a: Seq<char>, b: Seq<char>)
    ensures
        same_word(a, b) <==> a.len() == b.len() && forall|i: int|
            0 <= i < a.len() ==> {
                ||| #[trigger] a[i] == b[i]
                ||| 'A' <= a[i] && a[i] <= 'Z' && b[i] as u32 == a[i] as u32 + 32
                ||| 'A' <= b[i] && b[i] <= 'Z' && a[i] as u32 == b[i] as u32 + 32
            },
{
    let x = ascii_lower(a);
    let y = ascii_lower(b);
    if same_word(a, b) {
        assert(x.len() == y.len());
        assert forall|i: int| 0 <= i < a.len() implies {
            ||| #[trigger] a[i] == b[i]
            ||| 'A' <= a[i] && a[i] <= 'Z' && b[i] as u32 == a[i] as u32 + 32
            ||| 'A' <= b[i] && b[i] <= 'Z' && a[i] as u32 == b[i] as u32 + 32
        } by {
            assert(x[i] == y[i]);
            assert(lower(a[i]) == lower(b[i]));
        }
    }
    if a.len() == b.len() && forall|i: int|
        0 <= i < a.len() ==> {
            ||| #[trigger] a[i] == b[i]
            ||| 'A' <= a[i] && a[i] <= 'Z' && b[i] as u32 == a[i] as u32 + 32
            ||| 'A' <= b[i] && b[i] <= 'Z' && a[i] as u32 == b[i] as u32 + 32
        } {
        assert forall|i: int| 0 <= i < x.len() implies x[i] == y[i] by {
            assert(a[i] == a[i]);
            assert(lower(a[i]) == lower(b[i]));
        }
        assert(x =~= y);
    }
}

/// Upper case is the same word, without a small letter.
pub proof fn law_upper_case_is_the_same_word(s: Seq<char>)
    ensures
        same_word(ascii_upper(s), s),
        forall|i: int|
            0 <= i < ascii_upper(s).len() ==> !('a' <= #[trigger] ascii_upper(s)[i]
                && ascii_upper(s)[i] <= 'z'),
{
    let u = ascii_upper(s);
    assert forall|i: int| 0 <= i < u.len() implies #[trigger] u[i] == s[i] || ('A' <= u[i] && u[i]
        <= 'Z' && s[i] as u32 == u[i] as u32 + 32) by {
        assert(u[i] == upper(s[i]));
    }
    law_case_is_all_that_may_differ(u, s);
}

/// One text comes before another one exactly if it is a proper beginning of it, or has the smaller
/// character where they first differ.
pub proof fn law_first_difference_orders(a: Seq<char>, b: Seq<char>)
    ensures
        text_less(a, b) <==> exists|k: int| #[trigger] differ_first_at(a, b, k) && k < b.len() && (k
            == a.len() || a[k] < b[k]),
    decreases a.len(),
{
    if a.len() > 0 && b.len() > 0 && a[0] == b[0] {
        let x = a.subrange(1, a.len() as int);
        let y = b.subrange(1, b.len() as int);
        law_first_difference_orders(x, y);
        if text_less(a, b) {
            let k = choose|k: int| #[trigger]
                differ_first_at(x, y, k) && k < y.len() && (k == x.len() || x[k] < y[k]);
            assert forall|i: int| 0 <= i < k + 1 implies #[trigger] a[i] == b[i] by {
                if i > 0 {
                    assert(x[i - 1] == y[i - 1]);
                }
            }
            assert(differ_first_at(a, b, k + 1));
        }
        if exists|k: int| #[trigger]
            differ_first_at(a, b, k) && k < b.len() && (k == a.len() || a[k] < b[k]) {
            let k = choose|k: int| #[trigger]
                differ_first_at(a, b, k) && k < b.len() && (k == a.len() || a[k] < b[k]);
            assert forall|i: int| 0 <= i < k - 1 implies #[trigger] x[i] == y[i] by {
                assert(a[i + 1] == b[i + 1]);
            }
            assert(differ_first_at(x, y, k - 1));
        }
    } else {
        assert(differ_first_at(a, b, 0));
        if exists|k: int| #[trigger]
            differ_first_at(a, b, k) && k < b.len() && (k == a.len() || a[k] < b[k]) {
            let k = choose|k: int| #[trigger]
                differ_first_at(a, b, k) && k < b.len() && (k == a.len() || a[k] < b[k]);
            if k > 0 {
                assert(a[0] == b[0]);
            }
        }
    }
}

/// Two texts are equal up to the position `k`, which neither passes.
pub open spec fn differ_first_at(a: Seq<char>, b: Seq<char>, k: int) -> bool {
    &&& 0 <= k <= a.len()
    &&& k <= b.len()
    &&& forall|i: int| 0 <= i < k ==> #[trigger] a[i] == b[i]
}

/// Replacing takes the first occurrence: what stands before and behind it stays, and without one
/// nothing changes.
pub proof fn law_first_occurrence_is_replaced(s: Seq<char>, p: Seq<char>, q: Seq<char>)
    ensures
        match find_from(s, p, 0) {
            Some(i) => occurs_at(s, p, i) && (forall|j: int| 0 <= j < i ==> !occurs_at(s, p, j))
                && replace_first(s, p, q) == s.take(i) + q + s.skip(i + p.len()),
            None => replace_first(s, p, q) == s && forall|j: int| !occurs_at(s, p, j),
        },
{
    reveal(edit);
    lemma_find_from(s, p, 0);
    if let Some(i) = find_from(s, p, 0) {
        assert(s.subrange(0, i) =~= s.take(i));
        assert(s.subrange(i + p.len(), s.len() as int) =~= s.skip(i + p.len()));
    }
}

/// Pieces without a character, put together with it between them, are taken apart again.
pub proof fn law_glued_pieces_come_apart(pieces: Seq<Seq<char>>, c: char)
    requires
        pieces.len() > 0,
        forall|i: int, k: int|
            0 <= i < pieces.len() && 0 <= k < pieces[i].len() ==> #[trigger] pieces[i][k] != c,
    ensures
        split_by(glued(pieces, seq![c]), seq![c]) == pieces,
    decreases pieces.len(),
{
    let sep = seq![c];
    let first = pieces[0];
    if pieces.len() == 1 {
        let s = glued(pieces, sep);
        lemma_find_from(s, sep, 0);
        if let Some(i) = find_from(s, sep, 0) {
            assert(s.subrange(i, i + 1)[0] == s[i]);
            assert(pieces[0][i] != c);
        }
        assert(split_by(s, sep) =~= pieces);
    } else {
        let rest = pieces.skip(1);
        assert forall|i: int, k: int| 0 <= i < rest.len() && 0 <= k < rest[i].len() implies
            #[trigger] rest[i][k] != c by {
            assert(pieces[i + 1][k] != c);
        }
        law_glued_pieces_come_apart(rest, c);
        assert(pieces =~= seq![first] + rest);
        lemma_glued_front(first, rest, sep);
        let s = glued(pieces, sep);
        let n = first.len() as int;
        assert(s.subrange(n, n + 1) =~= sep);
        assert forall|j: int| 0 <= j < n implies !occurs_at(s, sep, j) by {
            if occurs_at(s, sep, j) {
                assert(s.subrange(j, j + 1)[0] == s[j]);
                assert(s[j] == pieces[0][j]);
            }
        }
        lemma_find_is(s, sep, 0, n);
        assert(s.subrange(0, n) =~= first);
        assert(s.subrange(n + 1, s.len() as int) =~= glued(rest, sep));
    }
}

} // verus!
