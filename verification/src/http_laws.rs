//! What is written as HTTP is read back as it was written: heads, their fields, and chunks.
use crate::http;
use crate::number;
use crate::realtime;
use crate::text;
use vstd::prelude::*;
use vstd::string::*;
use vstd::utf8::*;

verus! {

// ---------------------------------------------------------------------------
// Bytes of texts
// ---------------------------------------------------------------------------

/// The bytes of two texts, one behind the other.
pub proof fn lemma_encode_concat(a: Seq<char>, b: Seq<char>)
    ensures
        encode_utf8(a + b) == encode_utf8(a) + encode_utf8(b),
    decreases a.len(),
{
    if a.len() == 0 {
        assert(a + b =~= b);
        assert(encode_utf8(a) + encode_utf8(b) =~= encode_utf8(b));
    } else {
        assert((a + b).drop_first() =~= a.drop_first() + b);
        lemma_encode_concat(a.drop_first(), b);
        assert(encode_utf8(a + b) =~= encode_utf8(a) + encode_utf8(b));
    }
}

proof fn lemma_scalar_bytes(c: u32, low: u8)
    requires
        low < 0x80,
        c != low as u32,
    ensures
        forall|i: int| 0 <= i < encode_scalar(c).len() ==> #[trigger] encode_scalar(c)[i] != low,
{
    assert(has_width_1_encoding(c) ==> (c & 0x7f) as u8 == c) by (bit_vector);
    assert(0xC0u8 | ((c >> 6) & 0x1F) as u8 >= 0x80u8) by (bit_vector);
    assert(0xE0u8 | ((c >> 12) & 0x0F) as u8 >= 0x80u8) by (bit_vector);
    assert(0xF0u8 | ((c >> 18) & 0x7) as u8 >= 0x80u8) by (bit_vector);
    assert(0x80u8 | (c & 0x3F) as u8 >= 0x80u8) by (bit_vector);
    assert(0x80u8 | ((c >> 6) & 0x3F) as u8 >= 0x80u8) by (bit_vector);
    assert(0x80u8 | ((c >> 12) & 0x3F) as u8 >= 0x80u8) by (bit_vector);
}

/// A text without an ASCII character has no byte of it either.
pub proof fn lemma_encode_lacks(s: Seq<char>, low: u8)
    requires
        low < 0x80,
        forall|k: int| 0 <= k < s.len() ==> #[trigger] s[k] as u32 != low as u32,
    ensures
        forall|i: int| 0 <= i < encode_utf8(s).len() ==> #[trigger] encode_utf8(s)[i] != low,
    decreases s.len(),
{
    if s.len() > 0 {
        let rest = s.drop_first();
        assert forall|k: int| 0 <= k < rest.len() implies #[trigger] rest[k] as u32 != low as u32 by {
            assert(rest[k] == s[k + 1]);
        }
        assert(s[0] as u32 != low as u32);
        lemma_scalar_bytes(s[0] as u32, low);
        lemma_encode_lacks(rest, low);
        let n = encode_scalar(s[0] as u32).len() as int;
        assert forall|i: int| 0 <= i < encode_utf8(s).len() implies #[trigger] encode_utf8(s)[i]
            != low by {
            if i < n {
                assert(encode_utf8(s)[i] == encode_scalar(s[0] as u32)[i]);
            } else {
                assert(encode_utf8(s)[i] == encode_utf8(rest)[i - n]);
            }
        }
    }
}

/// The bytes of a line end.
pub proof fn lemma_line_end_bytes()
    ensures
        encode_utf8("\r\n"@) == seq![13u8, 10u8],
{
    reveal_strlit("\r\n");
    assert(is_ascii_chars("\r\n"@));
    is_ascii_chars_encode_utf8("\r\n"@);
    assert(encode_utf8("\r\n"@) =~= seq![13u8, 10u8]) by {
        assert("\r\n"@[0] as u8 == 13u8);
        assert("\r\n"@[1] as u8 == 10u8);
    }
}

// ---------------------------------------------------------------------------
// Lines
// ---------------------------------------------------------------------------

/// No carriage return stands in the text.
pub open spec fn one_line(s: Seq<char>) -> bool {
    forall|k: int| 0 <= k < s.len() ==> #[trigger] s[k] != '\r'
}

/// A line in front of a text is its first piece.
pub proof fn lemma_split_line(line: Seq<char>, rest: Seq<char>)
    requires
        one_line(line),
    ensures
        text::split_by(line + "\r\n"@ + rest, "\r\n"@) == seq![line] + text::split_by(
            rest,
            "\r\n"@,
        ),
{
    reveal_strlit("\r\n");
    let s = line + "\r\n"@ + rest;
    let n = line.len() as int;
    assert(s.subrange(n, n + 2) =~= "\r\n"@);
    assert forall|j: int| 0 <= j < n implies !text::occurs_at(s, "\r\n"@, j) by {
        if text::occurs_at(s, "\r\n"@, j) {
            assert(s.subrange(j, j + 2)[0] == s[j]);
            assert(s[j] == line[j]);
        }
    }
    text::lemma_find_is(s, "\r\n"@, 0, n);
    assert(s.subrange(0, n) =~= line);
    assert(s.subrange(n + 2, s.len() as int) =~= rest);
}

/// A text of one line is its only piece.
pub proof fn lemma_split_last(line: Seq<char>)
    requires
        one_line(line),
    ensures
        text::split_by(line, "\r\n"@) == seq![line],
{
    reveal_strlit("\r\n");
    text::lemma_find_from(line, "\r\n"@, 0);
    if let Some(i) = text::find_from(line, "\r\n"@, 0) {
        assert(line.subrange(i, i + 2)[0] == line[i]);
    }
}

/// A header field that fits on a line: its name is not empty and has no colon, neither part has a
/// line end, nor White_Space at its ends.
pub open spec fn fits(f: (Seq<char>, Seq<char>)) -> bool {
    &&& f.0.len() > 0
    &&& one_line(f.0)
    &&& one_line(f.1)
    &&& forall|k: int| 0 <= k < f.0.len() ==> #[trigger] f.0[k] != ':'
    &&& !text::white(f.0[0])
    &&& !text::white(f.0.last())
    &&& f.1.len() > 0 ==> !text::white(f.1[0]) && !text::white(f.1.last())
}

/// All header fields fit.
pub open spec fn all_fit(h: Seq<(Seq<char>, Seq<char>)>) -> bool {
    forall|i: int| 0 <= i < h.len() ==> fits(#[trigger] h[i])
}

/// The line of a header field.
pub open spec fn line_of(f: (Seq<char>, Seq<char>)) -> Seq<char> {
    f.0 + ": "@ + f.1
}

/// The lines of header fields.
pub open spec fn lines_of(h: Seq<(Seq<char>, Seq<char>)>) -> Seq<Seq<char>> {
    Seq::new(h.len(), |i: int| line_of(h[i]))
}

proof fn lemma_line_reads_back(f: (Seq<char>, Seq<char>))
    requires
        fits(f),
    ensures
        one_line(line_of(f)),
        line_of(f).len() > 0,
        text::after_char(line_of(f), ':') is Some,
        http::header_name(line_of(f)) == f.0,
        text::trim(http::header_name(line_of(f))) == f.0,
        text::trim(text::after_char(line_of(f), ':')->0) == f.1,
{
    reveal_strlit(": ");
    let l = line_of(f);
    let n = f.0.len() as int;
    assert(l[n] == ':');
    assert forall|k: int| 0 <= k < n implies l[k] != ':' by {
        assert(l[k] == f.0[k]);
    }
    assert forall|k: int| 0 <= k < l.len() implies #[trigger] l[k] != '\r' by {
        if k < n {
            assert(l[k] == f.0[k]);
        } else if k >= n + 2 {
            assert(l[k] == f.1[k - n - 2]);
        }
    }
    text::lemma_find_char(l, ':', 0);
    assert(text::find_char(l, ':', 0) == Some(n));
    assert(l.subrange(0, n) =~= f.0);
    text::lemma_trim_keeps(f.0);
    let v = l.subrange(n + 1, l.len() as int);
    assert(v =~= seq![' '] + f.1);
    assert(text::white(' '));
    assert(v.subrange(1, v.len() as int) =~= f.1);
    assert(text::trim_start(v) == text::trim_start(f.1));
    text::lemma_trim_keeps(f.1);
}

proof fn lemma_header_lines_front(f: (Seq<char>, Seq<char>), h: Seq<(Seq<char>, Seq<char>)>)
    ensures
        http::header_lines(seq![f] + h) == line_of(f) + "\r\n"@ + http::header_lines(h),
    decreases h.len(),
{
    let all = seq![f] + h;
    if h.len() == 0 {
        assert(all.drop_last() =~= Seq::<(Seq<char>, Seq<char>)>::empty());
        assert(all.last() == f);
        assert(http::header_lines(all.drop_last()) =~= Seq::<char>::empty());
        assert(http::header_lines(all) =~= line_of(f) + "\r\n"@ + http::header_lines(h));
    } else {
        lemma_header_lines_front(f, h.drop_last());
        assert(all.drop_last() =~= seq![f] + h.drop_last());
        assert(http::header_lines(all) =~= line_of(f) + "\r\n"@ + http::header_lines(h));
    }
}

proof fn lemma_header_list_front(l: Seq<char>, lines: Seq<Seq<char>>)
    requires
        text::after_char(l, ':') is Some,
    ensures
        http::header_list(seq![l] + lines) == seq![
            (text::trim(http::header_name(l)), text::trim(text::after_char(l, ':')->0)),
        ] + http::header_list(lines),
    decreases lines.len(),
{
    let all = seq![l] + lines;
    let x = (text::trim(http::header_name(l)), text::trim(text::after_char(l, ':')->0));
    if lines.len() == 0 {
        assert(all.drop_last() =~= Seq::<Seq<char>>::empty());
        assert(all.last() == l);
        assert(http::header_list(all.drop_last()) =~= Seq::<(Seq<char>, Seq<char>)>::empty());
        assert(http::header_list(all) =~= seq![x] + http::header_list(lines));
    } else {
        lemma_header_list_front(l, lines.drop_last());
        assert(all.drop_last() =~= seq![l] + lines.drop_last());
        assert(http::header_list(all) =~= seq![x] + http::header_list(lines));
    }
}

/// The fields of lines that were written are the fields that were written.
proof fn lemma_lines_read_back(h: Seq<(Seq<char>, Seq<char>)>, more: Seq<Seq<char>>)
    requires
        all_fit(h),
    ensures
        http::header_list(lines_of(h) + more) == h + http::header_list(more),
    decreases h.len(),
{
    if h.len() == 0 {
        assert(lines_of(h) + more =~= more);
        assert(h + http::header_list(more) =~= http::header_list(more));
    } else {
        let rest = h.skip(1);
        assert forall|i: int| 0 <= i < rest.len() implies fits(#[trigger] rest[i]) by {
            assert(fits(h[i + 1]));
        }
        assert(fits(h[0]));
        lemma_line_reads_back(h[0]);
        lemma_lines_read_back(rest, more);
        assert(lines_of(h) + more =~= seq![line_of(h[0])] + (lines_of(rest) + more));
        lemma_header_list_front(line_of(h[0]), lines_of(rest) + more);
        assert(h + http::header_list(more) =~= seq![h[0]] + (rest + http::header_list(more)));
    }
}

proof fn lemma_split_header_lines(h: Seq<(Seq<char>, Seq<char>)>, tail: Seq<char>)
    requires
        all_fit(h),
    ensures
        text::split_by(http::header_lines(h) + tail, "\r\n"@) == lines_of(h) + text::split_by(
            tail,
            "\r\n"@,
        ),
    decreases h.len(),
{
    if h.len() == 0 {
        assert(http::header_lines(h) + tail =~= tail);
        assert(lines_of(h) + text::split_by(tail, "\r\n"@) =~= text::split_by(tail, "\r\n"@));
    } else {
        let rest = h.skip(1);
        assert forall|i: int| 0 <= i < rest.len() implies fits(#[trigger] rest[i]) by {
            assert(fits(h[i + 1]));
        }
        assert(fits(h[0]));
        lemma_line_reads_back(h[0]);
        lemma_split_header_lines(rest, tail);
        assert(h =~= seq![h[0]] + rest);
        lemma_header_lines_front(h[0], rest);
        assert(http::header_lines(h) + tail =~= line_of(h[0]) + "\r\n"@ + (http::header_lines(rest)
            + tail));
        lemma_split_line(line_of(h[0]), http::header_lines(rest) + tail);
        assert(lines_of(h) + text::split_by(tail, "\r\n"@) =~= seq![line_of(h[0])] + (lines_of(rest)
            + text::split_by(tail, "\r\n"@)));
    }
}

proof fn lemma_header_lines_concat(
    a: Seq<(Seq<char>, Seq<char>)>,
    b: Seq<(Seq<char>, Seq<char>)>,
)
    ensures
        http::header_lines(a + b) == http::header_lines(a) + http::header_lines(b),
    decreases b.len(),
{
    if b.len() == 0 {
        assert(a + b =~= a);
        assert(http::header_lines(a) + http::header_lines(b) =~= http::header_lines(a));
    } else {
        assert((a + b).drop_last() =~= a + b.drop_last());
        lemma_header_lines_concat(a, b.drop_last());
        assert(http::header_lines(a + b) =~= http::header_lines(a) + http::header_lines(b));
    }
}

// ---------------------------------------------------------------------------
// Heads of responses
// ---------------------------------------------------------------------------

/// The first line of a response, without its line end.
pub open spec fn first_line(status: u16) -> Seq<char> {
    "HTTP/1.1 "@ + number::decimal(status as nat) + " "@ + http::reason_of(status)
}

proof fn lemma_reason(status: u16)
    ensures
        one_line(http::reason_of(status)),
        is_ascii_chars(http::reason_of(status)),
{
    reveal_strlit("OK");
    reveal_strlit("No Content");
    reveal_strlit("Found");
    reveal_strlit("Bad Request");
    reveal_strlit("Unauthorized");
    reveal_strlit("Forbidden");
    reveal_strlit("Not Found");
    reveal_strlit("Too Many Requests");
    reveal_strlit("Internal Server Error");
    reveal_strlit("Bad Gateway");
    reveal_strlit("Service Unavailable");
}

proof fn lemma_first_line(status: u16)
    ensures
        one_line(first_line(status)),
        http::status_line(status) == first_line(status) + "\r\n"@,
        text::words(first_line(status)).len() >= 2,
        text::words(first_line(status))[1] == number::decimal(status as nat),
{
    reveal_strlit("HTTP/1.1 ");
    reveal_strlit("HTTP/1.1");
    reveal_strlit(" ");
    lemma_reason(status);
    number::lemma_decimal_digits(status as nat);
    let d = number::decimal(status as nat);
    let l = first_line(status);
    let reason = http::reason_of(status);
    assert(l =~= "HTTP/1.1"@ + seq![' '] + (d + seq![' '] + reason));
    assert forall|k: int| 0 <= k < l.len() implies #[trigger] l[k] != '\r' by {
        if k >= 9 && k < 9 + d.len() {
            assert(l[k] == d[k - 9]);
        } else if k > 9 + d.len() {
            assert(l[k] == reason[k - 10 - d.len()]);
        }
    }
    assert(text::white(' '));
    text::law_white_space_parts_words("HTTP/1.1"@, ' ', d + seq![' '] + reason);
    text::law_white_space_parts_words(d, ' ', reason);
    text::law_visible_text_is_one_word("HTTP/1.1"@);
    assert forall|k: int| 0 <= k < d.len() implies !text::white(#[trigger] d[k]) by {
        assert('0' <= d[k] && d[k] <= '9');
    }
    text::law_visible_text_is_one_word(d);
    assert(http::status_line(status) =~= l + "\r\n"@);
}

proof fn lemma_status_reads_back(status: u16, rest: Seq<char>)
    ensures
        http::status_in(encode_utf8(http::status_line(status) + rest)) == Some(status as nat),
{
    let l = first_line(status);
    lemma_first_line(status);
    lemma_line_end_bytes();
    let s = http::status_line(status) + rest;
    assert(s =~= l + ("\r\n"@ + rest));
    lemma_encode_concat(l, "\r\n"@ + rest);
    lemma_encode_concat("\r\n"@, rest);
    let b = encode_utf8(s);
    let raw = encode_utf8(l);
    let n = raw.len() as int;
    assert forall|k: int| 0 <= k < l.len() implies #[trigger] l[k] as u32 != 13u8 as u32 by {
        assert(l[k] != '\r');
        char_is_scalar(l[k]);
        if l[k] as u32 == 13u32 {
            char_u32_cast(l[k], 13u32);
            char_u32_cast('\r', 13u32);
        }
    }
    lemma_encode_lacks(l, 13);
    assert(b =~= raw + seq![13u8, 10u8] + encode_utf8(rest));
    assert(b.subrange(n, n + 2) =~= seq![13u8, 10u8]);
    assert forall|j: int| 0 <= j < n implies !text::occurs_at(b, seq![13u8, 10u8], j) by {
        if text::occurs_at(b, seq![13u8, 10u8], j) {
            assert(b.subrange(j, j + 2)[0] == b[j]);
            assert(b[j] == raw[j]);
        }
    }
    text::lemma_find_is(b, seq![13u8, 10u8], 0, n);
    assert(b.subrange(0, n) =~= raw);
    encode_utf8_valid_utf8(l);
    encode_utf8_decode_utf8(l);
    number::law_decimal_reads_back(status as nat, u16::MAX as nat);
}

/// The status that is read out of a written head is the one that was handed in: the client is told
/// what the upstream has answered, whatever fields go along.
pub proof fn law_status_reads_back(
    status: u16,
    ctype: Seq<char>,
    body_len: nat,
    headers: Seq<(Seq<char>, Seq<char>)>,
)
    ensures
        http::status_in(encode_utf8(http::chunked_head_text(status, headers))) == Some(
            status as nat,
        ),
        http::status_in(encode_utf8(http::response_head_text(status, ctype, body_len, headers)))
            == Some(status as nat),
        http::status_in(encode_utf8(http::empty_head_text(status, headers))) == Some(status as nat),
{
    let s = http::status_line(status);
    let a = http::chunked_head_text(status, headers);
    let b = http::response_head_text(status, ctype, body_len, headers);
    let c = http::empty_head_text(status, headers);
    let ra = a.skip(s.len() as int);
    let rb = b.skip(s.len() as int);
    let rc = c.skip(s.len() as int);
    assert(a =~= s + ra);
    assert(b =~= s + rb);
    assert(c =~= s + rc);
    lemma_status_reads_back(status, ra);
    lemma_status_reads_back(status, rb);
    lemma_status_reads_back(status, rc);
}

/// The header fields of the head of a response: those of all lines but the first.
pub open spec fn fields_in(head: Seq<char>) -> Seq<(Seq<char>, Seq<char>)> {
    http::header_list(text::split_by(head, "\r\n"@).skip(1))
}

proof fn lemma_fields_read_back(first: Seq<char>, h: Seq<(Seq<char>, Seq<char>)>)
    requires
        one_line(first),
        all_fit(h),
    ensures
        fields_in(first + "\r\n"@ + http::header_lines(h) + "\r\n"@) == h,
        text::split_by(first + "\r\n"@ + http::header_lines(h) + "\r\n"@, "\r\n"@).skip(1)
            == lines_of(h) + seq![""@, ""@],
{
    reveal_strlit("\r\n");
    reveal_strlit("");
    let none = Seq::<char>::empty();
    let s = first + "\r\n"@ + http::header_lines(h) + "\r\n"@;
    assert(s =~= first + "\r\n"@ + (http::header_lines(h) + "\r\n"@));
    lemma_split_line(first, http::header_lines(h) + "\r\n"@);
    lemma_split_header_lines(h, "\r\n"@);
    assert("\r\n"@ =~= none + "\r\n"@ + none);
    lemma_split_line(none, none);
    lemma_split_last(none);
    assert(""@ =~= none);
    assert(text::split_by("\r\n"@, "\r\n"@) =~= seq![""@, ""@]);
    let lines = text::split_by(s, "\r\n"@);
    assert(lines.skip(1) =~= lines_of(h) + seq![""@, ""@]);
    lemma_lines_read_back(h, seq![""@, ""@]);
    text::lemma_find_char(""@, ':', 0);
    let two = seq![""@, ""@];
    assert(two.drop_last() =~= seq![""@]);
    assert(seq![""@].drop_last() =~= Seq::<Seq<char>>::empty());
    assert(two.last() == ""@);
    assert(http::header_list(Seq::<Seq<char>>::empty()).len() == 0);
    assert(seq![""@].last() == ""@);
    assert(http::header_list(seq![""@]).len() == 0);
    assert(http::header_list(two).len() == 0);
    assert(h + http::header_list(two) =~= h);
}

proof fn lemma_own_fields(ctype: Seq<char>, n: nat)
    requires
        one_line(ctype),
        ctype.len() > 0 ==> !text::white(ctype[0]) && !text::white(ctype.last()),
    ensures
        all_fit(seq![("Transfer-Encoding"@, "chunked"@), ("Connection"@, "close"@)]),
        http::header_lines(seq![("Transfer-Encoding"@, "chunked"@), ("Connection"@, "close"@)])
            == "Transfer-Encoding: chunked\r\nConnection: close\r\n"@,
        all_fit(seq![("Content-Length"@, "0"@), ("Connection"@, "close"@)]),
        http::header_lines(seq![("Content-Length"@, "0"@), ("Connection"@, "close"@)])
            == "Content-Length: 0\r\nConnection: close\r\n"@,
        all_fit(
            seq![
                ("Content-Type"@, ctype),
                ("Content-Length"@, number::decimal(n)),
                ("Connection"@, "close"@),
            ],
        ),
        http::header_lines(
            seq![
                ("Content-Type"@, ctype),
                ("Content-Length"@, number::decimal(n)),
                ("Connection"@, "close"@),
            ],
        ) == "Content-Type: "@ + ctype + "\r\nContent-Length: "@ + number::decimal(n)
            + "\r\nConnection: close\r\n"@,
{
    reveal_strlit("Transfer-Encoding");
    reveal_strlit("chunked");
    reveal_strlit("Connection");
    reveal_strlit("close");
    reveal_strlit("Content-Length");
    reveal_strlit("Content-Type");
    reveal_strlit("0");
    reveal_strlit(": ");
    reveal_strlit("\r\n");
    reveal_strlit("Transfer-Encoding: chunked\r\nConnection: close\r\n");
    reveal_strlit("Content-Length: 0\r\nConnection: close\r\n");
    reveal_strlit("Content-Type: ");
    reveal_strlit("\r\nContent-Length: ");
    reveal_strlit("\r\nConnection: close\r\n");
    number::lemma_decimal_digits(n);
    let d = number::decimal(n);
    assert forall|k: int| 0 <= k < d.len() implies #[trigger] d[k] != '\r' && !text::white(d[k]) by {
        assert('0' <= d[k] && d[k] <= '9');
    }
    let none = Seq::<(Seq<char>, Seq<char>)>::empty();
    assert(http::header_lines(none) =~= Seq::<char>::empty());
    let close = ("Connection"@, "close"@);
    let te = ("Transfer-Encoding"@, "chunked"@);
    let zero = ("Content-Length"@, "0"@);
    let ct = ("Content-Type"@, ctype);
    let cl = ("Content-Length"@, d);
    assert(fits(close));
    assert(fits(te));
    assert(fits(zero));
    assert(fits(ct));
    assert(fits(cl));
    lemma_header_lines_front(close, none);
    assert(seq![close] + none =~= seq![close]);
    lemma_header_lines_front(te, seq![close]);
    assert(seq![te] + seq![close] =~= seq![te, close]);
    lemma_header_lines_front(zero, seq![close]);
    assert(seq![zero] + seq![close] =~= seq![zero, close]);
    lemma_header_lines_front(cl, seq![close]);
    assert(seq![cl] + seq![close] =~= seq![cl, close]);
    lemma_header_lines_front(ct, seq![cl, close]);
    assert(seq![ct] + seq![cl, close] =~= seq![ct, cl, close]);
    assert(http::header_lines(seq![te, close])
        =~= "Transfer-Encoding: chunked\r\nConnection: close\r\n"@);
    assert(http::header_lines(seq![zero, close])
        =~= "Content-Length: 0\r\nConnection: close\r\n"@);
    assert(http::header_lines(seq![ct, cl, close]) =~= "Content-Type: "@ + ctype
        + "\r\nContent-Length: "@ + d + "\r\nConnection: close\r\n"@);
}

proof fn lemma_all_fit_concat(a: Seq<(Seq<char>, Seq<char>)>, b: Seq<(Seq<char>, Seq<char>)>)
    requires
        all_fit(a),
        all_fit(b),
    ensures
        all_fit(a + b),
{
    assert forall|i: int| 0 <= i < (a + b).len() implies fits(#[trigger] (a + b)[i]) by {
        if i < a.len() {
            assert((a + b)[i] == a[i]);
        } else {
            assert((a + b)[i] == b[i - a.len()]);
        }
    }
}

/// The header fields of a head in chunks are read back: how the body is sent, that the connection
/// closes, and every field that was handed in, in its order and with its value.
pub proof fn law_chunked_fields_read_back(status: u16, headers: Seq<(Seq<char>, Seq<char>)>)
    requires
        all_fit(headers),
    ensures
        fields_in(http::chunked_head_text(status, headers)) == seq![
            ("Transfer-Encoding"@, "chunked"@),
            ("Connection"@, "close"@),
        ] + headers,
{
    lemma_first_line(status);
    lemma_own_fields(Seq::empty(), 0);
    let own = seq![("Transfer-Encoding"@, "chunked"@), ("Connection"@, "close"@)];
    lemma_header_lines_concat(own, headers);
    lemma_all_fit_concat(own, headers);
    lemma_fields_read_back(first_line(status), own + headers);
    assert(http::chunked_head_text(status, headers) =~= first_line(status) + "\r\n"@
        + http::header_lines(own + headers) + "\r\n"@);
}

/// The header fields of a head with a body of known length are read back: its type, its length,
/// that the connection closes, and every field that was handed in.
pub proof fn law_response_fields_read_back(
    status: u16,
    ctype: Seq<char>,
    body_len: nat,
    extra: Seq<(Seq<char>, Seq<char>)>,
)
    requires
        all_fit(extra),
        one_line(ctype),
        ctype.len() > 0 ==> !text::white(ctype[0]) && !text::white(ctype.last()),
    ensures
        fields_in(http::response_head_text(status, ctype, body_len, extra)) == seq![
            ("Content-Type"@, ctype),
            ("Content-Length"@, number::decimal(body_len)),
            ("Connection"@, "close"@),
        ] + extra,
        fields_in(http::empty_head_text(status, extra)) == seq![
            ("Content-Length"@, "0"@),
            ("Connection"@, "close"@),
        ] + extra,
{
    lemma_first_line(status);
    lemma_own_fields(ctype, body_len);
    let own = seq![
        ("Content-Type"@, ctype),
        ("Content-Length"@, number::decimal(body_len)),
        ("Connection"@, "close"@),
    ];
    lemma_header_lines_concat(own, extra);
    lemma_all_fit_concat(own, extra);
    lemma_fields_read_back(first_line(status), own + extra);
    assert(http::response_head_text(status, ctype, body_len, extra) =~= first_line(status)
        + "\r\n"@ + http::header_lines(own + extra) + "\r\n"@);
    let zero = seq![("Content-Length"@, "0"@), ("Connection"@, "close"@)];
    lemma_header_lines_concat(zero, extra);
    lemma_all_fit_concat(zero, extra);
    lemma_fields_read_back(first_line(status), zero + extra);
    assert(http::empty_head_text(status, extra) =~= first_line(status) + "\r\n"@
        + http::header_lines(zero + extra) + "\r\n"@);
}

// ---------------------------------------------------------------------------
// Requests
// ---------------------------------------------------------------------------

/// The name is that of the field that tells the length of a body.
pub open spec fn tells_length(name: Seq<char>) -> bool {
    text::same_word(name, "Content-Length"@)
}

proof fn lemma_length_name()
    ensures
        text::ascii_lower("Content-Length"@) == text::ascii_lower("content-length"@),
{
    reveal_strlit("Content-Length");
    reveal_strlit("content-length");
    assert(text::ascii_lower("Content-Length"@) =~= text::ascii_lower("content-length"@));
}

proof fn lemma_announced(h: Seq<(Seq<char>, Seq<char>)>)
    requires
        all_fit(h),
        h.len() > 0,
    ensures
        http::announced_len(lines_of(h)) == (if tells_length(h.last().0) {
            match number::unsigned(h.last().1, usize::MAX as nat) {
                Some(n) => n,
                None => 0,
            }
        } else {
            http::announced_len(lines_of(h.drop_last()))
        }),
{
    let lines = lines_of(h);
    assert(fits(h[h.len() - 1]));
    lemma_line_reads_back(h.last());
    lemma_length_name();
    assert(lines.last() == line_of(h.last()));
    assert(lines.drop_last() =~= lines_of(h.drop_last()));
}

/// The body of a request is as long as its last `Content-Length` says; without one, or where that
/// is no number, there is none.
pub proof fn law_content_length_announces_the_body(h: Seq<(Seq<char>, Seq<char>)>, n: nat)
    requires
        all_fit(h),
    ensures
        (forall|i: int| 0 <= i < h.len() ==> !tells_length(#[trigger] h[i].0))
            ==> http::announced_len(lines_of(h)) == 0,
        forall|i: int|
            0 <= i < h.len() && tells_length(#[trigger] h[i].0) && h[i].1 == number::decimal(n) && n
                <= usize::MAX && (forall|j: int|
                i < j < h.len() ==> !tells_length(#[trigger] h[j].0)) ==> http::announced_len(
                lines_of(h),
            ) == n,
    decreases h.len(),
{
    if h.len() > 0 {
        let p = h.drop_last();
        assert forall|i: int| 0 <= i < p.len() implies fits(#[trigger] p[i]) by {
            assert(fits(h[i]));
        }
        law_content_length_announces_the_body(p, n);
        lemma_announced(h);
        number::law_decimal_reads_back(n, usize::MAX as nat);
        if forall|i: int| 0 <= i < h.len() ==> !tells_length(#[trigger] h[i].0) {
            assert(!tells_length(h[h.len() - 1].0));
            assert forall|i: int| 0 <= i < p.len() implies !tells_length(#[trigger] p[i].0) by {
                assert(!tells_length(h[i].0));
            }
        }
        assert forall|i: int|
            0 <= i < h.len() && tells_length(#[trigger] h[i].0) && h[i].1 == number::decimal(n) && n
                <= usize::MAX && (forall|j: int|
                i < j < h.len() ==> !tells_length(#[trigger] h[j].0)) implies http::announced_len(
            lines_of(h),
        ) == n by {
            if i < p.len() {
                assert(!tells_length(h[h.len() - 1].0));
                assert(tells_length(p[i].0));
                assert forall|j: int| i < j < p.len() implies !tells_length(#[trigger] p[j].0) by {
                    assert(!tells_length(h[j].0));
                }
            }
        }
    } else {
        assert(lines_of(h).len() == 0);
    }
}

/// A request as it is written: its first line, its header fields, an empty line.
pub open spec fn request_text(
    method: Seq<char>,
    target: Seq<char>,
    version: Seq<char>,
    headers: Seq<(Seq<char>, Seq<char>)>,
) -> Seq<char> {
    method + " "@ + target + " "@ + version + "\r\n"@ + http::header_lines(headers) + "\r\n"@
}

/// A text that can stand in the first line of a request: not empty, and without White_Space.
pub open spec fn is_word(s: Seq<char>) -> bool {
    s.len() > 0 && forall|k: int| 0 <= k < s.len() ==> !text::white(#[trigger] s[k])
}

proof fn lemma_no_cr_byte(s: Seq<char>)
    requires
        one_line(s),
    ensures
        forall|i: int| 0 <= i < encode_utf8(s).len() ==> #[trigger] encode_utf8(s)[i] != 13u8,
        s.len() > 0 ==> encode_utf8(s).len() > 0,
{
    assert forall|k: int| 0 <= k < s.len() implies #[trigger] s[k] as u32 != 13u8 as u32 by {
        assert(s[k] != '\r');
        char_is_scalar(s[k]);
        if s[k] as u32 == 13u32 {
            char_u32_cast(s[k], 13u32);
            char_u32_cast('\r', 13u32);
        }
    }
    lemma_encode_lacks(s, 13);
}

proof fn lemma_find_shift(s: Seq<u8>, p: Seq<u8>, k: int)
    requires
        0 <= k <= s.len(),
        forall|j: int| 0 <= j < k ==> !text::occurs_at(s, p, j),
        text::find_from(s.skip(k), p, 0) is Some,
    ensures
        text::find_from(s, p, 0) == Some(k + text::find_from(s.skip(k), p, 0)->0),
{
    let t = s.skip(k);
    let i = text::find_from(t, p, 0)->0;
    text::lemma_find_from(t, p, 0);
    assert(s.subrange(k + i, k + i + p.len()) =~= t.subrange(i, i + p.len()));
    assert forall|j: int| 0 <= j < k + i implies !text::occurs_at(s, p, j) by {
        if j >= k && text::occurs_at(s, p, j) {
            assert(t.subrange(j - k, j - k + p.len()) =~= s.subrange(j, j + p.len()));
            assert(text::occurs_at(t, p, j - k));
        }
    }
    text::lemma_find_is(s, p, 0, k + i);
}

/// The end of a head is the empty line behind its header fields.
proof fn lemma_head_end(line: Seq<char>, h: Seq<(Seq<char>, Seq<char>)>, body: Seq<u8>)
    requires
        one_line(line),
        line.len() > 0,
        all_fit(h),
    ensures
        text::find_from(
            encode_utf8(line + "\r\n"@ + http::header_lines(h) + "\r\n"@) + body,
            http::head_mark(),
            0,
        ) == Some(
            (encode_utf8(line + "\r\n"@ + http::header_lines(h)).len() - 2) as int,
        ),
    decreases h.len(),
{
    lemma_line_end_bytes();
    lemma_no_cr_byte(line);
    let tail = http::header_lines(h) + "\r\n"@;
    let all = line + "\r\n"@ + http::header_lines(h) + "\r\n"@;
    assert(all =~= line + ("\r\n"@ + tail));
    lemma_encode_concat(line, "\r\n"@ + tail);
    lemma_encode_concat("\r\n"@, tail);
    lemma_encode_concat(http::header_lines(h), "\r\n"@);
    assert(line + "\r\n"@ + http::header_lines(h) =~= line + ("\r\n"@ + http::header_lines(h)));
    lemma_encode_concat(line, "\r\n"@ + http::header_lines(h));
    lemma_encode_concat("\r\n"@, http::header_lines(h));
    let raw = encode_utf8(line);
    let n = raw.len() as int;
    let b = encode_utf8(all) + body;
    let mark = http::head_mark();
    assert(b =~= raw + seq![13u8, 10u8] + encode_utf8(tail) + body);
    assert forall|j: int| 0 <= j < n implies !text::occurs_at(b, mark, j) by {
        if text::occurs_at(b, mark, j) {
            assert(b.subrange(j, j + 4)[0] == b[j]);
            assert(b[j] == raw[j]);
        }
    }
    if h.len() == 0 {
        assert(http::header_lines(h) =~= Seq::<char>::empty());
        assert(tail =~= "\r\n"@);
        assert(encode_utf8(http::header_lines(h)).len() == 0);
        assert(b.subrange(n, n + 4) =~= mark);
        text::lemma_find_is(b, mark, 0, n);
    } else {
        let rest = h.skip(1);
        assert forall|i: int| 0 <= i < rest.len() implies fits(#[trigger] rest[i]) by {
            assert(fits(h[i + 1]));
        }
        assert(fits(h[0]));
        lemma_line_reads_back(h[0]);
        let next = line_of(h[0]);
        assert(h =~= seq![h[0]] + rest);
        lemma_header_lines_front(h[0], rest);
        lemma_head_end(next, rest, body);
        assert(tail =~= next + "\r\n"@ + http::header_lines(rest) + "\r\n"@);
        assert(http::header_lines(h) =~= next + "\r\n"@ + http::header_lines(rest));
        lemma_no_cr_byte(next);
        let t2 = "\r\n"@ + (http::header_lines(rest) + "\r\n"@);
        assert(tail =~= next + t2);
        lemma_encode_concat(next, t2);
        assert(encode_utf8(tail)[0] == encode_utf8(next)[0]);
        assert(b.skip(n + 2) =~= encode_utf8(tail) + body);
        assert forall|j: int| 0 <= j < n + 2 implies !text::occurs_at(b, mark, j) by {
            if j >= n && text::occurs_at(b, mark, j) {
                let w = b.subrange(j, j + 4);
                assert(w == mark);
                if j == n {
                    assert(w[2] == b[n + 2]);
                    assert(b[n + 2] == encode_utf8(tail)[0]);
                } else {
                    assert(w[0] == b[n + 1]);
                }
            }
        }
        lemma_find_shift(b, mark, n + 2);
    }
}

/// A request that was written is read back: its method in upper case, its target as it is, its
/// header fields in their order, and the length of its head, whatever body follows.
pub proof fn law_request_reads_back(
    method: Seq<char>,
    target: Seq<char>,
    version: Seq<char>,
    headers: Seq<(Seq<char>, Seq<char>)>,
    body: Seq<u8>,
)
    requires
        is_word(method),
        is_word(target),
        is_word(version),
        all_fit(headers),
        encode_utf8(request_text(method, target, version, headers)).len() <= http::MAX_HEAD,
    ensures
        http::request_of(encode_utf8(request_text(method, target, version, headers)) + body)
            matches Some(q) && q.method == text::ascii_upper(method) && q.target == target
            && q.headers == headers && q.body_len == http::announced_len(lines_of(headers))
            && q.head_end == encode_utf8(request_text(method, target, version, headers)).len(),
{
    reveal_strlit(" ");
    reveal_strlit("\r\n");
    lemma_line_end_bytes();
    let line = method + " "@ + target + " "@ + version;
    let all = request_text(method, target, version, headers);
    let buf = encode_utf8(all) + body;
    assert(text::white(' '));
    assert(text::white('\r'));
    assert(all =~= line + "\r\n"@ + http::header_lines(headers) + "\r\n"@);
    assert forall|k: int| 0 <= k < line.len() implies #[trigger] line[k] != '\r' by {
        let m = method.len();
        let t = target.len();
        if k < m {
            assert(line[k] == method[k]);
        } else if m < k < m + 1 + t {
            assert(line[k] == target[k - m - 1]);
        } else if k > m + 1 + t {
            assert(line[k] == version[k - m - t - 2]);
        }
    }
    lemma_head_end(line, headers, body);
    let head = line + "\r\n"@ + http::header_lines(headers);
    lemma_encode_concat(head, "\r\n"@);
    assert(all =~= head + "\r\n"@);
    let end = encode_utf8(head).len() - 2;
    // The head without its last line end is what is read as text.
    assert(exists|inner: Seq<char>| head == #[trigger] (inner + "\r\n"@)) by {
        if headers.len() == 0 {
            assert(head =~= line + "\r\n"@);
        } else {
            let l = headers.last();
            let inner = line + "\r\n"@ + http::header_lines(headers.drop_last()) + line_of(l);
            assert(head =~= inner + "\r\n"@);
        }
    }
    let inner = choose|inner: Seq<char>| head == #[trigger] (inner + "\r\n"@);
    lemma_encode_concat(inner, "\r\n"@);
    let raw = encode_utf8(inner);
    assert(buf.subrange(0, end) =~= raw);
    encode_utf8_valid_utf8(inner);
    encode_utf8_decode_utf8(inner);
    lemma_inner_lines(line, headers, inner);
    let lines = text::split_by(inner, "\r\n"@);
    assert(lines =~= seq![line] + lines_of(headers));
    assert(lines.subrange(1, lines.len() as int) =~= lines_of(headers));
    assert(line =~= method + seq![' '] + (target + seq![' '] + version));
    text::law_white_space_parts_words(method, ' ', target + seq![' '] + version);
    text::law_white_space_parts_words(target, ' ', version);
    text::law_visible_text_is_one_word(method);
    text::law_visible_text_is_one_word(target);
    text::law_visible_text_is_one_word(version);
    assert(text::words(line) =~= seq![method, target, version]);
    lemma_lines_read_back(headers, Seq::empty());
    assert(lines_of(headers) + Seq::<Seq<char>>::empty() =~= lines_of(headers));
    assert(http::header_list(Seq::<Seq<char>>::empty()) =~= Seq::empty());
    assert(headers + Seq::<(Seq<char>, Seq<char>)>::empty() =~= headers);
}

#[verifier::rlimit(40)]
proof fn lemma_inner_lines(line: Seq<char>, h: Seq<(Seq<char>, Seq<char>)>, inner: Seq<char>)
    requires
        one_line(line),
        all_fit(h),
        line + "\r\n"@ + http::header_lines(h) == inner + "\r\n"@,
    ensures
        text::split_by(inner, "\r\n"@) == seq![line] + lines_of(h),
    decreases h.len(),
{
    reveal_strlit("\r\n");
    if h.len() == 0 {
        assert(http::header_lines(h) =~= Seq::<char>::empty());
        let w = line + "\r\n"@ + http::header_lines(h);
        assert(inner =~= (inner + "\r\n"@).take(inner.len() as int));
        assert(line =~= w.take(line.len() as int));
        assert(inner.len() == line.len());
        lemma_split_last(line);
        assert(seq![line] + lines_of(h) =~= seq![line]);
    } else {
        let rest = h.skip(1);
        assert forall|i: int| 0 <= i < rest.len() implies fits(#[trigger] rest[i]) by {
            assert(fits(h[i + 1]));
        }
        assert(fits(h[0]));
        lemma_line_reads_back(h[0]);
        let next = line_of(h[0]);
        assert(h =~= seq![h[0]] + rest);
        lemma_header_lines_front(h[0], rest);
        let w = inner + "\r\n"@;
        let n = line.len() as int;
        assert(w =~= line + "\r\n"@ + (next + "\r\n"@ + http::header_lines(rest)));
        assert(inner.len() >= n + 2);
        let below = inner.skip(n + 2);
        assert(inner =~= line + "\r\n"@ + below) by {
            assert(inner =~= w.take(inner.len() as int));
        }
        assert(next + "\r\n"@ + http::header_lines(rest) =~= w.skip(n + 2));
        assert(below + "\r\n"@ =~= w.skip(n + 2));
        lemma_inner_lines(next, rest, below);
        lemma_split_line(line, below);
        assert(seq![line] + lines_of(h) =~= seq![line] + (seq![next] + lines_of(rest)));
    }
}

/// The body of a request that was read whole is what follows its head, as long as it was announced.
pub proof fn law_body_follows_the_head(head: Seq<u8>, body: Seq<u8>, more: Seq<u8>)
    ensures
        http::body_of(head + body + more, head.len(), body.len()) == body,
        more.len() == 0 && body.len() > 0 ==> http::body_of(
            head + body.drop_last(),
            head.len(),
            body.len(),
        ).len() == 0,
{
    assert(http::body_of(head + body + more, head.len(), body.len()) =~= body);
}

/// A header field is found by its name in any case: the first one with that name counts, and none is
/// found exactly if no field has the name.
pub proof fn law_first_field_counts(h: Seq<(Seq<char>, Seq<char>)>, name: Seq<char>)
    ensures
        match http::find_header(h, name) {
            Some(v) => exists|i: int|
                0 <= i < h.len() && text::same_word(#[trigger] h[i].0, name) && h[i].1 == v
                    && forall|j: int| 0 <= j < i ==> !text::same_word(#[trigger] h[j].0, name),
            None => forall|i: int| 0 <= i < h.len() ==> !text::same_word(#[trigger] h[i].0, name),
        },
    decreases h.len(),
{
    if h.len() > 0 {
        let rest = h.subrange(1, h.len() as int);
        law_first_field_counts(rest, name);
        if text::same_word(h[0].0, name) {
            assert(h[0].1 == http::find_header(h, name)->0);
        } else {
            match http::find_header(rest, name) {
                Some(v) => {
                    let i = choose|i: int|
                        0 <= i < rest.len() && text::same_word(#[trigger] rest[i].0, name)
                            && rest[i].1 == v && forall|j: int|
                            0 <= j < i ==> !text::same_word(#[trigger] rest[j].0, name);
                    assert(h[i + 1] == rest[i]);
                    assert forall|j: int| 0 <= j < i + 1 implies !text::same_word(
                        #[trigger] h[j].0,
                        name,
                    ) by {
                        if j > 0 {
                            assert(!text::same_word(rest[j - 1].0, name));
                        }
                    }
                },
                None => {
                    assert forall|i: int| 0 <= i < h.len() implies !text::same_word(
                        #[trigger] h[i].0,
                        name,
                    ) by {
                        if i > 0 {
                            assert(!text::same_word(rest[i - 1].0, name));
                        }
                    }
                },
            }
        }
    }
}

// ---------------------------------------------------------------------------
// Answers that are handed on
// ---------------------------------------------------------------------------

/// A field of the upstream's answer that speaks of the connection or of the length or the coding of
/// the body, which the proxy sends in its own way.
pub open spec fn of_the_connection(name: Seq<char>) -> bool {
    ||| text::same_word(name, "Content-Length"@)
    ||| text::same_word(name, "Transfer-Encoding"@)
    ||| text::same_word(name, "Connection"@)
    ||| text::same_word(name, "Keep-Alive"@)
    ||| text::same_word(name, "Content-Encoding"@)
}

/// Of the upstream's answer every field goes downstream, unchanged and in its order, but for those
/// that speak of the connection.
pub proof fn law_fields_of_the_answer_are_kept(h: Seq<(Seq<char>, Seq<char>)>)
    ensures
        http::kept_headers(h) == h.filter(
            |f: (Seq<char>, Seq<char>)| !of_the_connection(f.0),
        ),
    decreases h.len(),
{
    let keep = |f: (Seq<char>, Seq<char>)| !of_the_connection(f.0);
    reveal(Seq::filter);
    if h.len() > 0 {
        law_fields_of_the_answer_are_kept(h.drop_last());
        lemma_connection_names();
        assert(http::kept_headers(h) =~= h.filter(keep));
    } else {
        assert(http::kept_headers(h) =~= h.filter(keep));
    }
}

proof fn lemma_connection_names()
    ensures
        text::ascii_lower("Content-Length"@) == text::ascii_lower("content-length"@),
        text::ascii_lower("Transfer-Encoding"@) == text::ascii_lower("transfer-encoding"@),
        text::ascii_lower("Connection"@) == text::ascii_lower("connection"@),
        text::ascii_lower("Keep-Alive"@) == text::ascii_lower("keep-alive"@),
        text::ascii_lower("Content-Encoding"@) == text::ascii_lower("content-encoding"@),
        text::ascii_lower("Host"@) == text::ascii_lower("host"@),
        text::ascii_lower("Authorization"@) == text::ascii_lower("authorization"@),
        text::ascii_lower("Accept-Encoding"@) == text::ascii_lower("accept-encoding"@),
{
    reveal_strlit("Content-Length");
    reveal_strlit("content-length");
    reveal_strlit("Transfer-Encoding");
    reveal_strlit("transfer-encoding");
    reveal_strlit("Connection");
    reveal_strlit("connection");
    reveal_strlit("Keep-Alive");
    reveal_strlit("keep-alive");
    reveal_strlit("Content-Encoding");
    reveal_strlit("content-encoding");
    reveal_strlit("Host");
    reveal_strlit("host");
    reveal_strlit("Authorization");
    reveal_strlit("authorization");
    reveal_strlit("Accept-Encoding");
    reveal_strlit("accept-encoding");
    assert(text::ascii_lower("Content-Length"@) =~= text::ascii_lower("content-length"@));
    assert(text::ascii_lower("Transfer-Encoding"@) =~= text::ascii_lower("transfer-encoding"@));
    assert(text::ascii_lower("Connection"@) =~= text::ascii_lower("connection"@));
    assert(text::ascii_lower("Keep-Alive"@) =~= text::ascii_lower("keep-alive"@));
    assert(text::ascii_lower("Content-Encoding"@) =~= text::ascii_lower("content-encoding"@));
    assert(text::ascii_lower("Host"@) =~= text::ascii_lower("host"@));
    assert(text::ascii_lower("Authorization"@) =~= text::ascii_lower("authorization"@));
    assert(text::ascii_lower("Accept-Encoding"@) =~= text::ascii_lower("accept-encoding"@));
}

/// Of a request exactly these fields stay behind, in any case of their letters: the host and the
/// credentials, which the proxy sets itself, and what speaks of the connection.
pub proof fn law_fields_that_stay_behind(name: Seq<char>)
    ensures
        http::request_hop(name) <==> {
            ||| text::same_word(name, "Host"@)
            ||| text::same_word(name, "Authorization"@)
            ||| text::same_word(name, "Content-Length"@)
            ||| text::same_word(name, "Transfer-Encoding"@)
            ||| text::same_word(name, "Connection"@)
            ||| text::same_word(name, "Keep-Alive"@)
            ||| text::same_word(name, "Accept-Encoding"@)
        },
{
    lemma_connection_names();
}

/// A chunk tells its length in hexadecimal digits, and holds its data whole; no data makes no chunk.
pub proof fn law_chunk_holds_its_data(data: Seq<u8>)
    ensures
        data.len() == 0 ==> http::chunk_bytes(data).len() == 0,
        data.len() > 0 ==> exists|size: Seq<char>|
            number::worth(size, 16) == data.len() && (forall|i: int|
                0 <= i < size.len() ==> number::is_digit_of(#[trigger] size[i], 16))
                && http::chunk_bytes(data) == #[trigger] encode_utf8(size) + seq![13u8, 10u8] + data
                + seq![13u8, 10u8],
{
    if data.len() > 0 {
        let size = number::hex(data.len());
        number::law_notation_is_worth_its_number(data.len(), 16);
        lemma_line_end_bytes();
        lemma_encode_concat(size, "\r\n"@);
        assert(http::chunk_bytes(data) =~= encode_utf8(size) + seq![13u8, 10u8] + data + seq![
            13u8,
            10u8,
        ]);
    }
}

/// The reason phrases are the registered ones; a status without one is shown as fine.
pub proof fn law_reason_phrases(status: u16)
    ensures
        status == 204 ==> http::reason_of(status) == "No Content"@,
        status == 302 ==> http::reason_of(status) == "Found"@,
        status == 400 ==> http::reason_of(status) == "Bad Request"@,
        status == 401 ==> http::reason_of(status) == "Unauthorized"@,
        status == 403 ==> http::reason_of(status) == "Forbidden"@,
        status == 404 ==> http::reason_of(status) == "Not Found"@,
        status == 429 ==> http::reason_of(status) == "Too Many Requests"@,
        status == 500 ==> http::reason_of(status) == "Internal Server Error"@,
        status == 502 ==> http::reason_of(status) == "Bad Gateway"@,
        status == 503 ==> http::reason_of(status) == "Service Unavailable"@,
        !seq![204u16, 302, 400, 401, 403, 404, 429, 500, 502, 503].contains(status)
            ==> http::reason_of(status) == "OK"@,
{
    let known = seq![204u16, 302, 400, 401, 403, 404, 429, 500, 502, 503];
    assert(known[0] == 204 && known[1] == 302 && known[2] == 400 && known[3] == 401 && known[4]
        == 403 && known[5] == 404 && known[6] == 429 && known[7] == 500 && known[8] == 502
        && known[9] == 503);
}

/// Every head begins with the version, the status and its reason, on a line of their own.
pub proof fn law_heads_begin_with_the_status(
    status: u16,
    ctype: Seq<char>,
    body_len: nat,
    headers: Seq<(Seq<char>, Seq<char>)>,
)
    ensures
        ({
            let line = "HTTP/1.1 "@ + number::decimal(status as nat) + " "@ + http::reason_of(
                status,
            ) + "\r\n"@;
            &&& line.is_prefix_of(http::chunked_head_text(status, headers))
            &&& line.is_prefix_of(http::response_head_text(status, ctype, body_len, headers))
            &&& line.is_prefix_of(http::empty_head_text(status, headers))
        }),
{
    let line = http::status_line(status);
    let a = http::chunked_head_text(status, headers);
    let b = http::response_head_text(status, ctype, body_len, headers);
    let c = http::empty_head_text(status, headers);
    assert(a.take(line.len() as int) =~= line);
    assert(b.take(line.len() as int) =~= line);
    assert(c.take(line.len() as int) =~= line);
}

/// Bytes without an empty line, with too long a head, with a head that is no text, or with fewer
/// than three words in the first line are no request.
pub proof fn law_what_is_no_request(buf: Seq<u8>, end: int)
    ensures
        !text::contains(buf, seq![13u8, 10u8, 13u8, 10u8]) ==> http::request_of(buf) is None,
        text::find_from(buf, seq![13u8, 10u8, 13u8, 10u8], 0) == Some(end) && end > 65536
            ==> http::request_of(buf) is None,
        text::find_from(buf, seq![13u8, 10u8, 13u8, 10u8], 0) == Some(end) && !valid_utf8(
            buf.subrange(0, end),
        ) ==> http::request_of(buf) is None,
        text::find_from(buf, seq![13u8, 10u8, 13u8, 10u8], 0) == Some(end) && text::words(
            text::split_by(decode_utf8(buf.subrange(0, end)), "\r\n"@)[0],
        ).len() < 3 ==> http::request_of(buf) is None,
        text::find_from(buf, seq![13u8, 10u8, 13u8, 10u8], 0) == Some(end) && end <= 65536
            && valid_utf8(buf.subrange(0, end)) && text::words(
            text::split_by(decode_utf8(buf.subrange(0, end)), "\r\n"@)[0],
        ).len() >= 3 ==> http::request_of(buf) is Some,
        http::request_of(buf) matches Some(q) ==> text::occurs_at(
            buf,
            seq![13u8, 10u8, 13u8, 10u8],
            q.head_end - 4,
        ),
{
    text::lemma_find_from(buf, seq![13u8, 10u8, 13u8, 10u8], 0);
    assert(http::head_mark() =~= seq![13u8, 10u8, 13u8, 10u8]);
}

/// A line with a colon is a header field, its name before the first colon and its value behind it,
/// both without the White_Space around them; any other line is none. The last line that tells the
/// length counts, and one whose value is no number tells that there is no body.
pub proof fn law_what_a_line_tells(
    lines: Seq<Seq<char>>,
    name: Seq<char>,
    value: Seq<char>,
    n: nat,
)
    requires
        forall|k: int| 0 <= k < name.len() ==> #[trigger] name[k] != ':',
    ensures
        http::header_list(lines.push(name + seq![':'] + value)) == http::header_list(lines).push(
            (text::trim(name), text::trim(value)),
        ),
        http::header_list(lines.push(name)) == http::header_list(lines),
        http::announced_len(lines.push(name)) == http::announced_len(lines),
        !text::same_word(name, "Content-Length"@) ==> http::announced_len(
            lines.push(name + seq![':'] + value),
        ) == http::announced_len(lines),
        text::same_word(name, "Content-Length"@) && text::trim(value) == number::decimal(n) && n
            <= usize::MAX ==> http::announced_len(lines.push(name + seq![':'] + value)) == n,
        text::same_word(name, "Content-Length"@) && number::unsigned(
            text::trim(value),
            usize::MAX as nat,
        ) is None ==> http::announced_len(lines.push(name + seq![':'] + value)) == 0,
{
    let line = name + seq![':'] + value;
    assert(lines.push(line).drop_last() =~= lines);
    assert(lines.push(name).drop_last() =~= lines);
    assert(text::ascii_lower("Content-Length"@) == text::ascii_lower("content-length"@)) by {
        reveal_strlit("Content-Length");
        reveal_strlit("content-length");
        assert(text::ascii_lower("Content-Length"@) =~= text::ascii_lower("content-length"@));
    }
    text::law_cut_at_char(line, ':');
    text::law_cut_at_char(name, ':');
    text::lemma_find_char(line, ':', 0);
    text::lemma_find_char(name, ':', 0);
    assert(line[name.len() as int] == ':');
    let p = text::before_char(line, ':');
    assert(p =~= name) by {
        match text::find_char(line, ':', 0) {
            Some(i) => {
                if i < name.len() {
                    assert(line[i] == name[i]);
                }
            },
            None => {},
        }
    }
    assert(text::after_char(line, ':') == Some(value)) by {
        match text::after_char(line, ':') {
            Some(t) => {
                assert(t =~= line.skip((name.len() + 1) as int));
                assert(value =~= line.skip((name.len() + 1) as int));
            },
            None => {},
        }
    }
    number::law_decimal_reads_back(n, usize::MAX as nat);
}

/// An absolute URI without a path asks for the root.
pub proof fn law_host_alone_asks_for_the_root(scheme: Seq<char>, host: Seq<char>)
    requires
        forall|k: int|
            0 <= k < scheme.len() ==> !http::delimits(#[trigger] scheme[k]) && scheme[k] != ':',
        forall|k: int| 0 <= k < host.len() ==> #[trigger] host[k] != '/' && host[k] != '?',
    ensures
        http::bare_target(scheme + "://"@ + host) == "/"@,
{
    reveal_strlit("://");
    let t = scheme + "://"@ + host;
    let n = scheme.len() as int;
    assert(t.subrange(n, n + 3) =~= "://"@);
    assert forall|j: int| 0 <= j < n implies !text::occurs_at(t, "://"@, j) by {
        if text::occurs_at(t, "://"@, j) {
            assert(t.subrange(j, j + 3)[0] == t[j]);
            assert(t[j] == scheme[j]);
        }
    }
    text::lemma_find_is(t, "://"@, 0, n);
    assert forall|k: int| 0 <= k < n implies !http::delimits(#[trigger] t[k]) by {
        assert(t[k] == scheme[k]);
    }
    assert(t.subrange(n + 3, t.len() as int) =~= host);
    lemma_no_path(host, 0);
}

proof fn lemma_no_path(s: Seq<char>, i: int)
    requires
        0 <= i <= s.len(),
        forall|k: int| 0 <= k < s.len() ==> #[trigger] s[k] != '/' && s[k] != '?',
    ensures
        http::path_start(s, i) == s.len(),
    decreases s.len() - i,
{
    if i < s.len() {
        lemma_no_path(s, i + 1);
    }
}

/// A head without a line end, with a first line that is no text, or without a number as its second
/// word tells no status.
pub proof fn law_what_tells_no_status(head: Seq<u8>, end: int)
    ensures
        !text::contains(head, seq![13u8, 10u8]) ==> http::status_in(head) is None,
        text::find_from(head, seq![13u8, 10u8], 0) == Some(end) && !valid_utf8(
            head.subrange(0, end),
        ) ==> http::status_in(head) is None,
        http::status_in(head) is None ==> realtime::answer_status(head) == 0,
        http::status_in(head) matches Some(n) ==> n <= 65535 && realtime::answer_status(head) == n,
{
}

} // verus!
