//! HTTP/1.1 messages on byte strings: reading requests, writing response heads and chunks.
use crate::number;
use crate::text;
use vstd::prelude::*;
use vstd::slice::slice_subrange;
use vstd::string::*;
use vstd::utf8::*;

verus! {

/// The largest request head that is read, without its closing empty line.
pub const MAX_HEAD: usize = 65536;

/// The largest request body that is read.
pub const MAX_BODY: usize = 16777216;

/// A request head, and the length of the body that it announces.
#[derive(Debug, PartialEq)]
pub struct Request {
    pub method: String,
    pub target: String,
    pub headers: Vec<(String, String)>,
    pub body_len: usize,
    /// The number of bytes up to and with the empty line.
    pub head_end: usize,
}

/// What a request is.
#[verifier::ext_equal]
pub struct RequestV {
    pub method: Seq<char>,
    pub target: Seq<char>,
    pub headers: Seq<(Seq<char>, Seq<char>)>,
    pub body_len: nat,
    pub head_end: nat,
}

/// The views of header lines.
pub open spec fn headers_view(h: Seq<(String, String)>) -> Seq<(Seq<char>, Seq<char>)> {
    h.map_values(|e: (String, String)| (e.0@, e.1@))
}

impl View for Request {
    type V = RequestV;

    open spec fn view(&self) -> RequestV {
        RequestV {
            method: self.method@,
            target: self.target@,
            headers: headers_view(self.headers@),
            body_len: self.body_len as nat,
            head_end: self.head_end as nat,
        }
    }
}

// ---------------------------------------------------------------------------
// Searching bytes
// ---------------------------------------------------------------------------

/// The first position of `n` in `h`.
pub fn find_slice(h: &[u8], n: &[u8]) -> (r: Option<usize>)
    requires
        n@.len() > 0,
    ensures
        match r {
            Some(i) => text::find_from(h@, n@, 0) == Some(i as int) && i + n@.len() <= h@.len(),
            None => text::find_from(h@, n@, 0) is None,
        },
{
    find_slice_from(h, n, 0)
}

/// The first position of `n` in `h` at or after `from`.
pub fn find_slice_from(h: &[u8], n: &[u8], from: usize) -> (r: Option<usize>)
    requires
        n@.len() > 0,
        from <= h@.len(),
    ensures
        match r {
            Some(i) => text::find_from(h@, n@, from as int) == Some(i as int) && from <= i && i
                + n@.len() <= h@.len(),
            None => text::find_from(h@, n@, from as int) is None,
        },
{
    if h.len() < n.len() {
        return None;
    }
    let last: usize = h.len() - n.len();
    let mut i: usize = from;
    while i <= last
        invariant
            n@.len() > 0,
            from <= i,
            last + n@.len() == h@.len(),
            h@.len() <= usize::MAX,
            text::find_from(h@, n@, from as int) == text::find_from(h@, n@, i as int),
        decreases last + 1 - i,
    {
        if bytes_at(h, n, i) {
            return Some(i);
        }
        i = i + 1;
    }
    None
}

/// Whether `n` stands in `h` at position `i`.
pub fn bytes_at(h: &[u8], n: &[u8], i: usize) -> (r: bool)
    ensures
        r == text::occurs_at(h@, n@, i as int),
{
    if h.len() < n.len() || h.len() - n.len() < i {
        return false;
    }
    let mut k: usize = 0;
    while k < n.len()
        invariant
            k <= n@.len(),
            i + n@.len() <= h.len(),
            forall|j: int| 0 <= j < k ==> h@[i + j] == n@[j],
        decreases n@.len() - k,
    {
        if h[i + k] != n[k] {
            assert(h@.subrange(i as int, i + n@.len())[k as int] == h@[i + k]);
            return false;
        }
        k = k + 1;
    }
    assert(h@.subrange(i as int, i + n@.len()) =~= n@);
    true
}

// ---------------------------------------------------------------------------
// Reading a request
// ---------------------------------------------------------------------------

/// The empty line that ends a head, with the line end before it.
pub open spec fn head_mark() -> Seq<u8> {
    seq![13u8, 10u8, 13u8, 10u8]
}

/// The length of the head before its empty line, if the head is complete and not too long.
pub open spec fn head_len(buf: Seq<u8>) -> Option<int> {
    match text::find_from(buf, head_mark(), 0) {
        Some(end) => if end <= MAX_HEAD {
            Some(end)
        } else {
            None
        },
        None => None,
    }
}

/// The part of a header line before its colon.
pub open spec fn header_name(line: Seq<char>) -> Seq<char> {
    text::before_char(line, ':')
}

/// The header fields of the given lines; a line without a colon is none.
pub open spec fn header_list(lines: Seq<Seq<char>>) -> Seq<(Seq<char>, Seq<char>)>
    decreases lines.len(),
{
    if lines.len() == 0 {
        Seq::empty()
    } else {
        let before = header_list(lines.drop_last());
        match text::after_char(lines.last(), ':') {
            Some(value) => before.push((text::trim(header_name(lines.last())), text::trim(value))),
            None => before,
        }
    }
}

/// The body length that the given lines announce: the value of the last `Content-Length`, zero
/// where that is no number or there is none.
pub open spec fn announced_len(lines: Seq<Seq<char>>) -> nat
    decreases lines.len(),
{
    if lines.len() == 0 {
        0
    } else {
        match text::after_char(lines.last(), ':') {
            Some(value) => if text::same_word(header_name(lines.last()), "content-length"@) {
                match number::unsigned(text::trim(value), usize::MAX as nat) {
                    Some(n) => n,
                    None => 0,
                }
            } else {
                announced_len(lines.drop_last())
            },
            None => announced_len(lines.drop_last()),
        }
    }
}

/// The request at the beginning of `buf`: the head is complete, not too long, valid UTF-8, and its
/// first line has at least three words.
pub open spec fn request_of(buf: Seq<u8>) -> Option<RequestV> {
    match head_len(buf) {
        Some(end) => {
            let raw = buf.subrange(0, end);
            let lines = text::split_by(decode_utf8(raw), "\r\n"@);
            let first = text::words(lines[0]);
            let rest = lines.subrange(1, lines.len() as int);
            if valid_utf8(raw) && first.len() >= 3 {
                Some(
                    RequestV {
                        method: text::ascii_upper(first[0]),
                        target: first[1],
                        headers: header_list(rest),
                        body_len: announced_len(rest),
                        head_end: (end + 4) as nat,
                    },
                )
            } else {
                None
            }
        },
        None => None,
    }
}

/// The view of an optional request.
pub open spec fn opt_request(r: Option<Request>) -> Option<RequestV> {
    match r {
        Some(q) => Some(q@),
        None => None,
    }
}

fn read_headers(lines: &[Vec<char>]) -> (r: (Vec<(String, String)>, usize))
    ensures
        headers_view(r.0@) == header_list(text::rows(lines@)),
        r.1 == announced_len(text::rows(lines@)),
{
    let mut headers: Vec<(String, String)> = Vec::new();
    let mut body_len: usize = 0;
    let mut i: usize = 0;
    let ghost all = text::rows(lines@);
    let wanted = text::to_chars("content-length");
    while i < lines.len()
        invariant
            i <= lines@.len(),
            all == text::rows(lines@),
            wanted@ == "content-length"@,
            headers_view(headers@) == header_list(all.take(i as int)),
            body_len == announced_len(all.take(i as int)),
        decreases lines@.len() - i,
    {
        let line = lines[i].as_slice();
        let ghost t = all.take(i + 1);
        assert(t.drop_last() == all.take(i as int));
        assert(t.last() == line@);
        let ghost before = headers@;
        match text::tail_after(line, ':') {
            Some(raw) => {
                let name = text::head_before(line, ':');
                let value = text::trimmed(raw);
                if text::same_ignoring_case(name, wanted.as_slice()) {
                    body_len =
                    match number::parse_unsigned(value, usize::MAX as u64) {
                        Some(n) => n as usize,
                        None => 0,
                    };
                }
                headers.push((text::to_text(text::trimmed(name)), text::to_text(value)));
                assert(headers_view(headers@) == headers_view(before).push(
                    (text::trim(name@), text::trim(raw@)),
                ));
            },
            None => {},
        }
        i = i + 1;
    }
    assert(all.take(i as int) == all);
    (headers, body_len)
}

/// Reads the request at the beginning of `buf`.
pub fn parse_request(buf: &[u8]) -> (r: Option<Request>)
    ensures
        opt_request(r) == request_of(buf@),
{
    let mark: Vec<u8> = vec![13u8, 10u8, 13u8, 10u8];
    assert(mark@ == head_mark());
    let end = match find_slice(buf, mark.as_slice()) {
        Some(end) => end,
        None => {
            return None;
        },
    };
    if end > MAX_HEAD {
        return None;
    }
    let head = match text::utf8_text(slice_subrange(buf, 0, end)) {
        Some(head) => text::to_chars(head.as_str()),
        None => {
            return None;
        },
    };
    let newline = text::to_chars("\r\n");
    proof {
        reveal_strlit("\r\n");
    }
    let lines = text::split(head.as_slice(), newline.as_slice());
    let parts = text::split_words(lines[0].as_slice());
    assert(text::rows(lines@)[0] == lines@[0]@);
    if parts.len() < 3 {
        return None;
    }
    let rest = slice_subrange(lines.as_slice(), 1, lines.len());
    assert(text::rows(rest@) == text::rows(lines@).subrange(1, lines@.len() as int));
    let (headers, body_len) = read_headers(rest);
    let method = text::to_text(text::uppered(parts[0].as_slice()).as_slice());
    let target = text::to_text(parts[1].as_slice());
    assert(text::words(lines@[0]@)[0] == parts@[0]@);
    assert(text::words(lines@[0]@)[1] == parts@[1]@);
    Some(Request { method, target, headers, body_len, head_end: end + 4 })
}

/// The value of the first header field with the given name.
pub open spec fn find_header(headers: Seq<(Seq<char>, Seq<char>)>, name: Seq<char>) -> Option<
    Seq<char>,
>
    decreases headers.len(),
{
    if headers.len() == 0 {
        None
    } else if text::same_word(headers[0].0, name) {
        Some(headers[0].1)
    } else {
        find_header(headers.subrange(1, headers.len() as int), name)
    }
}

/// The value of the first header field with the given name, whatever the case of its letters.
pub fn header_value<'a>(req: &'a Request, name: &str) -> (r: Option<&'a str>)
    ensures
        match r {
            Some(v) => find_header(req@.headers, name@) == Some(v@),
            None => find_header(req@.headers, name@) is None,
        },
{
    let ghost all = req@.headers;
    assert(all.subrange(0, all.len() as int) == all);
    let mut i: usize = 0;
    while i < req.headers.len()
        invariant
            i <= req.headers@.len(),
            all == headers_view(req.headers@),
            find_header(all, name@) == find_header(
                all.subrange(i as int, all.len() as int),
                name@,
            ),
        decreases req.headers@.len() - i,
    {
        if text::text_matches_word(req.headers[i].0.as_str(), name) {
            return Some(req.headers[i].1.as_str());
        }
        assert(all.subrange(i as int, all.len() as int).subrange(1, all.len() - i) == all.subrange(
            i + 1,
            all.len() as int,
        ));
        i = i + 1;
    }
    None
}

/// A character that ends the scheme or the host of an absolute URI, or begins what follows.
pub open spec fn delimits(c: char) -> bool {
    c == '/' || c == '?' || c == '#'
}

/// The position of the `://` behind the scheme of an absolute URI: nothing before it belongs to a
/// path, a query or a fragment. Any other target has none.
pub open spec fn scheme_end(target: Seq<char>) -> Option<int> {
    match text::find_from(target, "://"@, 0) {
        Some(i) => if forall|k: int| 0 <= k < i ==> !delimits(#[trigger] target[k]) {
            Some(i)
        } else {
            None
        },
        None => None,
    }
}

/// The first position at or after `i` of a slash or a question mark, or the end.
pub open spec fn path_start(s: Seq<char>, i: int) -> int
    decreases s.len() - i,
{
    if 0 <= i < s.len() && s[i] != '/' && s[i] != '?' {
        path_start(s, i + 1)
    } else {
        i
    }
}

/// The path and query of a request target: what follows scheme and host of an absolute URI, `/`
/// where nothing follows. Any other target is path and query already.
pub open spec fn bare_target(target: Seq<char>) -> Seq<char> {
    match scheme_end(target) {
        Some(i) => {
            let rest = target.subrange(i + 3, target.len() as int);
            let p = path_start(rest, 0);
            if p < rest.len() {
                rest.subrange(p, rest.len() as int)
            } else {
                "/"@
            }
        },
        None => target,
    }
}

fn find_scheme(target: &[char]) -> (r: Option<usize>)
    ensures
        match r {
            Some(i) => scheme_end(target@) == Some(i as int) && i + 3 <= target@.len(),
            None => scheme_end(target@) is None,
        },
{
    let mark = text::to_chars("://");
    proof {
        reveal_strlit("://");
    }
    match text::find(target, mark.as_slice(), 0) {
        Some(i) => {
            let mut k: usize = 0;
            while k < i
                invariant
                    k <= i <= target@.len(),
                    text::find_from(target@, "://"@, 0) == Some(i as int),
                    forall|j: int| 0 <= j < k ==> !delimits(#[trigger] target@[j]),
                decreases i - k,
            {
                let c = target[k];
                if c == '/' || c == '?' || c == '#' {
                    assert(delimits(target@[k as int]));
                    return None;
                }
                k = k + 1;
            }
            Some(i)
        },
        None => None,
    }
}

/// Removes scheme and host of an absolute URI.
pub fn normalize_target(target: &str) -> (r: String)
    ensures
        r@ == bare_target(target@),
{
    let chars = text::to_chars(target);
    match find_scheme(chars.as_slice()) {
        Some(i) => {
            let n: usize = chars.len();
            let rest = slice_subrange(chars.as_slice(), i + 3, n);
            let mut p: usize = 0;
            while p < rest.len() && rest[p] != '/' && rest[p] != '?'
                invariant
                    p <= rest@.len(),
                    path_start(rest@, 0) == path_start(rest@, p as int),
                decreases rest@.len() - p,
            {
                p = p + 1;
            }
            if p < rest.len() {
                text::to_text(slice_subrange(rest, p, rest.len()))
            } else {
                "/".to_owned()
            }
        },
        None => target.to_owned(),
    }
}

/// A target that is no absolute URI goes on as it is: its path and query are kept, whatever URL a
/// query holds.
pub proof fn law_origin_form_is_kept(target: Seq<char>)
    requires
        target.len() > 0,
        target[0] == '/',
    ensures
        bare_target(target) == target,
{
    reveal_strlit("://");
    if let Some(i) = text::find_from(target, "://"@, 0) {
        text::lemma_find_from(target, "://"@, 0);
        if i == 0 {
            assert(target.subrange(0, 3)[0] == '/');
        }
        assert(delimits(target[0]));
    }
}

/// Of an absolute URI the scheme and the host go, and its path and query stay whole.
pub proof fn law_path_and_query_are_kept(scheme: Seq<char>, host: Seq<char>, rest: Seq<char>)
    requires
        forall|k: int| 0 <= k < scheme.len() ==> !delimits(#[trigger] scheme[k]) && scheme[k] != ':',
        forall|k: int| 0 <= k < host.len() ==> host[k] != '/' && #[trigger] host[k] != '?',
        rest.len() > 0,
        rest[0] == '/' || rest[0] == '?',
    ensures
        bare_target(scheme + "://"@ + host + rest) == rest,
{
    reveal_strlit("://");
    let t = scheme + "://"@ + host + rest;
    let n = scheme.len() as int;
    assert(t.subrange(n, n + 3) =~= "://"@);
    assert forall|j: int| 0 <= j < n implies !text::occurs_at(t, "://"@, j) by {
        if text::occurs_at(t, "://"@, j) {
            assert(t.subrange(j, j + 3)[0] == t[j]);
            assert(t[j] == scheme[j]);
        }
    }
    text::lemma_find_is(t, "://"@, 0, n);
    assert forall|k: int| 0 <= k < n implies !delimits(#[trigger] t[k]) by {
        assert(t[k] == scheme[k]);
    }
    let tail = t.subrange(n + 3, t.len() as int);
    assert(tail =~= host + rest);
    lemma_path_start(tail, 0, host.len() as int);
    assert(tail.subrange(host.len() as int, tail.len() as int) =~= rest);
}

proof fn lemma_path_start(s: Seq<char>, i: int, p: int)
    requires
        0 <= i <= p < s.len(),
        s[p] == '/' || s[p] == '?',
        forall|k: int| i <= k < p ==> s[k] != '/' && #[trigger] s[k] != '?',
    ensures
        path_start(s, i) == p,
    decreases p - i,
{
    if i < p {
        lemma_path_start(s, i + 1, p);
    }
}

/// Request header fields that belong to one connection, or that the proxy sets itself.
pub open spec fn request_hop(name: Seq<char>) -> bool {
    ||| text::same_word(name, "host"@)
    ||| text::same_word(name, "authorization"@)
    ||| text::same_word(name, "content-length"@)
    ||| text::same_word(name, "transfer-encoding"@)
    ||| text::same_word(name, "connection"@)
    ||| text::same_word(name, "keep-alive"@)
    ||| text::same_word(name, "accept-encoding"@)
}

/// Whether a request header field is not handed on.
pub fn hop_by_hop(name: &str) -> (r: bool)
    ensures
        r == request_hop(name@),
{
    text::text_matches_word(name, "host") || text::text_matches_word(name, "authorization")
        || text::text_matches_word(name, "content-length") || text::text_matches_word(
        name,
        "transfer-encoding",
    ) || text::text_matches_word(name, "connection") || text::text_matches_word(name, "keep-alive")
        || text::text_matches_word(name, "accept-encoding")
}

/// Response header fields that belong to one connection.
pub open spec fn response_hop(name: Seq<char>) -> bool {
    ||| text::same_word(name, "content-length"@)
    ||| text::same_word(name, "transfer-encoding"@)
    ||| text::same_word(name, "connection"@)
    ||| text::same_word(name, "keep-alive"@)
    ||| text::same_word(name, "content-encoding"@)
}

/// Whether a response header field is not handed on.
pub fn response_hop_headers(name: &str) -> (r: bool)
    ensures
        r == response_hop(name@),
{
    text::text_matches_word(name, "content-length") || text::text_matches_word(
        name,
        "transfer-encoding",
    ) || text::text_matches_word(name, "connection") || text::text_matches_word(name, "keep-alive")
        || text::text_matches_word(name, "content-encoding")
}

/// The body of a request in the bytes that were read: empty where they do not hold all of it.
pub open spec fn body_of(buf: Seq<u8>, head_end: nat, body_len: nat) -> Seq<u8> {
    if head_end + body_len <= buf.len() {
        buf.subrange(head_end as int, (head_end + body_len) as int)
    } else {
        Seq::empty()
    }
}

/// The body of a request.
pub fn req_body<'a>(buf: &'a [u8], req: &Request) -> (r: &'a [u8])
    ensures
        r@ == body_of(buf@, req.head_end as nat, req.body_len as nat),
{
    if req.head_end <= buf.len() && req.body_len <= buf.len() - req.head_end {
        slice_subrange(buf, req.head_end, req.head_end + req.body_len)
    } else {
        slice_subrange(buf, 0, 0)
    }
}

/// What to do after some bytes of a request have come in.
pub enum ReadStep {
    /// The request is there, with all of its body.
    Done(Request),
    /// More bytes are needed.
    More,
    /// More has come in than is taken.
    TooLong,
}

/// The bytes hold a request with all of its body.
pub open spec fn request_complete(buf: Seq<u8>) -> bool {
    request_of(buf) matches Some(q) && q.head_end + q.body_len <= buf.len()
}

/// Decides whether to go on reading.
pub fn read_step(buf: &[u8]) -> (r: ReadStep)
    ensures
        match r {
            ReadStep::Done(q) => request_complete(buf@) && request_of(buf@) == Some(q@),
            ReadStep::More => !request_complete(buf@) && buf@.len() <= MAX_HEAD + MAX_BODY,
            ReadStep::TooLong => !request_complete(buf@) && buf@.len() > MAX_HEAD + MAX_BODY,
        },
{
    match parse_request(buf) {
        Some(q) => {
            if q.head_end <= buf.len() && q.body_len <= buf.len() - q.head_end {
                return ReadStep::Done(q);
            }
        },
        None => {},
    }
    if buf.len() > MAX_HEAD + MAX_BODY {
        ReadStep::TooLong
    } else {
        ReadStep::More
    }
}

/// The first bytes of what was read.
pub open spec fn first_bytes(buf: Seq<u8>) -> Seq<u8> {
    buf.subrange(
        0,
        if buf.len() < 512 {
            buf.len() as int
        } else {
            512
        },
    )
}

/// The first bytes of what was read, as text for a diagnosis.
pub fn head_prefix(buf: &[u8]) -> (r: String)
    ensures
        r@ == text::lossy_text(first_bytes(buf@)),
        valid_utf8(first_bytes(buf@)) ==> r@ == decode_utf8(first_bytes(buf@)),
{
    let n: usize = if buf.len() < 512 {
        buf.len()
    } else {
        512
    };
    text::utf8_text_lossy(slice_subrange(buf, 0, n))
}

// ---------------------------------------------------------------------------
// Writing a response
// ---------------------------------------------------------------------------

/// The reason phrase of a status.
pub open spec fn reason_of(status: u16) -> Seq<char> {
    match status {
        200 => "OK"@,
        204 => "No Content"@,
        302 => "Found"@,
        400 => "Bad Request"@,
        401 => "Unauthorized"@,
        403 => "Forbidden"@,
        404 => "Not Found"@,
        429 => "Too Many Requests"@,
        500 => "Internal Server Error"@,
        502 => "Bad Gateway"@,
        503 => "Service Unavailable"@,
        _ => "OK"@,
    }
}

/// The reason phrase of a status.
pub fn reason(status: u16) -> (r: &'static str)
    ensures
        r@ == reason_of(status),
{
    match status {
        200 => "OK",
        204 => "No Content",
        302 => "Found",
        400 => "Bad Request",
        401 => "Unauthorized",
        403 => "Forbidden",
        404 => "Not Found",
        429 => "Too Many Requests",
        500 => "Internal Server Error",
        502 => "Bad Gateway",
        503 => "Service Unavailable",
        _ => "OK",
    }
}

/// The lines of header fields.
pub open spec fn header_lines(h: Seq<(Seq<char>, Seq<char>)>) -> Seq<char>
    decreases h.len(),
{
    if h.len() == 0 {
        Seq::empty()
    } else {
        header_lines(h.drop_last()) + (h.last().0 + ": "@ + h.last().1 + "\r\n"@)
    }
}

/// The status line.
pub open spec fn status_line(status: u16) -> Seq<char> {
    "HTTP/1.1 "@ + number::decimal(status as nat) + " "@ + reason_of(status) + "\r\n"@
}

/// The head of a response with a body of known length.
pub open spec fn response_head_text(
    status: u16,
    ctype: Seq<char>,
    body_len: nat,
    extra: Seq<(Seq<char>, Seq<char>)>,
) -> Seq<char> {
    status_line(status) + "Content-Type: "@ + ctype + "\r\nContent-Length: "@ + number::decimal(
        body_len,
    ) + "\r\nConnection: close\r\n"@ + header_lines(extra) + "\r\n"@
}

/// The head of a response without a body.
pub open spec fn empty_head_text(status: u16, extra: Seq<(Seq<char>, Seq<char>)>) -> Seq<char> {
    status_line(status) + "Content-Length: 0\r\nConnection: close\r\n"@ + header_lines(extra)
        + "\r\n"@
}

/// The head of a response that is sent in chunks.
pub open spec fn chunked_head_text(status: u16, headers: Seq<(Seq<char>, Seq<char>)>) -> Seq<char> {
    status_line(status) + "Transfer-Encoding: chunked\r\nConnection: close\r\n"@ + header_lines(
        headers,
    ) + "\r\n"@
}

fn with_header_lines(head: String, h: &[(String, String)]) -> (r: String)
    ensures
        r@ == head@ + header_lines(headers_view(h@)),
{
    let mut out = head;
    let ghost all = headers_view(h@);
    let mut i: usize = 0;
    assert(head@ + header_lines(all.take(0)) == head@);
    while i < h.len()
        invariant
            i <= h@.len(),
            all == headers_view(h@),
            out@ == head@ + header_lines(all.take(i as int)),
        decreases h@.len() - i,
    {
        let ghost t = all.take(i + 1);
        assert(t.drop_last() == all.take(i as int));
        let line = text::plus(
            text::plus(text::plus(h[i].0.clone(), ": "), h[i].1.as_str()),
            "\r\n",
        );
        out = text::plus(out, line.as_str());
        assert(out@ == head@ + header_lines(t));
        i = i + 1;
    }
    assert(all.take(i as int) == all);
    out
}

fn write_status_line(status: u16) -> (r: String)
    ensures
        r@ == status_line(status),
{
    let n = number::to_decimal(status as u64);
    let a = text::plus("HTTP/1.1 ".to_owned(), n.as_str());
    text::plus(text::plus(text::plus(a, " "), reason(status)), "\r\n")
}

/// Writes the head of a response with a body of known length.
pub fn response_head(
    status: u16,
    ctype: &str,
    body_len: usize,
    extra: &[(String, String)],
) -> (r: String)
    ensures
        r@ == response_head_text(status, ctype@, body_len as nat, headers_view(extra@)),
{
    let n = number::to_decimal(body_len as u64);
    let a = text::plus(text::plus(write_status_line(status), "Content-Type: "), ctype);
    let b = text::plus(text::plus(a, "\r\nContent-Length: "), n.as_str());
    let c = with_header_lines(text::plus(b, "\r\nConnection: close\r\n"), extra);
    text::plus(c, "\r\n")
}

/// Writes the head of a response without a body.
pub fn empty_head(status: u16, extra: &[(String, String)]) -> (r: String)
    ensures
        r@ == empty_head_text(status, headers_view(extra@)),
{
    let a = text::plus(
        write_status_line(status),
        "Content-Length: 0\r\nConnection: close\r\n",
    );
    text::plus(with_header_lines(a, extra), "\r\n")
}

/// Writes the head of a response that is sent in chunks.
pub fn chunked_head(status: u16, headers: &[(String, String)]) -> (r: String)
    ensures
        r@ == chunked_head_text(status, headers_view(headers@)),
{
    let a = text::plus(
        write_status_line(status),
        "Transfer-Encoding: chunked\r\nConnection: close\r\n",
    );
    text::plus(with_header_lines(a, headers), "\r\n")
}

/// The bytes of one chunk: its length in hexadecimal, and its data. No data makes no chunk, since
/// a chunk of length zero ends the body.
pub open spec fn chunk_bytes(data: Seq<u8>) -> Seq<u8> {
    if data.len() == 0 {
        Seq::empty()
    } else {
        encode_utf8(number::hex(data.len()) + "\r\n"@) + data + encode_utf8("\r\n"@)
    }
}

/// Writes one chunk.
pub fn chunk_frame(data: &[u8]) -> (r: Vec<u8>)
    ensures
        r@ == chunk_bytes(data@),
{
    if data.len() == 0 {
        return Vec::new();
    }
    let size = text::plus(number::to_hex(data.len() as u64), "\r\n");
    let mut out = text::text_bytes(size.as_str());
    text::push_bytes(&mut out, data);
    text::push_bytes(&mut out, "\r\n".as_bytes());
    out
}

/// Writes the end of a body in chunks.
pub fn chunk_end() -> (r: Vec<u8>)
    ensures
        r@ == encode_utf8("0\r\n\r\n"@),
{
    text::text_bytes("0\r\n\r\n")
}

/// The header fields of a response that are handed on, in their order.
pub open spec fn kept_headers(h: Seq<(Seq<char>, Seq<char>)>) -> Seq<(Seq<char>, Seq<char>)>
    decreases h.len(),
{
    if h.len() == 0 {
        Seq::empty()
    } else if response_hop(h.last().0) {
        kept_headers(h.drop_last())
    } else {
        kept_headers(h.drop_last()).push(h.last())
    }
}

/// The header fields of the response that goes downstream: those of the upstream response without
/// the connection's own, then the given ones.
pub fn downstream_headers(upstream: &[(String, String)], more: &[(String, String)]) -> (r: Vec<
    (String, String),
>)
    ensures
        headers_view(r@) == kept_headers(headers_view(upstream@)) + headers_view(more@),
{
    let mut out: Vec<(String, String)> = Vec::new();
    let ghost all = headers_view(upstream@);
    let mut i: usize = 0;
    while i < upstream.len()
        invariant
            i <= upstream@.len(),
            all == headers_view(upstream@),
            headers_view(out@) == kept_headers(all.take(i as int)),
        decreases upstream@.len() - i,
    {
        let ghost t = all.take(i + 1);
        assert(t.drop_last() == all.take(i as int));
        assert(t.last() == (upstream@[i as int].0@, upstream@[i as int].1@));
        if !response_hop_headers(upstream[i].0.as_str()) {
            let ghost before = out@;
            out.push((upstream[i].0.clone(), upstream[i].1.clone()));
            assert(headers_view(out@) == headers_view(before).push(t.last()));
        }
        i = i + 1;
    }
    assert(all.take(i as int) == all);
    let ghost kept = headers_view(out@);
    let ghost added = headers_view(more@);
    let mut j: usize = 0;
    assert(kept + added.take(0) == kept);
    while j < more.len()
        invariant
            j <= more@.len(),
            added == headers_view(more@),
            headers_view(out@) == kept + added.take(j as int),
        decreases more@.len() - j,
    {
        let ghost before = out@;
        out.push((more[j].0.clone(), more[j].1.clone()));
        assert(headers_view(out@) == headers_view(before).push(added[j as int]));
        assert(kept + added.take(j + 1) == (kept + added.take(j as int)).push(added[j as int]));
        j = j + 1;
    }
    assert(added.take(j as int) == added);
    out
}

/// The status code in the first line of a response head.
pub open spec fn status_in(head: Seq<u8>) -> Option<nat> {
    match text::find_from(head, seq![13u8, 10u8], 0) {
        Some(end) => {
            let raw = head.subrange(0, end);
            if valid_utf8(raw) {
                match text::word(decode_utf8(raw), 1) {
                    Some(w) => number::unsigned(w, u16::MAX as nat),
                    None => None,
                }
            } else {
                None
            }
        },
        None => None,
    }
}

/// Reads the status code of a response head.
pub fn status_of(head: &[u8]) -> (r: Option<u16>)
    ensures
        match r {
            Some(n) => status_in(head@) == Some(n as nat),
            None => status_in(head@) is None,
        },
{
    let mark: Vec<u8> = vec![13u8, 10u8];
    assert(mark@ == seq![13u8, 10u8]);
    let end = match find_slice(head, mark.as_slice()) {
        Some(end) => end,
        None => {
            return None;
        },
    };
    let line = match text::utf8_text(slice_subrange(head, 0, end)) {
        Some(line) => text::to_chars(line.as_str()),
        None => {
            return None;
        },
    };
    let words = text::split_words(line.as_slice());
    if words.len() < 2 {
        return None;
    }
    assert(text::words(line@)[1] == words@[1]@);
    match number::parse_unsigned(words[1].as_slice(), u16::MAX as u64) {
        Some(n) => Some(n as u16),
        None => None,
    }
}

} // verus!
