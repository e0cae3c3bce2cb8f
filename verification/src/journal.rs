//! The journal of the takeover: what happened, newest first.
use crate::clock;
use crate::paths;
use crate::text;
use vstd::prelude::*;
use vstd::string::*;

verus! {

/// The file of the journal, in the data directory.
pub const JOURNAL_FILE: &'static str = "takeover-journal.jsonl";

/// How many events are kept.
pub const MAX_EVENTS: usize = 500;

/// Something that happened.
pub struct JournalEvent {
    /// The local time.
    pub at: String,
    /// The time in milliseconds since 1970.
    pub at_ms: i64,
    /// The kind of event.
    pub event: String,
    /// What happened, in words.
    pub detail: String,
}

impl Clone for JournalEvent {
    fn clone(&self) -> (r: Self)
        ensures
            r == *self,
    {
        JournalEvent {
            at: self.at.clone(),
            at_ms: self.at_ms,
            event: self.event.clone(),
            detail: self.detail.clone(),
        }
    }
}

/// The file of the journal in a data directory; `windows` tells what the machine runs.
pub fn journal_path(data_dir: &str, windows: bool) -> (r: String)
    ensures
        r@ == paths::joined(data_dir@, JOURNAL_FILE@, windows),
{
    paths::join(data_dir, JOURNAL_FILE, windows)
}

/// The newest event says the same as the given one.
pub open spec fn repeats(events: Seq<JournalEvent>, event: Seq<char>, detail: Seq<char>) -> bool {
    events.len() > 0 && events[0].event@ == event && events[0].detail@ == detail
}

/// The events after a new one: it stands in front, and the oldest go where there are too many.
pub open spec fn noted(events: Seq<JournalEvent>, entry: JournalEvent) -> Seq<JournalEvent> {
    let all = seq![entry] + events;
    if all.len() > MAX_EVENTS {
        all.subrange(0, MAX_EVENTS as int)
    } else {
        all
    }
}

/// Puts an event in front, unless `dedup` is set and the newest one says the same. Tells whether
/// the journal has changed.
pub fn write_entry(events: &mut Vec<JournalEvent>, entry: JournalEvent, dedup: bool) -> (r: bool)
    ensures
        r == !(dedup && repeats(old(events)@, entry.event@, entry.detail@)),
        final(events)@ == (if r {
            noted(old(events)@, entry)
        } else {
            old(events)@
        }),
{
    if dedup && events.len() > 0 {
        if text::same_text(events[0].event.as_str(), entry.event.as_str()) && text::same_text(
            events[0].detail.as_str(),
            entry.detail.as_str(),
        ) {
            return false;
        }
    }
    events.insert(0, entry);
    assert(events@ == seq![entry] + old(events)@);
    if events.len() > MAX_EVENTS {
        events.truncate(MAX_EVENTS);
        assert(events@ == (seq![entry] + old(events)@).subrange(0, MAX_EVENTS as int));
    }
    true
}

/// An event at the present time.
pub fn new_event(event: &str, detail: &str) -> (r: JournalEvent)
    ensures
        r.event@ == event@,
        r.detail@ == detail@,
        clock::is_timestamp(r.at@),
{
    JournalEvent {
        at: clock::local_now(clock::TIMESTAMP_FORMAT),
        at_ms: clock::now_millis(),
        event: event.to_owned(),
        detail: detail.to_owned(),
    }
}

/// Notes an event. Its time is a time that the clock has told.
pub fn append(events: &mut Vec<JournalEvent>, event: &str, detail: &str)
    ensures
        final(events)@.len() > 0,
        final(events)@[0].event@ == event@,
        final(events)@[0].detail@ == detail@,
        clock::is_timestamp(final(events)@[0].at@),
        final(events)@ == noted(old(events)@, final(events)@[0]),
{
    let entry = new_event(event, detail);
    write_entry(events, entry, false);
}

/// Notes an event, unless the newest one says the same. Tells whether it was noted.
pub fn append_dedup(events: &mut Vec<JournalEvent>, event: &str, detail: &str) -> (r: bool)
    ensures
        r == !repeats(old(events)@, event@, detail@),
        !r ==> final(events)@ == old(events)@,
        r ==> final(events)@.len() > 0,
        r ==> final(events)@[0].event@ == event@,
        r ==> final(events)@[0].detail@ == detail@,
        r ==> clock::is_timestamp(final(events)@[0].at@),
        r ==> final(events)@ == noted(old(events)@, final(events)@[0]),
{
    let entry = new_event(event, detail);
    write_entry(events, entry, true)
}

/// The journal never holds more events than it may.
pub proof fn law_journal_is_bounded(events: Seq<JournalEvent>, entry: JournalEvent)
    ensures
        noted(events, entry).len() <= MAX_EVENTS,
        noted(events, entry).len() == (if events.len() < MAX_EVENTS {
            events.len() + 1
        } else {
            MAX_EVENTS as nat
        }),
{
}

/// A new event stands first, and the others keep their order behind it.
pub proof fn law_newest_first(events: Seq<JournalEvent>, entry: JournalEvent)
    ensures
        noted(events, entry)[0] == entry,
        forall|i: int|
            1 <= i < noted(events, entry).len() ==> #[trigger] noted(events, entry)[i]
                == events[i - 1],
{
}

/// What was just noted is not noted again, until something else was: then it is.
pub proof fn law_repetition_is_left_out(
    events: Seq<JournalEvent>,
    entry: JournalEvent,
    event: Seq<char>,
    detail: Seq<char>,
)
    ensures
        repeats(noted(events, entry), event, detail) <==> entry.event@ == event && entry.detail@
            == detail,
{
}

/// The lines of a journal file that hold an event, in their order: the blank ones are left out.
pub open spec fn filled_lines(lines: Seq<Seq<char>>) -> Seq<Seq<char>>
    decreases lines.len(),
{
    if lines.len() == 0 {
        Seq::empty()
    } else if text::trim(lines.last()).len() == 0 {
        filled_lines(lines.drop_last())
    } else {
        filled_lines(lines.drop_last()).push(lines.last())
    }
}

/// Splits a journal file into the lines that are to be read.
pub fn journal_lines(file: &str) -> (r: Vec<String>)
    ensures
        text::texts(r@) == filled_lines(text::split_by(file@, "\n"@)),
{
    let chars = text::to_chars(file);
    let newline = text::to_chars("\n");
    proof {
        reveal_strlit("\n");
    }
    let lines = text::split(chars.as_slice(), newline.as_slice());
    let ghost all = text::rows(lines@);
    let mut out: Vec<String> = Vec::new();
    let mut i: usize = 0;
    while i < lines.len()
        invariant
            i <= lines@.len(),
            all == text::rows(lines@),
            text::texts(out@) == filled_lines(all.take(i as int)),
        decreases lines@.len() - i,
    {
        let line = lines[i].as_slice();
        let ghost t = all.take(i + 1);
        assert(t.drop_last() == all.take(i as int));
        assert(t.last() == line@);
        if text::trimmed(line).len() > 0 {
            let ghost before = out@;
            out.push(text::to_text(line));
            assert(text::texts(out@) == text::texts(before).push(line@));
        }
        i = i + 1;
    }
    assert(all.take(i as int) == all);
    out
}

/// The content of a journal file: each line and a line feed.
pub open spec fn framed(lines: Seq<Seq<char>>) -> Seq<char>
    decreases lines.len(),
{
    if lines.len() == 0 {
        Seq::empty()
    } else {
        framed(lines.drop_last()) + lines.last() + "\n"@
    }
}

/// Puts the lines of a journal file together.
pub fn journal_text(lines: &[String]) -> (r: String)
    ensures
        r@ == framed(text::texts(lines@)),
{
    let mut out: Vec<char> = Vec::new();
    let newline = text::to_chars("\n");
    let ghost all = text::texts(lines@);
    let mut i: usize = 0;
    while i < lines.len()
        invariant
            i <= lines@.len(),
            all == text::texts(lines@),
            newline@ == "\n"@,
            out@ == framed(all.take(i as int)),
        decreases lines@.len() - i,
    {
        let ghost t = all.take(i + 1);
        assert(t.drop_last() == all.take(i as int));
        assert(t.last() == lines@[i as int]@);
        let line = text::to_chars(lines[i].as_str());
        text::push_chars(&mut out, line.as_slice());
        text::push_chars(&mut out, newline.as_slice());
        i = i + 1;
    }
    assert(all.take(i as int) == all);
    text::to_text(out.as_slice())
}

/// A line of a journal file: it is not blank and holds no line feed.
pub open spec fn is_line(s: Seq<char>) -> bool {
    text::trim(s).len() > 0 && forall|i: int| 0 <= i < s.len() ==> (#[trigger] s[i]) != '\n'
}

proof fn lemma_framed_front(lines: Seq<Seq<char>>)
    requires
        lines.len() > 0,
    ensures
        framed(lines) == lines[0] + "\n"@ + framed(lines.subrange(1, lines.len() as int)),
    decreases lines.len(),
{
    let rest = lines.subrange(1, lines.len() as int);
    if lines.len() == 1 {
        assert(framed(lines.drop_last()) =~= Seq::empty());
        assert(framed(lines) =~= lines[0] + "\n"@ + framed(rest));
    } else {
        lemma_framed_front(lines.drop_last());
        assert(lines.drop_last().subrange(1, lines.len() - 1) =~= rest.drop_last());
        assert(framed(lines) =~= lines[0] + "\n"@ + framed(rest));
    }
}

proof fn lemma_filled_front(x: Seq<char>, rest: Seq<Seq<char>>)
    requires
        text::trim(x).len() > 0,
    ensures
        filled_lines(seq![x] + rest) == seq![x] + filled_lines(rest),
    decreases rest.len(),
{
    let all = seq![x] + rest;
    if rest.len() == 0 {
        assert(filled_lines(all.drop_last()).len() == 0);
        assert(all.last() == x);
        assert(filled_lines(all) =~= seq![x] + filled_lines(rest));
    } else {
        assert(all.drop_last() =~= seq![x] + rest.drop_last());
        lemma_filled_front(x, rest.drop_last());
        assert(filled_lines(all) =~= seq![x] + filled_lines(rest));
    }
}

/// Reading a journal file gives the lines back that were written.
pub proof fn law_lines_come_back(lines: Seq<Seq<char>>)
    requires
        forall|i: int| 0 <= i < lines.len() ==> is_line(#[trigger] lines[i]),
    ensures
        filled_lines(text::split_by(framed(lines), "\n"@)) == lines,
    decreases lines.len(),
{
    reveal_strlit("\n");
    let file = framed(lines);
    if lines.len() == 0 {
        text::lemma_find_from(file, "\n"@, 0);
        assert(text::split_by(file, "\n"@) =~= seq![file]);
        assert(text::trim(file).len() == 0);
        assert(filled_lines(seq![file].drop_last()).len() == 0);
        assert(seq![file].last() == file);
        assert(filled_lines(seq![file]) =~= lines);
    } else {
        let rest = lines.subrange(1, lines.len() as int);
        let x = lines[0];
        assert(is_line(x));
        lemma_framed_front(lines);
        assert forall|i: int| 0 <= i < rest.len() implies is_line(#[trigger] rest[i]) by {
            assert(is_line(lines[i + 1]));
        }
        law_lines_come_back(rest);
        let n = x.len() as int;
        assert(file.subrange(n, n + 1) =~= "\n"@);
        assert(text::occurs_at(file, "\n"@, n));
        assert forall|j: int| 0 <= j < n implies !text::occurs_at(file, "\n"@, j) by {
            if text::occurs_at(file, "\n"@, j) {
                assert(file.subrange(j, j + 1)[0] == file[j]);
                assert(file[j] == x[j]);
            }
        }
        text::lemma_find_is(file, "\n"@, 0, n);
        assert(file.subrange(0, n) =~= x);
        assert(file.subrange(n + 1, file.len() as int) =~= framed(rest));
        lemma_filled_front(x, text::split_by(framed(rest), "\n"@));
        assert(seq![x] + rest =~= lines);
    }
}

} // verus!
