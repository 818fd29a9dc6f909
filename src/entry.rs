//! Reading the lines of the text into entries: an interval line such as
//! `12:15-1:30 code2` opens an entry, and the note lines below it (`- did Y`)
//! belong to it.
use vstd::prelude::*;

use crate::text::{
    find_blank, find_blank_in, find_char, find_char_in, line_bounds,
    nat_str, push_nat, split_lines, to_chars, trim, trim_bounds,
};
use crate::time::{clock_str, parse_time_in, parse_time_spec, Time, MINUTES_PER_DAY};

verus! {

/// One logged interval: from `start` to `end`, spent on `label`.
#[derive(Clone, Debug, PartialEq, Eq)]
pub struct Interval {
    pub start: Time,
    pub end: Time,
    pub label: String,
}

/// An interval with the notes written below it, in order.
#[derive(Clone, Debug, PartialEq, Eq)]
pub struct Entry {
    pub interval: Interval,
    pub notes: Vec<String>,
}

/// What an entry holds, as plain values.
pub struct EntryModel {
    pub start: nat,
    pub end: nat,
    pub label: Seq<char>,
    pub notes: Seq<Seq<char>>,
}

/// The minutes from `start` to `end`; zero when `end` is not after `start`.
pub open spec fn span_minutes(start: nat, end: nat) -> nat {
    if end > start {
        (end - start) as nat
    } else {
        0
    }
}

pub open spec fn string_seq(v: Seq<String>) -> Seq<Seq<char>> {
    v.map_values(|s: String| s@)
}

impl Interval {
    pub open spec fn wf(&self) -> bool {
        self.start.wf() && self.end.wf()
    }

    /// The length of the interval in minutes; zero when it does not run forward.
    pub fn duration_minutes(&self) -> (r: u32)
        ensures
            r as nat == span_minutes(self.start.minutes as nat, self.end.minutes as nat),
    {
        if self.end.minutes > self.start.minutes {
            self.end.minutes - self.start.minutes
        } else {
            0
        }
    }
}

impl View for Entry {
    type V = EntryModel;

    open spec fn view(&self) -> EntryModel {
        EntryModel {
            start: self.interval.start.minutes as nat,
            end: self.interval.end.minutes as nat,
            label: self.interval.label@,
            notes: string_seq(self.notes@),
        }
    }
}

impl Entry {
    pub open spec fn wf(&self) -> bool {
        self.interval.wf()
    }
}

/// How a line of the text reads.
pub enum LineKind {
    /// Nothing but blanks.
    Blank,
    /// A note, without its marker.
    Note(Seq<char>),
    /// An interval: start, end and label.
    Span(nat, nat, Seq<char>),
    /// Anything else, trimmed.
    Unreadable(Seq<char>),
}

/// `<start>-<end> <label>`: a time range up to the first blank, then a
/// label that is not empty once trimmed.
pub open spec fn parse_span(t: Seq<char>) -> Option<(nat, nat, Seq<char>)> {
    let k = find_blank(t);
    let range = t.take(k as int);
    let label = trim(t.skip(k as int));
    let d = find_char(range, '-');
    if label.len() == 0 || d >= range.len() {
        None
    } else {
        match (parse_time_spec(range.take(d as int)), parse_time_spec(range.skip(d + 1 as int))) {
            (Some(a), Some(b)) => Some((a, b, label)),
            _ => None,
        }
    }
}

/// A note line starts with `-` or `*` once trimmed.
pub open spec fn is_note_marker(c: char) -> bool {
    c == '-' || c == '*'
}

pub open spec fn classify(line: Seq<char>) -> LineKind {
    let t = trim(line);
    if t.len() == 0 {
        LineKind::Blank
    } else if is_note_marker(t[0]) {
        LineKind::Note(trim(t.drop_first()))
    } else {
        match parse_span(t) {
            Some((a, b, label)) => LineKind::Span(a, b, label),
            None => LineKind::Unreadable(t),
        }
    }
}

/// `line N: ` at the head of a warning.
pub open spec fn line_prefix(n: nat) -> Seq<char> {
    "line "@ + nat_str(n) + ": "@
}

pub open spec fn unreadable_warning(n: nat, t: Seq<char>) -> Seq<char> {
    line_prefix(n) + "cannot read \""@ + t + "\""@
}

pub open spec fn orphan_note_warning(n: nat, note: Seq<char>) -> Seq<char> {
    line_prefix(n) + "note \""@ + note + "\" comes before any entry"@
}

pub open spec fn backward_warning(n: nat, start: nat, end: nat, label: Seq<char>) -> Seq<char> {
    line_prefix(n) + label + " ends at "@ + clock_str(end) + ", not after its start "@
        + clock_str(start)
}

/// The entries read so far, and the warnings about the lines read so far.
pub struct ParseState {
    pub entries: Seq<EntryModel>,
    pub warnings: Seq<Seq<char>>,
}

/// Reads line number `n`: a note goes to the last entry, an interval opens a
/// new entry, and what cannot be read is reported.
pub open spec fn parse_step(st: ParseState, line: Seq<char>, n: nat) -> ParseState {
    match classify(line) {
        LineKind::Blank => st,
        LineKind::Note(note) => if st.entries.len() > 0 {
            let last = st.entries.last();
            ParseState {
                entries: st.entries.update(
                    st.entries.len() - 1,
                    EntryModel { notes: last.notes.push(note), ..last },
                ),
                ..st
            }
        } else {
            ParseState { warnings: st.warnings.push(orphan_note_warning(n, note)), ..st }
        },
        LineKind::Span(a, b, label) => ParseState {
            entries: st.entries.push(
                EntryModel { start: a, end: b, label: label, notes: Seq::empty() },
            ),
            warnings: if b <= a {
                st.warnings.push(backward_warning(n, a, b, label))
            } else {
                st.warnings
            },
        },
        LineKind::Unreadable(t) => ParseState {
            warnings: st.warnings.push(unreadable_warning(n, t)),
            ..st
        },
    }
}

/// The entries and warnings of a sequence of lines, the first numbered 1.
pub open spec fn parse_lines(lines: Seq<Seq<char>>) -> ParseState
    decreases lines.len(),
{
    if lines.len() == 0 {
        ParseState { entries: Seq::empty(), warnings: Seq::empty() }
    } else {
        parse_step(parse_lines(lines.drop_last()), lines.last(), lines.len())
    }
}

/// The entries and warnings of the text `s`.
pub open spec fn parse_text(s: Seq<char>) -> ParseState {
    parse_lines(split_lines(s))
}

/// A line as read: bounds refer to the characters of the whole text.
enum LineRead {
    Blank,
    Note(usize, usize),
    Span(u32, u32, usize, usize),
    Unreadable(usize, usize),
}

spec fn line_read_matches(v: Seq<char>, r: LineRead, line: Seq<char>) -> bool {
    match r {
        LineRead::Blank => classify(line) == LineKind::Blank,
        LineRead::Note(a, b) => a <= b <= v.len() && classify(line) == LineKind::Note(
            v.subrange(a as int, b as int),
        ),
        LineRead::Span(x, y, a, b) => a <= b <= v.len() && x < MINUTES_PER_DAY && y
            < MINUTES_PER_DAY && classify(line) == LineKind::Span(
            x as nat,
            y as nat,
            v.subrange(a as int, b as int),
        ),
        LineRead::Unreadable(a, b) => a <= b <= v.len() && classify(line) == LineKind::Unreadable(
            v.subrange(a as int, b as int),
        ),
    }
}

fn read_line(v: &Vec<char>, lo: usize, hi: usize) -> (r: LineRead)
    requires
        lo <= hi <= v.len(),
    ensures
        line_read_matches(v@, r, v@.subrange(lo as int, hi as int)),
{
    let ghost line = v@.subrange(lo as int, hi as int);
    let (a, b) = trim_bounds(v, lo, hi);
    let ghost t = v@.subrange(a as int, b as int);
    assert(t == trim(line));
    if a == b {
        return LineRead::Blank;
    }
    assert(t[0] == v@[a as int]);
    if v[a] == '-' || v[a] == '*' {
        let (na, nb) = trim_bounds(v, a + 1, b);
        assert(t.drop_first() =~= v@.subrange(a + 1, b as int));
        return LineRead::Note(na, nb);
    }
    let k = find_blank_in(v, a, b);
    let (la, lb) = trim_bounds(v, k, b);
    let d = find_char_in(v, a, k, '-');
    proof {
        assert(t.take(k - a) =~= v@.subrange(a as int, k as int));
        assert(t.skip(k - a) =~= v@.subrange(k as int, b as int));
        let range = t.take(k - a);
        assert(range.take(d - a) =~= v@.subrange(a as int, d as int));
        if d < k {
            assert(range.skip(d - a + 1) =~= v@.subrange(d + 1, k as int));
        }
    }
    if la == lb || d >= k {
        return LineRead::Unreadable(a, b);
    }
    match (parse_time_in(v, a, d), parse_time_in(v, d + 1, k)) {
        (Some(x), Some(y)) => LineRead::Span(x, y, la, lb),
        _ => LineRead::Unreadable(a, b),
    }
}

/// The characters `lo..hi` of `s` as a string.
fn copy_range(s: &str, lo: usize, hi: usize) -> (r: String)
    requires
        lo <= hi <= s@.len(),
    ensures
        r@ == s@.subrange(lo as int, hi as int),
{
    s.substring_char(lo, hi).to_owned()
}

fn line_prefix_string(n: u64) -> (r: String)
    ensures
        r@ == line_prefix(n as nat),
{
    let mut r = String::new();
    r.append("line ");
    push_nat(&mut r, n);
    r.append(": ");
    assert(r@ =~= line_prefix(n as nat));
    r
}

pub open spec fn entry_seq(v: Seq<Entry>) -> Seq<EntryModel> {
    v.map_values(|e: Entry| e@)
}

/// Reads the text line by line into entries, with a warning for each line
/// that cannot be read, each note above the first entry, and each interval
/// that does not run forward. Lines are numbered from 1.
pub fn parse_entries(text: &str) -> (r: (Vec<Entry>, Vec<String>))
    ensures
        entry_seq(r.0@) == parse_text(text@).entries,
        string_seq(r.1@) == parse_text(text@).warnings,
        forall|i: int| 0 <= i < r.0.len() ==> (#[trigger] r.0[i]).wf(),
{
    let v = to_chars(text);
    let bounds = line_bounds(&v);
    let ghost lines = split_lines(v@);
    let mut entries: Vec<Entry> = Vec::new();
    let mut warnings: Vec<String> = Vec::new();
    let mut i: usize = 0;
    while i < bounds.len()
        invariant
            v@ == text@,
            lines == split_lines(v@),
            bounds.len() == lines.len(),
            forall|k: int|
                0 <= k < bounds.len() ==> {
                    &&& (#[trigger] bounds[k]).0 <= bounds[k].1 <= v.len()
                    &&& v@.subrange(bounds[k].0 as int, bounds[k].1 as int) == lines[k]
                },
            i <= bounds.len(),
            entry_seq(entries@) == parse_lines(lines.take(i as int)).entries,
            string_seq(warnings@) == parse_lines(lines.take(i as int)).warnings,
            forall|k: int| 0 <= k < entries.len() ==> (#[trigger] entries[k]).wf(),
        decreases bounds.len() - i,
    {
        let (lo, hi) = bounds[i];
        let ghost prev = parse_lines(lines.take(i as int));
        proof {
            assert(lines.take(i + 1).drop_last() == lines.take(i as int));
            assert(lines.take(i + 1).last() == lines[i as int]);
        }
        let ghost next = parse_lines(lines.take(i + 1));
        assert(next == parse_step(prev, lines[i as int], (i + 1) as nat));
        let n = (i + 1) as u64;
        match read_line(&v, lo, hi) {
            LineRead::Blank => {},
            LineRead::Note(a, b) => {
                let note = copy_range(text, a, b);
                if entries.len() > 0 {
                    let last = entries.len() - 1;
                    let ghost old_entries = entries@;
                    entries[last].notes.push(note);
                    assert(entries@ == old_entries.update(last as int, entries@[last as int]));
                    assert(string_seq(entries@[last as int].notes@) =~= string_seq(
                        old_entries[last as int].notes@,
                    ).push(v@.subrange(a as int, b as int)));
                    assert(entry_seq(entries@) =~= next.entries);
                } else {
                    let mut w = line_prefix_string(n);
                    w.append("note \"");
                    w.append(note.as_str());
                    w.append("\" comes before any entry");
                    warnings.push(w);
                    assert(string_seq(warnings@) =~= next.warnings);
                }
            },
            LineRead::Span(x, y, a, b) => {
                let label = copy_range(text, a, b);
                let start = Time::from_minutes(x);
                let end = Time::from_minutes(y);
                if y <= x {
                    let mut w = line_prefix_string(n);
                    w.append(label.as_str());
                    w.append(" ends at ");
                    w.append(end.format().as_str());
                    w.append(", not after its start ");
                    w.append(start.format().as_str());
                    warnings.push(w);
                }
                let e = Entry {
                    interval: Interval { start, end, label },
                    notes: Vec::new(),
                };
                assert(e@.notes =~= Seq::<Seq<char>>::empty());
                entries.push(e);
                assert(entry_seq(entries@) =~= next.entries);
                assert(string_seq(warnings@) =~= next.warnings);
            },
            LineRead::Unreadable(a, b) => {
                let mut w = line_prefix_string(n);
                w.append("cannot read \"");
                w.append(copy_range(text, a, b).as_str());
                w.append("\"");
                warnings.push(w);
                assert(string_seq(warnings@) =~= next.warnings);
            },
        }
        i = i + 1;
    }
    assert(lines.take(i as int) == lines);
    (entries, warnings)
}

} // verus!
