//! Reading an edit decision list.
//!
//! Two kinds of line matter. A line that starts with a digit describes an
//! event; its last two fields are the times at which the clip starts and
//! ends. A line that starts with `* FROM CLIP NAME:` names the clip of the
//! event before it. Each named clip becomes one entry.

use vstd::prelude::*;
use crate::clip::{strip_audio_extension, stripped_name};
use crate::decimal::is_digit;
use crate::path::name_chars;
use crate::text::{
    is_whitespace, is_whitespace_char, lowercase_of, string_of, to_chars,
    trailing_whitespace, trim_bounds, trimmed, lemma_trailing_whitespace_is,
};

verus! {

/// Number of characters at the end of `s` that are not whitespace.
pub open spec fn trailing_solid(s: Seq<char>) -> nat
    decreases s.len(),
{
    if s.len() > 0 && !is_whitespace_char(s.last()) {
        1 + trailing_solid(s.drop_last())
    } else {
        0
    }
}

/// `s` without the whitespace at its end.
pub open spec fn without_trailing_space(s: Seq<char>) -> Seq<char> {
    s.take(s.len() - trailing_whitespace(s))
}

/// The last of the fields of `s` that whitespace separates; empty if `s`
/// has no field.
pub open spec fn last_field(s: Seq<char>) -> Seq<char> {
    let a = without_trailing_space(s);
    a.skip(a.len() - trailing_solid(a))
}

/// What comes before the last field of `s`.
pub open spec fn before_last_field(s: Seq<char>) -> Seq<char> {
    let a = without_trailing_space(s);
    a.take(a.len() - trailing_solid(a))
}

/// `s` starts with the text `prefix`.
pub open spec fn starts_with(s: Seq<char>, prefix: Seq<char>) -> bool {
    s.len() >= prefix.len() && s.take(prefix.len() as int) == prefix
}

/// `s` without any repetitions of `prefix` at its start.
pub open spec fn without_leading(s: Seq<char>, prefix: Seq<char>) -> Seq<char>
    decreases s.len(),
{
    if prefix.len() > 0 && starts_with(s, prefix) {
        without_leading(s.skip(prefix.len() as int), prefix)
    } else {
        s
    }
}

/// The words that open a line which names a clip.
pub open spec fn clip_marker() -> Seq<char> {
    "* FROM CLIP NAME:"@
}

/// What a line of the list says, as plain text.
pub enum LineView {
    /// An event with the times at which its clip starts and ends.
    Times { start: Seq<char>, end: Seq<char> },
    /// The name of the clip of the event before, as the list gives it.
    Clip { raw: Seq<char> },
    /// Nothing that matters here.
    Other,
}

/// What the line `line` says.
pub open spec fn line_view(line: Seq<char>) -> LineView {
    let t = trimmed(line);
    if t.len() > 0 && is_digit(t[0]) {
        let start = last_field(before_last_field(t));
        if start.len() > 0 {
            LineView::Times { start: start, end: last_field(t) }
        } else {
            LineView::Other
        }
    } else if starts_with(t, clip_marker()) {
        LineView::Clip { raw: trimmed(without_leading(t, clip_marker())) }
    } else {
        LineView::Other
    }
}

/// What a line of the list says.
#[derive(Debug)]
pub enum EdlLine {
    /// An event with the times at which its clip starts and ends.
    Times { start: String, end: String },
    /// The name of the clip of the event before, without audio extension.
    Clip { name: String },
    /// Nothing that matters here.
    Other,
}

impl EdlLine {
    /// Whether this line says what `view` says, a clip being named without
    /// its audio extension.
    pub open spec fn says(&self, view: LineView) -> bool {
        match (self, view) {
            (EdlLine::Times { start, end }, LineView::Times { start: s, end: e }) => start@ == s
                && end@ == e,
            (EdlLine::Clip { name }, LineView::Clip { raw }) => name@ == stripped_name(
                raw,
                lowercase_of(raw),
            ),
            (EdlLine::Other, LineView::Other) => true,
            _ => false,
        }
    }
}

/// A run of characters at the back of `s`, none of them whitespace, that
/// stops at whitespace (or at the start) is the whole trailing run.
pub proof fn lemma_trailing_solid_is(s: Seq<char>, n: nat)
    requires
        n <= s.len(),
        forall|i: int| s.len() - n <= i < s.len() ==> !is_whitespace_char(#[trigger] s[i]),
        n < s.len() ==> is_whitespace_char(s[s.len() - n - 1]),
    ensures
        trailing_solid(s) == n,
    decreases n,
{
    if n > 0 {
        let t = s.drop_last();
        assert forall|i: int| t.len() - (n - 1) <= i < t.len() implies !is_whitespace_char(
            #[trigger] t[i],
        ) by {
            assert(t[i] == s[i]);
        }
        lemma_trailing_solid_is(t, (n - 1) as nat);
    }
}

/// The bounds `(start, end)` of the last field of `v[..limit]`.
fn last_field_bounds(v: &Vec<char>, limit: usize) -> (r: (usize, usize))
    requires
        limit <= v.len(),
    ensures
        r.0 <= r.1 <= limit,
        v@.subrange(r.0 as int, r.1 as int) == last_field(v@.take(limit as int)),
        v@.take(r.0 as int) == before_last_field(v@.take(limit as int)),
{
    let ghost s = v@.take(limit as int);
    let mut end: usize = limit;
    while end > 0 && is_whitespace(v[end - 1])
        invariant
            end <= limit <= v.len(),
            forall|i: int| end <= i < limit ==> is_whitespace_char(#[trigger] v@[i]),
        decreases end,
    {
        end -= 1;
    }
    proof {
        assert forall|i: int| s.len() - (limit - end) <= i < s.len() implies is_whitespace_char(
            #[trigger] s[i],
        ) by {
            assert(s[i] == v@[i]);
        }
        if limit - end < s.len() {
            assert(s[s.len() - (limit - end) - 1] == v@[end - 1]);
        }
        lemma_trailing_whitespace_is(s, (limit - end) as nat);
        assert(without_trailing_space(s) =~= v@.take(end as int));
    }
    let ghost a = v@.take(end as int);
    let mut start: usize = end;
    while start > 0 && !is_whitespace(v[start - 1])
        invariant
            start <= end <= v.len(),
            forall|i: int| start <= i < end ==> !is_whitespace_char(#[trigger] v@[i]),
        decreases start,
    {
        start -= 1;
    }
    proof {
        assert forall|i: int| a.len() - (end - start) <= i < a.len() implies !is_whitespace_char(
            #[trigger] a[i],
        ) by {
            assert(a[i] == v@[i]);
        }
        if end - start < a.len() {
            assert(a[a.len() - (end - start) - 1] == v@[start - 1]);
        }
        lemma_trailing_solid_is(a, (end - start) as nat);
        assert(a.skip(a.len() - (end - start)) =~= v@.subrange(start as int, end as int));
        assert(a.take(a.len() - (end - start)) =~= v@.take(start as int));
    }
    (start, end)
}

/// Whether `v[from..]` starts with `prefix`.
fn starts_at(v: &Vec<char>, from: usize, prefix: &Vec<char>) -> (r: bool)
    requires
        from <= v.len(),
    ensures
        r == starts_with(v@.skip(from as int), prefix@),
{
    if v.len() - from < prefix.len() {
        return false;
    }
    let mut i: usize = 0;
    while i < prefix.len()
        invariant
            i <= prefix.len(),
            from + prefix.len() <= v.len(),
            forall|k: int| 0 <= k < i ==> v@[from + k] == prefix@[k],
        decreases prefix.len() - i,
    {
        if v[from + i] != prefix[i] {
            assert(v@.skip(from as int).take(prefix.len() as int)[i as int] == v@[from + i]);
            return false;
        }
        i += 1;
    }
    assert(v@.skip(from as int).take(prefix.len() as int) =~= prefix@);
    true
}

/// Index in `v` behind all repetitions of `prefix` at its start.
fn skip_prefix(v: &Vec<char>, prefix: &Vec<char>) -> (r: usize)
    requires
        prefix.len() > 0,
    ensures
        r <= v.len(),
        v@.skip(r as int) == without_leading(v@, prefix@),
{
    let mut at: usize = 0;
    proof {
        assert(v@.skip(0) =~= v@);
    }
    while starts_at(v, at, prefix)
        invariant
            at <= v.len(),
            prefix.len() > 0,
            without_leading(v@.skip(at as int), prefix@) == without_leading(v@, prefix@),
        decreases v.len() - at,
    {
        proof {
            assert(v@.skip(at as int).skip(prefix.len() as int) =~= v@.skip(at + prefix.len()));
        }
        at += prefix.len();
    }
    at
}

/// Reads one line of the list.
pub fn read_line(line: &str) -> (r: EdlLine)
    ensures
        r.says(line_view(line@)),
{
    let all = to_chars(line);
    let (from, to) = trim_bounds(&all);
    let t = name_chars(&all, from, to);
    if t.len() > 0 && '0' <= t[0] && t[0] <= '9' {
        proof {
            assert(t@.take(t.len() as int) =~= t@);
        }
        let (end_from, end_to) = last_field_bounds(&t, t.len());
        let (start_from, start_to) = last_field_bounds(&t, end_from);
        if start_to > start_from {
            EdlLine::Times {
                start: string_of(&t, start_from, start_to),
                end: string_of(&t, end_from, end_to),
            }
        } else {
            EdlLine::Other
        }
    } else {
        let marker = to_chars("* FROM CLIP NAME:");
        proof {
            assert(t@.skip(0) =~= t@);
        }
        if marker.len() > 0 && starts_at(&t, 0, &marker) {
            let rest_from = skip_prefix(&t, &marker);
            let rest = name_chars(&t, rest_from, t.len());
            proof {
                assert(rest@ =~= t@.skip(rest_from as int));
            }
            let (name_from, name_to) = trim_bounds(&rest);
            let raw = string_of(&rest, name_from, name_to);
            EdlLine::Clip { name: strip_audio_extension(raw.as_str()) }
        } else {
            proof {
                if marker.len() == 0 {
                    reveal_strlit("* FROM CLIP NAME:");
                }
            }
            EdlLine::Other
        }
    }
}

/// A clip with the times at which it starts and ends, as the list gives
/// them.
#[derive(Debug)]
pub struct ClipEntry {
    pub start: String,
    pub end: String,
    pub name: String,
}

/// A clip entry as plain text.
pub struct ClipView {
    pub start: Seq<char>,
    pub end: Seq<char>,
    pub name: Seq<char>,
}

impl View for ClipEntry {
    type V = ClipView;

    open spec fn view(&self) -> ClipView {
        ClipView { start: self.start@, end: self.end@, name: self.name@ }
    }
}

/// What a list of entries holds, as plain text.
pub open spec fn clip_views(entries: Seq<ClipEntry>) -> Seq<ClipView> {
    Seq::new(entries.len(), |i: int| entries[i]@)
}

/// What has been read of a list so far: the entries, and the times of the
/// last event if no clip has been named for it yet.
pub struct ReaderView {
    pub pending: Option<(Seq<char>, Seq<char>)>,
    pub entries: Seq<ClipView>,
}

/// The state of reading after one more line: an event sets the times that
/// wait for a name, and a name turns waiting times into an entry. A name
/// with no times waiting is passed over.
pub open spec fn reader_after(
    before: ReaderView,
    times: Option<(Seq<char>, Seq<char>)>,
    name: Option<Seq<char>>,
) -> ReaderView {
    match times {
        Some(t) => ReaderView { pending: Some(t), entries: before.entries },
        None => match (name, before.pending) {
            (Some(n), Some(t)) => ReaderView {
                pending: None,
                entries: before.entries.push(ClipView { start: t.0, end: t.1, name: n }),
            },
            _ => before,
        },
    }
}

/// Reads a list line by line.
#[derive(Debug)]
pub struct EdlReader {
    pub pending: Option<(String, String)>,
    pub entries: Vec<ClipEntry>,
}

impl View for EdlReader {
    type V = ReaderView;

    open spec fn view(&self) -> ReaderView {
        ReaderView {
            pending: match self.pending {
                Some(t) => Some((t.0@, t.1@)),
                None => None,
            },
            entries: clip_views(self.entries@),
        }
    }
}

impl EdlReader {
    /// A reader that has read nothing.
    pub fn new() -> (r: EdlReader)
        ensures
            r@.pending is None,
            r@.entries.len() == 0,
    {
        EdlReader { pending: None, entries: Vec::new() }
    }

    /// Takes the next line of the list.
    pub fn feed(&mut self, line: EdlLine)
        ensures
            final(self)@ == reader_after(
                old(self)@,
                match line {
                    EdlLine::Times { start, end } => Some((start@, end@)),
                    _ => None,
                },
                match line {
                    EdlLine::Clip { name } => Some(name@),
                    _ => None,
                },
            ),
    {
        let ghost before = self@;
        match line {
            EdlLine::Times { start, end } => {
                self.pending = Some((start, end));
            },
            EdlLine::Clip { name } => {
                let waiting = self.pending.take();
                match waiting {
                    Some((start, end)) => {
                        self.entries.push(ClipEntry { start, end, name });
                        assert(self@.entries =~= before.entries.push(
                            ClipView { start: start@, end: end@, name: name@ },
                        ));
                    },
                    None => {
                        assert(self@.entries =~= before.entries);
                    },
                }
            },
            EdlLine::Other => {
                assert(self@.entries =~= before.entries);
            },
        }
    }
}

} // verus!
