//! Highlighting of search matches inside the note editor.

use std::collections::HashMap;
use vstd::prelude::*;

verus! {

broadcast use vstd::std_specs::hash::group_hash_axioms;

/// A match inside the open note: its line and its byte range in that line.
#[derive(Debug, Clone, Copy, PartialEq, Eq, Structural)]
pub struct NoteSearchMatch {
    pub line: usize,
    pub byte_column: usize,
    pub byte_len: usize,
}

/// How a highlighted range is shown.
#[derive(Debug, Clone, Copy, PartialEq, Eq, Structural)]
pub enum Highlight {
    Match,
    CurrentMatch,
}

/// A highlighted byte range of one line.
#[derive(Debug, Clone, Copy, PartialEq, Eq, Structural)]
pub struct HighlightSpan {
    pub start: usize,
    pub end: usize,
    pub kind: Highlight,
}

/// The spans to highlight, grouped by line.
#[derive(Debug, Clone)]
pub struct SearchHighlightSettings {
    pub matches_by_line: HashMap<usize, Vec<HighlightSpan>>,
}

/// The per-line spans of a map, as sequences.
pub open spec fn spans_view(m: Map<usize, Vec<HighlightSpan>>) -> Map<usize, Seq<HighlightSpan>> {
    Map::new(|k: usize| m.contains_key(k), |k: usize| m[k]@)
}

impl View for SearchHighlightSettings {
    type V = Map<usize, Seq<HighlightSpan>>;

    open spec fn view(&self) -> Map<usize, Seq<HighlightSpan>> {
        spans_view(self.matches_by_line@)
    }
}

/// The span shown for the match at index `i`.
pub open spec fn span_of(m: NoteSearchMatch, i: int, current: Option<usize>) -> HighlightSpan {
    HighlightSpan {
        start: m.byte_column,
        end: (m.byte_column + m.byte_len) as usize,
        kind: if current == Some(i as usize) {
            Highlight::CurrentMatch
        } else {
            Highlight::Match
        },
    }
}

/// The spans of the matches, grouped by line, each line keeping the order
/// of the matches; the match at index `current` is the current one.
pub open spec fn group_spans(ms: Seq<NoteSearchMatch>, current: Option<usize>) -> Map<
    usize,
    Seq<HighlightSpan>,
>
    decreases ms.len(),
{
    if ms.len() == 0 {
        Map::empty()
    } else {
        let g = group_spans(ms.drop_last(), current);
        let m = ms.last();
        let before = if g.contains_key(m.line) {
            g[m.line]
        } else {
            Seq::empty()
        };
        g.insert(m.line, before.push(span_of(m, ms.len() - 1, current)))
    }
}

fn copy_spans(v: &Vec<HighlightSpan>) -> (r: Vec<HighlightSpan>)
    ensures
        r@ == v@,
{
    let mut out: Vec<HighlightSpan> = Vec::new();
    let mut i: usize = 0;
    while i < v.len()
        invariant
            0 <= i <= v@.len(),
            out@ == v@.take(i as int),
        decreases v@.len() - i,
    {
        out.push(v[i]);
        i = i + 1;
        assert(out@ =~= v@.take(i as int));
    }
    assert(v@.take(i as int) =~= v@);
    out
}

impl SearchHighlightSettings {
    /// Groups the matches by line; the match at `current_index` is shown as
    /// the current one.
    pub fn from_matches(matches: &[NoteSearchMatch], current_index: Option<usize>) -> (r: Self)
        requires
            forall|i: int|
                0 <= i < matches@.len() ==> #[trigger] matches@[i].byte_column
                    + matches@[i].byte_len <= usize::MAX,
        ensures
            r@ == group_spans(matches@, current_index),
    {
        let mut by_line: HashMap<usize, Vec<HighlightSpan>> = HashMap::new();
        let mut i: usize = 0;
        assert(matches@.take(0) =~= Seq::<NoteSearchMatch>::empty());
        assert(spans_view(by_line@) =~= group_spans(matches@.take(0), current_index));
        while i < matches.len()
            invariant
                0 <= i <= matches@.len(),
                forall|k: int|
                    0 <= k < matches@.len() ==> #[trigger] matches@[k].byte_column
                        + matches@[k].byte_len <= usize::MAX,
                spans_view(by_line@) == group_spans(matches@.take(i as int), current_index),
            decreases matches@.len() - i,
        {
            let m = matches[i];
            let kind = if current_index == Some(i) {
                Highlight::CurrentMatch
            } else {
                Highlight::Match
            };
            let span = HighlightSpan { start: m.byte_column, end: m.byte_column + m.byte_len, kind };
            let ghost g = group_spans(matches@.take(i as int), current_index);
            let mut spans = match by_line.remove(&m.line) {
                Some(v) => v,
                None => Vec::new(),
            };
            spans.push(span);
            by_line.insert(m.line, spans);
            proof {
                assert(matches@.take(i + 1).drop_last() =~= matches@.take(i as int));
                assert(matches@.take(i + 1).last() == m);
                assert(span == span_of(m, i as int, current_index));
                assert(spans_view(by_line@) =~= group_spans(matches@.take(i + 1), current_index));
            }
            i = i + 1;
        }
        assert(matches@.take(i as int) =~= matches@);
        SearchHighlightSettings { matches_by_line: by_line }
    }
}

/// Walks the editor's lines and hands out the spans of each.
#[derive(Debug, Clone)]
pub struct SearchHighlighter {
    pub matches_by_line: HashMap<usize, Vec<HighlightSpan>>,
    pub current_line: usize,
}

impl SearchHighlighter {
    /// A highlighter for `settings`, positioned at the first line.
    pub fn new(settings: &SearchHighlightSettings) -> (r: Self)
        ensures
            spans_view(r.matches_by_line@) == settings@,
            r.current_line == 0,
    {
        SearchHighlighter { matches_by_line: settings.matches_by_line.clone(), current_line: 0 }
    }

    /// Takes new settings and starts over at the first line.
    pub fn update(&mut self, new_settings: &SearchHighlightSettings)
        ensures
            spans_view(final(self).matches_by_line@) == new_settings@,
            final(self).current_line == 0,
    {
        self.matches_by_line = new_settings.matches_by_line.clone();
        self.current_line = 0;
    }

    /// Moves to the given line.
    pub fn change_line(&mut self, line: usize)
        ensures
            final(self).current_line == line,
            final(self).matches_by_line@ == old(self).matches_by_line@,
    {
        self.current_line = line;
    }

    /// The spans of the current line (none if it has no match); moves on to
    /// the next line.
    pub fn highlight_line(&mut self) -> (r: Vec<HighlightSpan>)
        ensures
            final(self).matches_by_line@ == old(self).matches_by_line@,
            final(self).current_line == if old(self).current_line == usize::MAX {
                usize::MAX
            } else {
                (old(self).current_line + 1) as usize
            },
            r@ == if spans_view(old(self).matches_by_line@).contains_key(old(self).current_line) {
                spans_view(old(self).matches_by_line@)[old(self).current_line]
            } else {
                Seq::empty()
            },
    {
        let line = self.current_line;
        self.current_line = if line == usize::MAX {
            usize::MAX
        } else {
            line + 1
        };
        match self.matches_by_line.get(&line) {
            Some(v) => copy_spans(v),
            None => Vec::new(),
        }
    }

    /// The line the next call of [`Self::highlight_line`] will serve.
    pub fn current_line(&self) -> (r: usize)
        ensures
            r == self.current_line,
    {
        self.current_line
    }
}

} // verus!
