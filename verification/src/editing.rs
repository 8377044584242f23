//! Undo/redo history of the open note and the window title.

use vstd::prelude::*;
use crate::text::{chars_of, push_all, string_from_chars};

verus! {

/// How many snapshots the undo stack keeps at most.
pub const MAX_UNDO_STEPS: usize = 100;

/// Edits closer together than this (in milliseconds) share one snapshot.
pub const SNAPSHOT_INTERVAL_MS: u128 = 500;

/// The undo and redo stacks of the open note: each entry is a full copy of
/// the note's text, the most recent one last.
pub struct UndoHistory {
    pub undo_stack: Vec<String>,
    pub redo_stack: Vec<String>,
}

/// The stacks as sequences of texts.
pub struct HistoryView {
    pub undo: Seq<Seq<char>>,
    pub redo: Seq<Seq<char>>,
}

/// The texts held by a vector of strings.
pub open spec fn texts(v: Seq<String>) -> Seq<Seq<char>> {
    v.map_values(|s: String| s@)
}

impl View for UndoHistory {
    type V = HistoryView;

    open spec fn view(&self) -> HistoryView {
        HistoryView { undo: texts(self.undo_stack@), redo: texts(self.redo_stack@) }
    }
}

/// The undo stack after pushing `current`: the oldest snapshot is dropped
/// once more than `MAX_UNDO_STEPS` are held.
pub open spec fn pushed(undo: Seq<Seq<char>>, current: Seq<char>) -> Seq<Seq<char>> {
    let u = undo.push(current);
    if u.len() > MAX_UNDO_STEPS {
        u.drop_first()
    } else {
        u
    }
}

/// The history after an explicit snapshot of `current` (an inserted image or
/// Markdown snippet): pushed onto the undo stack, redo stack emptied.
pub open spec fn after_snapshot(h: HistoryView, current: Seq<char>) -> HistoryView {
    HistoryView { undo: pushed(h.undo, current), redo: Seq::empty() }
}

/// Whether an edit `elapsed_ms` after the last snapshot takes a new one.
pub open spec fn snapshot_due(elapsed_ms: u128) -> bool {
    elapsed_ms >= SNAPSHOT_INTERVAL_MS
}

/// The history after a typed edit: a snapshot of the text before the edit
/// when the last one is old enough; the redo stack is emptied either way.
pub open spec fn after_edit(h: HistoryView, current: Seq<char>, elapsed_ms: u128) -> HistoryView {
    if snapshot_due(elapsed_ms) {
        after_snapshot(h, current)
    } else {
        HistoryView { undo: h.undo, redo: Seq::empty() }
    }
}

/// Undo from `current`: the last snapshot comes back and `current` goes onto
/// the redo stack; nothing happens when there is nothing to undo.
pub open spec fn after_undo(h: HistoryView, current: Seq<char>) -> (HistoryView, Option<Seq<char>>) {
    if h.undo.len() == 0 {
        (h, None)
    } else {
        (HistoryView { undo: h.undo.drop_last(), redo: h.redo.push(current) }, Some(h.undo.last()))
    }
}

/// Redo from `current`: the last undone text comes back and `current` goes
/// onto the undo stack; nothing happens when there is nothing to redo.
pub open spec fn after_redo(h: HistoryView, current: Seq<char>) -> (HistoryView, Option<Seq<char>>) {
    if h.redo.len() == 0 {
        (h, None)
    } else {
        (HistoryView { undo: h.undo.push(current), redo: h.redo.drop_last() }, Some(h.redo.last()))
    }
}

/// The bound that the history keeps: undo and redo together hold at most
/// `MAX_UNDO_STEPS` texts.
pub open spec fn within_limit(h: HistoryView) -> bool {
    h.undo.len() + h.redo.len() <= MAX_UNDO_STEPS
}

/// The text of an optional string.
pub open spec fn opt_text(o: Option<String>) -> Option<Seq<char>> {
    match o {
        Some(s) => Some(s@),
        None => None,
    }
}

impl UndoHistory {
    /// An empty history.
    pub fn new() -> (r: UndoHistory)
        ensures
            r@.undo.len() == 0,
            r@.redo.len() == 0,
    {
        UndoHistory { undo_stack: Vec::new(), redo_stack: Vec::new() }
    }

    fn push_capped(&mut self, current: String)
        ensures
            final(self)@.undo == pushed(old(self)@.undo, current@),
            final(self)@.redo == old(self)@.redo,
    {
        self.undo_stack.push(current);
        if self.undo_stack.len() > MAX_UNDO_STEPS {
            self.undo_stack.remove(0);
        }
        assert(texts(self.undo_stack@) =~= pushed(old(self)@.undo, current@));
    }

    /// Takes a snapshot of `current` before an inserted image or snippet.
    pub fn push_snapshot(&mut self, current: String)
        ensures
            final(self)@ == after_snapshot(old(self)@, current@),
    {
        self.push_capped(current);
        self.redo_stack.clear();
        assert(texts(self.redo_stack@) =~= Seq::<Seq<char>>::empty());
    }

    /// Records a typed edit, `elapsed_ms` after the last snapshot, of the
    /// text `current` as it was before the edit. Returns whether a snapshot
    /// was taken (the caller then restarts its clock).
    pub fn record_edit(&mut self, current: String, elapsed_ms: u128) -> (taken: bool)
        ensures
            taken == snapshot_due(elapsed_ms),
            final(self)@ == after_edit(old(self)@, current@, elapsed_ms),
    {
        let taken = elapsed_ms >= SNAPSHOT_INTERVAL_MS;
        if taken {
            self.push_capped(current);
        }
        self.redo_stack.clear();
        assert(texts(self.redo_stack@) =~= Seq::<Seq<char>>::empty());
        taken
    }

    /// Undoes from the text `current`; returns the text to show, if any.
    pub fn undo(&mut self, current: String) -> (r: Option<String>)
        ensures
            final(self)@ == after_undo(old(self)@, current@).0,
            opt_text(r) == after_undo(old(self)@, current@).1,
    {
        match self.undo_stack.pop() {
            Some(prev) => {
                self.redo_stack.push(current);
                assert(texts(self.undo_stack@) =~= old(self)@.undo.drop_last());
                assert(texts(self.redo_stack@) =~= old(self)@.redo.push(current@));
                Some(prev)
            },
            None => None,
        }
    }

    /// Redoes from the text `current`; returns the text to show, if any.
    pub fn redo(&mut self, current: String) -> (r: Option<String>)
        ensures
            final(self)@ == after_redo(old(self)@, current@).0,
            opt_text(r) == after_redo(old(self)@, current@).1,
    {
        match self.redo_stack.pop() {
            Some(next) => {
                self.undo_stack.push(current);
                assert(texts(self.redo_stack@) =~= old(self)@.redo.drop_last());
                assert(texts(self.undo_stack@) =~= old(self)@.undo.push(current@));
                Some(next)
            },
            None => None,
        }
    }
}

/// Starting from an empty history, every operation keeps undo and redo
/// together within `MAX_UNDO_STEPS` texts.
pub proof fn law_history_within_limit(h: HistoryView, current: Seq<char>, elapsed_ms: u128)
    requires
        within_limit(h),
    ensures
        within_limit(HistoryView { undo: Seq::empty(), redo: Seq::empty() }),
        within_limit(after_snapshot(h, current)),
        within_limit(after_edit(h, current, elapsed_ms)),
        within_limit(after_undo(h, current).0),
        within_limit(after_redo(h, current).0),
{
}

/// Undo followed by redo of the text that undo brought back restores both
/// the text and the history.
pub proof fn law_undo_then_redo(h: HistoryView, current: Seq<char>)
    requires
        h.undo.len() > 0,
    ensures
        ({
            let (h1, prev) = after_undo(h, current);
            &&& prev is Some
            &&& after_redo(h1, prev->0) == (h, Some(current))
        }),
{
    let h1 = after_undo(h, current).0;
    assert(h1.undo.push(h.undo.last()) =~= h.undo);
    assert(h1.redo.drop_last() =~= h.redo);
}

/// Redo followed by undo of the text that redo brought back restores both
/// the text and the history.
pub proof fn law_redo_then_undo(h: HistoryView, current: Seq<char>)
    requires
        h.redo.len() > 0,
    ensures
        ({
            let (h1, next) = after_redo(h, current);
            &&& next is Some
            &&& after_undo(h1, next->0) == (h, Some(current))
        }),
{
    let h1 = after_redo(h, current).0;
    assert(h1.redo.push(h.redo.last()) =~= h.redo);
    assert(h1.undo.drop_last() =~= h.undo);
}

/// The window title: the open note's title, ` *` while it has unsaved
/// changes, then ` - Notepad`; just `Notepad` with no note open.
pub open spec fn title_spec(open_note: Option<(Seq<char>, bool)>) -> Seq<char> {
    match open_note {
        Some((title, dirty)) => title + (if dirty {
            " *"@
        } else {
            Seq::empty()
        }) + " - Notepad"@,
        None => "Notepad"@,
    }
}

/// The window title for the open note (its title and whether it is dirty).
pub fn window_title(open_note: Option<(&str, bool)>) -> (r: String)
    ensures
        r@ == title_spec(
            match open_note {
                Some((t, d)) => Some((t@, d)),
                None => None,
            },
        ),
{
    match open_note {
        Some((title, dirty)) => {
            let mut out = chars_of(title);
            if dirty {
                let mark = chars_of(" *");
                push_all(&mut out, &mark);
            } else {
                assert(out@ =~= title@ + Seq::<char>::empty());
            }
            let tail = chars_of(" - Notepad");
            push_all(&mut out, &tail);
            string_from_chars(out.as_slice())
        },
        None => {
            let name = chars_of("Notepad");
            string_from_chars(name.as_slice())
        },
    }
}

/// The line a cursor lands on when asked for `line` in a text of
/// `line_count` lines: at most the last line (line 0 of an empty text).
pub open spec fn clamp_line_spec(line: int, line_count: int) -> int {
    let last = if line_count <= 1 {
        0
    } else {
        line_count - 1
    };
    if line < last {
        line
    } else {
        last
    }
}

/// The line a cursor request for `line` lands on.
pub fn clamp_line(line: usize, line_count: usize) -> (r: usize)
    ensures
        r == clamp_line_spec(line as int, line_count as int),
{
    let last = if line_count <= 1 {
        0
    } else {
        line_count - 1
    };
    if line < last {
        line
    } else {
        last
    }
}

/// Where the cursor goes for a search hit: the hit's line and column (the
/// column at most the line's length), and, for a non-empty match, the end
/// of the selection covering it, on the same line.
#[derive(Debug, Clone, Copy, PartialEq, Eq, Structural)]
pub struct CursorTarget {
    pub line: usize,
    pub column: usize,
    pub selection_column: Option<usize>,
}

/// The smaller of two integers.
pub open spec fn min_int(a: int, b: int) -> int {
    if a < b {
        a
    } else {
        b
    }
}

/// The cursor for a hit at `column` of `line` spanning `match_len`
/// characters, on a line of `max_column` characters.
pub fn jump_cursor(line: usize, column: usize, match_len: usize, max_column: usize) -> (r:
    CursorTarget)
    requires
        column + match_len <= usize::MAX,
    ensures
        r.line == line,
        r.column == min_int(column as int, max_column as int),
        r.selection_column == (if match_len > 0 {
            Some(min_int(column + match_len, max_column as int) as usize)
        } else {
            None
        }),
{
    let col = if column < max_column {
        column
    } else {
        max_column
    };
    let selection_column = if match_len > 0 {
        let end = column + match_len;
        Some(
            if end < max_column {
                end
            } else {
                max_column
            },
        )
    } else {
        None
    };
    CursorTarget { line, column: col, selection_column }
}

/// Every typed edit and every snapshot discards what had been undone: the
/// redo stack is empty afterwards, however soon after the last snapshot
/// the edit came; a snapshot always records the text before it.
pub proof fn law_edit_clears_redo(h: HistoryView, current: Seq<char>, elapsed_ms: u128)
    ensures
        after_edit(h, current, elapsed_ms).redo.len() == 0,
        after_snapshot(h, current).redo.len() == 0,
        after_snapshot(h, current).undo.last() == current,
        elapsed_ms < SNAPSHOT_INTERVAL_MS ==> after_edit(h, current, elapsed_ms).undo == h.undo,
        elapsed_ms >= SNAPSHOT_INTERVAL_MS ==> after_edit(h, current, elapsed_ms).undo.last()
            == current,
{
}

} // verus!
