//! The state of the note open in the editor, apart from the editor widget.

use vstd::prelude::*;
use crate::model::Note;
use crate::editing::{
    UndoHistory, HistoryView, after_edit, after_snapshot, after_undo, after_redo, snapshot_due,
    within_limit, law_undo_then_redo, law_history_within_limit,
};
use crate::text::{chars_of, push_all, string_from_chars, str_eq};

verus! {

/// Time (in milliseconds) an edit must have rested before it is saved.
pub const AUTOSAVE_DELAY_MS: u128 = 500;

/// The open note: its stored record (whose `content` follows the editor),
/// whether it has unsaved changes, whether it is in edit mode, its undo
/// history, the search highlight shown in view mode, and the lines the
/// editor and the preview still have to scroll to.
pub struct ActiveNote {
    pub note: Note,
    pub dirty: bool,
    pub editing: bool,
    pub history: UndoHistory,
    pub highlight_query: Option<String>,
    pub highlight_line: Option<usize>,
    pub preview_target: Option<usize>,
    pub editor_target: Option<usize>,
}

/// The stored fields of the open note other than its text.
pub struct NoteRecordView {
    pub id: Seq<char>,
    pub folder_id: Seq<char>,
    pub title: Seq<char>,
    pub sort_order: i32,
    pub created_at: Seq<char>,
    pub updated_at: Seq<char>,
}

/// The state as the contracts speak of it: the note's record and text, and
/// the rest of the state.
pub struct ActiveNoteView {
    pub record: NoteRecordView,
    pub content: Seq<char>,
    pub dirty: bool,
    pub editing: bool,
    pub history: HistoryView,
    pub highlight_query: Option<Seq<char>>,
    pub highlight_line: Option<usize>,
    pub preview_target: Option<usize>,
    pub editor_target: Option<usize>,
}

/// The text of an optional string.
pub open spec fn opt_str(o: Option<String>) -> Option<Seq<char>> {
    match o {
        Some(s) => Some(s@),
        None => None,
    }
}

impl View for ActiveNote {
    type V = ActiveNoteView;

    open spec fn view(&self) -> ActiveNoteView {
        ActiveNoteView {
            record: NoteRecordView {
                id: self.note.id@,
                folder_id: self.note.folder_id@,
                title: self.note.title@,
                sort_order: self.note.sort_order,
                created_at: self.note.created_at@,
                updated_at: self.note.updated_at@,
            },
            content: self.note.content@,
            dirty: self.dirty,
            editing: self.editing,
            history: self.history@,
            highlight_query: opt_str(self.highlight_query),
            highlight_line: self.highlight_line,
            preview_target: self.preview_target,
            editor_target: self.editor_target,
        }
    }
}

/// Where the preview scrolls when a note opens: to the (clamped) line of a
/// search jump, else to the cursor in edit mode, else nowhere.
pub open spec fn opening_preview_target(
    jump: Option<(usize, usize)>,
    editing: bool,
    cursor_line: usize,
) -> Option<usize> {
    match jump {
        Some(j) => Some(j.1),
        None => if editing {
            Some(cursor_line)
        } else {
            None
        },
    }
}

impl ActiveNote {
    /// Opens `note`, in edit mode or not. `jump` is the search hit to go
    /// to, as its line and that line clamped to the text; `cursor_line` is
    /// the editor's cursor line. The search query is highlighted only for a
    /// jump made while a search is active.
    pub fn open(
        note: Note,
        editing: bool,
        jump: Option<(usize, usize)>,
        search_active: bool,
        search_query: String,
        cursor_line: usize,
    ) -> (r: ActiveNote)
        ensures
            r.note == note,
            !r.dirty,
            r.editing == editing,
            r@.history.undo.len() == 0,
            r@.history.redo.len() == 0,
            r@.highlight_query == (if jump is Some && search_active {
                Some(search_query@)
            } else {
                None
            }),
            r.highlight_line == (match jump {
                Some(j) => Some(j.0),
                None => None,
            }),
            r.preview_target == opening_preview_target(jump, editing, cursor_line),
            r.editor_target == opening_preview_target(jump, editing, cursor_line),
    {
        let (highlight_query, highlight_line) = match jump {
            Some(j) => (
                if search_active {
                    Some(search_query)
                } else {
                    None
                },
                Some(j.0),
            ),
            None => (None, None),
        };
        let preview_target = match jump {
            Some(j) => Some(j.1),
            None => if editing {
                Some(cursor_line)
            } else {
                None
            },
        };
        let editor_target = if preview_target.is_some() {
            preview_target
        } else if highlight_line.is_some() {
            highlight_line
        } else if editing {
            Some(cursor_line)
        } else {
            None
        };
        ActiveNote {
            note,
            dirty: false,
            editing,
            history: UndoHistory::new(),
            highlight_query,
            highlight_line,
            preview_target,
            editor_target,
        }
    }

    /// Switches between edit and view mode; `cursor_line` is the editor's
    /// cursor line. Entering edit mode drops the search highlight and sends
    /// both panes to the cursor; leaving it sends only the editor there.
    pub fn toggle_edit_mode(&mut self, cursor_line: usize)
        ensures
            final(self)@ == (if !old(self)@.editing {
                ActiveNoteView {
                    editing: true,
                    highlight_query: None,
                    highlight_line: None,
                    editor_target: Some(cursor_line),
                    preview_target: Some(cursor_line),
                    ..old(self)@
                }
            } else {
                ActiveNoteView {
                    editing: false,
                    editor_target: Some(cursor_line),
                    preview_target: None,
                    ..old(self)@
                }
            }),
    {
        self.editing = !self.editing;
        self.editor_target = Some(cursor_line);
        if self.editing {
            self.highlight_query = None;
            self.highlight_line = None;
            self.preview_target = Some(cursor_line);
        } else {
            self.preview_target = None;
        }
    }

    /// Leaves edit mode (the Escape key); returns whether it was in it.
    pub fn leave_edit_mode(&mut self) -> (left: bool)
        ensures
            left == old(self)@.editing,
            final(self)@ == (if old(self)@.editing {
                ActiveNoteView { editing: false, preview_target: None, ..old(self)@ }
            } else {
                old(self)@
            }),
    {
        if self.editing {
            self.editing = false;
            self.preview_target = None;
            true
        } else {
            false
        }
    }

    /// Before a typed edit, `elapsed_ms` after the last snapshot: refused
    /// (`None`) in view mode; otherwise the text before the edit is recorded
    /// in the history and the answer says whether a snapshot was taken.
    pub fn begin_edit(&mut self, elapsed_ms: u128) -> (r: Option<bool>)
        ensures
            if !old(self)@.editing {
                r is None && final(self)@ == old(self)@
            } else {
                r == Some(snapshot_due(elapsed_ms)) && final(self)@ == (ActiveNoteView {
                    history: after_edit(old(self)@.history, old(self)@.content, elapsed_ms),
                    ..old(self)@
                })
            },
    {
        if !self.editing {
            return None;
        }
        let current = self.note.content.clone();
        let taken = self.history.record_edit(current, elapsed_ms);
        Some(taken)
    }

    /// Before an inserted snippet or image: enters edit mode when
    /// `enter_editing` is set, and records the current text in the history.
    pub fn begin_insert(&mut self, enter_editing: bool)
        ensures
            final(self)@ == (ActiveNoteView {
                editing: old(self)@.editing || enter_editing,
                history: after_snapshot(old(self)@.history, old(self)@.content),
                ..old(self)@
            }),
    {
        if enter_editing && !self.editing {
            self.editing = true;
        }
        let current = self.note.content.clone();
        self.history.push_snapshot(current);
    }

    /// After an edit or insertion: the editor now holds `text`, which is
    /// unsaved; `cursor_line` is where its cursor is. With `follow_cursor`
    /// both panes are sent to the cursor.
    pub fn finish_edit(&mut self, text: String, cursor_line: usize, follow_cursor: bool)
        ensures
            final(self)@ == (if follow_cursor {
                ActiveNoteView {
                    content: text@,
                    dirty: true,
                    editor_target: Some(cursor_line),
                    preview_target: Some(cursor_line),
                    ..old(self)@
                }
            } else {
                ActiveNoteView { content: text@, dirty: true, ..old(self)@ }
            }),
    {
        self.note.content = text;
        self.dirty = true;
        if follow_cursor {
            self.editor_target = Some(cursor_line);
            self.preview_target = Some(cursor_line);
        }
    }

    /// Undo: when there is something to undo, the text goes back and
    /// becomes unsaved. Returns whether the text changed.
    pub fn undo(&mut self) -> (changed: bool)
        ensures
            changed == (old(self)@.history.undo.len() > 0),
            final(self)@ == undo_view(old(self)@),
    {
        let current = self.note.content.clone();
        match self.history.undo(current) {
            Some(prev) => {
                self.note.content = prev;
                self.dirty = true;
                true
            },
            None => false,
        }
    }

    /// Redo: when there is something to redo, the text comes back and
    /// becomes unsaved. Returns whether the text changed.
    pub fn redo(&mut self) -> (changed: bool)
        ensures
            changed == (old(self)@.history.redo.len() > 0),
            final(self)@ == redo_view(old(self)@),
    {
        let current = self.note.content.clone();
        match self.history.redo(current) {
            Some(next) => {
                self.note.content = next;
                self.dirty = true;
                true
            },
            None => false,
        }
    }

    /// Whether the periodic tick should save: unsaved changes that have
    /// rested `elapsed_ms` since the last edit, at least the autosave delay.
    pub fn save_due(&self, elapsed_ms: u128) -> (r: bool)
        ensures
            r == (self.dirty && elapsed_ms >= AUTOSAVE_DELAY_MS),
    {
        self.dirty && elapsed_ms >= AUTOSAVE_DELAY_MS
    }

    /// The note was saved.
    pub fn saved(&mut self)
        ensures
            final(self)@ == (ActiveNoteView { dirty: false, ..old(self)@ }),
    {
        self.dirty = false;
    }

    /// The editor reached the line it was scrolling to.
    pub fn editor_target_reached(&mut self)
        ensures
            final(self)@ == (ActiveNoteView { editor_target: None, ..old(self)@ }),
    {
        self.editor_target = None;
    }

    /// The preview reached the line it was scrolling to; it scrolls freely
    /// from then on.
    pub fn preview_target_reached(&mut self)
        ensures
            final(self)@ == (ActiveNoteView { preview_target: None, ..old(self)@ }),
    {
        self.preview_target = None;
    }

    /// A double click on the open note: edit mode, both panes to the cursor.
    pub fn enter_edit_mode(&mut self, cursor_line: usize)
        ensures
            final(self)@ == (ActiveNoteView {
                editing: true,
                editor_target: Some(cursor_line),
                preview_target: Some(cursor_line),
                ..old(self)@
            }),
    {
        self.editing = true;
        self.editor_target = Some(cursor_line);
        self.preview_target = Some(cursor_line);
    }

    /// A single click on the open note: back to view mode, without search
    /// highlight, the editor pane to the cursor. Returns whether it was in
    /// edit mode (nothing changes otherwise).
    pub fn return_to_view(&mut self, cursor_line: usize) -> (was_editing: bool)
        ensures
            was_editing == old(self)@.editing,
            final(self)@ == (if old(self)@.editing {
                ActiveNoteView {
                    editing: false,
                    editor_target: Some(cursor_line),
                    preview_target: None,
                    highlight_query: None,
                    highlight_line: None,
                    ..old(self)@
                }
            } else {
                old(self)@
            }),
    {
        if self.editing {
            self.editing = false;
            self.editor_target = Some(cursor_line);
            self.preview_target = None;
            self.highlight_query = None;
            self.highlight_line = None;
            true
        } else {
            false
        }
    }

    /// A search hit in this note was chosen: the query is highlighted while
    /// a search is active, the hit's line is marked, and both panes go to
    /// the cursor, now on the hit.
    pub fn show_search_hit(
        &mut self,
        search_active: bool,
        search_query: String,
        line: usize,
        cursor_line: usize,
    )
        ensures
            final(self)@ == (ActiveNoteView {
                highlight_query: if search_active {
                    Some(search_query@)
                } else {
                    None
                },
                highlight_line: Some(line),
                editor_target: Some(cursor_line),
                preview_target: Some(cursor_line),
                ..old(self)@
            }),
    {
        self.highlight_query = if search_active {
            Some(search_query)
        } else {
            None
        };
        self.highlight_line = Some(line);
        self.editor_target = Some(cursor_line);
        self.preview_target = Some(cursor_line);
    }

    /// The cursor moved (or the text changed under it): in edit mode the
    /// preview follows it. Returns whether it does.
    pub fn cursor_moved(&mut self, cursor_line: usize) -> (follows: bool)
        ensures
            follows == old(self)@.editing,
            final(self)@ == (if old(self)@.editing {
                ActiveNoteView { preview_target: Some(cursor_line), ..old(self)@ }
            } else {
                old(self)@
            }),
    {
        if self.editing {
            self.preview_target = Some(cursor_line);
            true
        } else {
            false
        }
    }

    /// Both panes follow the cursor (after the font size changed).
    pub fn follow_cursor(&mut self, cursor_line: usize)
        ensures
            final(self)@ == (ActiveNoteView {
                editor_target: Some(cursor_line),
                preview_target: Some(cursor_line),
                ..old(self)@
            }),
    {
        self.editor_target = Some(cursor_line);
        self.preview_target = Some(cursor_line);
    }

    /// The note was moved to the folder `folder_id`.
    pub fn moved_to(&mut self, folder_id: String)
        ensures
            final(self)@ == (ActiveNoteView {
                record: NoteRecordView { folder_id: folder_id@, ..old(self)@.record },
                ..old(self)@
            }),
    {
        self.note.folder_id = folder_id;
    }
}


/// The state after undo: the last snapshot comes back as unsaved text;
/// nothing changes when there is nothing to undo.
pub open spec fn undo_view(v: ActiveNoteView) -> ActiveNoteView {
    if v.history.undo.len() > 0 {
        ActiveNoteView {
            content: after_undo(v.history, v.content).1->0,
            dirty: true,
            history: after_undo(v.history, v.content).0,
            ..v
        }
    } else {
        v
    }
}

/// The state after redo: the last undone text comes back as unsaved text;
/// nothing changes when there is nothing to redo.
pub open spec fn redo_view(v: ActiveNoteView) -> ActiveNoteView {
    if v.history.redo.len() > 0 {
        ActiveNoteView {
            content: after_redo(v.history, v.content).1->0,
            dirty: true,
            history: after_redo(v.history, v.content).0,
            ..v
        }
    } else {
        v
    }
}

/// Undo followed by redo gives the open note back as it was (text, record,
/// history and everything else), except that it is now unsaved.
pub proof fn law_open_note_undo_then_redo(v: ActiveNoteView)
    requires
        v.history.undo.len() > 0,
    ensures
        redo_view(undo_view(v)) == (ActiveNoteView { dirty: true, ..v }),
{
    law_undo_then_redo(v.history, v.content);
}

/// Every change to the open note's history keeps undo and redo together
/// within `MAX_UNDO_STEPS` texts (the other operations leave the history
/// as it is).
pub proof fn law_open_note_within_limit(v: ActiveNoteView, elapsed_ms: u128)
    requires
        within_limit(v.history),
    ensures
        within_limit(undo_view(v).history),
        within_limit(redo_view(v).history),
        within_limit(after_edit(v.history, v.content, elapsed_ms)),
        within_limit(after_snapshot(v.history, v.content)),
{
    law_history_within_limit(v.history, v.content, elapsed_ms);
}

/// Two clicks on the same note closer together than this (in
/// milliseconds) make a double click.
pub const DOUBLE_CLICK_MS: u128 = 400;

/// Whether a click on `id`, `elapsed_ms` after the last click on a note
/// (`last_id`), is a double click.
pub fn is_double_click(last_id: Option<&str>, id: &str, elapsed_ms: u128) -> (r: bool)
    ensures
        r == (match last_id {
            Some(l) => l@ == id@ && elapsed_ms < DOUBLE_CLICK_MS,
            None => false,
        }),
{
    match last_id {
        Some(l) => str_eq(l, id) && elapsed_ms < DOUBLE_CLICK_MS,
        None => false,
    }
}

/// The file name proposed when exporting a note titled `title`.
pub fn export_file_name(title: &str) -> (r: String)
    ensures
        r@ == title@ + ".md"@,
{
    let mut out = chars_of(title);
    let ext = chars_of(".md");
    push_all(&mut out, &ext);
    string_from_chars(out.as_slice())
}

/// The message shown when exporting failed with `err`.
pub fn export_error(err: &str) -> (r: String)
    ensures
        r@ == "导出失败: "@ + err@,
{
    let mut out = chars_of("导出失败: ");
    let e = chars_of(err);
    push_all(&mut out, &e);
    string_from_chars(out.as_slice())
}

} // verus!
