use notepad::editing::{clamp_line, jump_cursor, window_title, UndoHistory, MAX_UNDO_STEPS};
use notepad::model::Note;
use notepad::note_state::{export_error, export_file_name, ActiveNote};

#[test]
fn undo_then_redo_restores_text_and_history() {
    let mut h = UndoHistory::new();
    h.push_snapshot("v1".to_string());
    h.push_snapshot("v2".to_string());
    let undone = h.undo("v3".to_string());
    assert_eq!(undone.as_deref(), Some("v2"));
    assert_eq!(h.undo_stack, vec!["v1".to_string()]);
    assert_eq!(h.redo_stack, vec!["v3".to_string()]);
    let redone = h.redo("v2".to_string());
    assert_eq!(redone.as_deref(), Some("v3"));
    assert_eq!(h.undo_stack, vec!["v1".to_string(), "v2".to_string()]);
    assert!(h.redo_stack.is_empty());
}

#[test]
fn nothing_to_undo_or_redo() {
    let mut h = UndoHistory::new();
    assert_eq!(h.undo("text".to_string()), None);
    assert_eq!(h.redo("text".to_string()), None);
    assert!(h.undo_stack.is_empty());
    assert!(h.redo_stack.is_empty());
}

#[test]
fn history_keeps_at_most_one_hundred_steps() {
    let mut h = UndoHistory::new();
    for i in 0..150 {
        h.push_snapshot(format!("v{i}"));
    }
    assert_eq!(h.undo_stack.len(), MAX_UNDO_STEPS);
    assert_eq!(h.undo_stack[0], "v50");
    assert_eq!(h.undo_stack[99], "v149");
    let mut undone = 0;
    let mut current = "now".to_string();
    while let Some(prev) = h.undo(current.clone()) {
        current = prev;
        undone += 1;
    }
    assert_eq!(undone, 100);
    assert_eq!(h.undo_stack.len() + h.redo_stack.len(), 100);
}

#[test]
fn edits_share_a_snapshot_within_the_interval() {
    let mut h = UndoHistory::new();
    h.redo_stack.push("later".to_string());
    assert!(h.record_edit("a".to_string(), 10_000));
    assert!(h.redo_stack.is_empty());
    assert!(!h.record_edit("ab".to_string(), 120));
    assert!(h.record_edit("abc".to_string(), 500));
    assert_eq!(h.undo_stack, vec!["a".to_string(), "abc".to_string()]);
}

#[test]
fn new_snapshot_clears_redo() {
    let mut h = UndoHistory::new();
    h.push_snapshot("a".to_string());
    assert_eq!(h.undo("b".to_string()).as_deref(), Some("a"));
    h.push_snapshot("c".to_string());
    assert!(h.redo_stack.is_empty());
    assert_eq!(h.redo("x".to_string()), None);
}

#[test]
fn window_title_shows_note_and_unsaved_mark() {
    assert_eq!(window_title(None), "Notepad");
    assert_eq!(window_title(Some(("日记", false))), "日记 - Notepad");
    assert_eq!(window_title(Some(("日记", true))), "日记 * - Notepad");
}

#[test]
fn clamp_line_stays_inside_the_text() {
    assert_eq!(clamp_line(5, 3), 2);
    assert_eq!(clamp_line(1, 3), 1);
    assert_eq!(clamp_line(7, 0), 0);
    assert_eq!(clamp_line(0, 1), 0);
}

#[test]
fn jump_cursor_selects_the_match() {
    let c = jump_cursor(2, 4, 3, 10);
    assert_eq!((c.line, c.column, c.selection_column), (2, 4, Some(7)));
    let c = jump_cursor(2, 8, 5, 10);
    assert_eq!((c.column, c.selection_column), (8, Some(10)));
    let c = jump_cursor(0, 12, 0, 10);
    assert_eq!((c.column, c.selection_column), (10, None));
}

fn sample_note(content: &str) -> Note {
    Note {
        id: "n".to_string(),
        folder_id: "f".to_string(),
        title: "t".to_string(),
        content: content.to_string(),
        sort_order: 1,
        created_at: "2024-01-01T00:00:00Z".to_string(),
        updated_at: "2024-01-02T00:00:00Z".to_string(),
    }
}

#[test]
fn opening_from_a_search_hit_highlights_only_during_search() {
    let a = ActiveNote::open(sample_note("x\ny"), false, Some((7, 1)), true, "q".to_string(), 0);
    assert_eq!(a.highlight_query.as_deref(), Some("q"));
    assert_eq!(a.highlight_line, Some(7));
    assert_eq!(a.preview_target, Some(1));
    assert_eq!(a.editor_target, Some(1));
    assert!(!a.dirty);
    let b = ActiveNote::open(sample_note("x"), false, Some((0, 0)), false, "q".to_string(), 0);
    assert_eq!(b.highlight_query, None);
    let c = ActiveNote::open(sample_note("x"), false, None, true, "q".to_string(), 0);
    assert_eq!((c.highlight_line, c.preview_target, c.editor_target), (None, None, None));
    let d = ActiveNote::open(sample_note("x"), true, None, true, "q".to_string(), 3);
    assert_eq!((d.preview_target, d.editor_target), (Some(3), Some(3)));
}

#[test]
fn view_mode_refuses_typed_edits() {
    let mut a = ActiveNote::open(sample_note("abc"), false, None, false, String::new(), 0);
    assert_eq!(a.begin_edit(1000), None);
    assert!(a.history.undo_stack.is_empty());
    a.toggle_edit_mode(0);
    assert!(a.editing);
    assert_eq!(a.begin_edit(1000), Some(true));
    a.finish_edit("abcd".to_string(), 0, false);
    assert!(a.dirty);
    assert_eq!(a.note.content, "abcd");
    assert!(a.undo());
    assert_eq!(a.note.content, "abc");
    assert!(a.redo());
    assert_eq!(a.note.content, "abcd");
    assert!(!a.redo());
}

#[test]
fn insertion_enters_edit_mode_and_can_be_undone() {
    let mut a = ActiveNote::open(sample_note("body"), false, None, false, String::new(), 0);
    a.begin_insert(true);
    assert!(a.editing);
    a.finish_edit("body**粗体**".to_string(), 0, true);
    assert_eq!((a.editor_target, a.preview_target), (Some(0), Some(0)));
    assert!(a.undo());
    assert_eq!(a.note.content, "body");
}

#[test]
fn autosave_waits_for_the_delay() {
    let mut a = ActiveNote::open(sample_note(""), true, None, false, String::new(), 0);
    assert!(!a.save_due(10_000));
    a.finish_edit("x".to_string(), 0, false);
    assert!(!a.save_due(499));
    assert!(a.save_due(500));
    a.saved();
    assert!(!a.save_due(10_000));
}

#[test]
fn toggling_edit_mode_drops_highlight() {
    let mut a = ActiveNote::open(sample_note("x"), false, Some((0, 0)), true, "x".to_string(), 0);
    a.toggle_edit_mode(0);
    assert_eq!(a.highlight_query, None);
    assert_eq!(a.highlight_line, None);
    assert!(a.leave_edit_mode());
    assert_eq!(a.preview_target, None);
    assert!(!a.leave_edit_mode());
}

#[test]
fn export_texts() {
    assert_eq!(export_file_name("周报"), "周报.md");
    assert_eq!(export_error("disk full"), "导出失败: disk full");
}

#[test]
fn undo_then_redo_gives_the_note_back_unsaved() {
    let mut a = ActiveNote::open(sample_note("one"), true, None, false, String::new(), 0);
    assert_eq!(a.begin_edit(1000), Some(true));
    a.finish_edit("two".to_string(), 0, false);
    a.saved();
    assert!(a.undo());
    assert!(a.redo());
    assert_eq!(a.note.content, "two");
    assert_eq!(a.note.title, "t");
    assert_eq!(a.note.updated_at, "2024-01-02T00:00:00Z");
    assert_eq!(a.history.undo_stack, vec!["one".to_string()]);
    assert!(a.history.redo_stack.is_empty());
    assert!(a.dirty);
}
