use notepad::attachments::{image_marker, resolve_image_id};
use notepad::folder_options::build_move_folder_options;
use notepad::highlight::{Highlight, HighlightSpan, NoteSearchMatch, SearchHighlightSettings, SearchHighlighter};
use notepad::keys::{shortcut, Shortcut};
use notepad::md_shortcut::{label, snippet, tooltip, MdShortcut};
use notepad::model::{Folder, Note, NoteMeta, TreeNode};
use notepad::preview::preprocess_for_preview;
use notepad::records::{children_nodes, next_sort_order, note_node, root_folder_node};
use notepad::session::{CreateRequest, EscapeOutcome, Session};
use notepad::status::{date_part, estimate_reading_minutes, word_count};

fn folder_rec(id: &str, parent: Option<&str>, name: &str, order: i32) -> Folder {
    Folder {
        id: id.to_string(),
        parent_id: parent.map(|p| p.to_string()),
        name: name.to_string(),
        sort_order: order,
        created_at: String::new(),
        updated_at: String::new(),
    }
}

fn meta(id: &str, folder_id: &str, title: &str) -> NoteMeta {
    NoteMeta {
        id: id.to_string(),
        folder_id: folder_id.to_string(),
        title: title.to_string(),
        sort_order: 0,
    }
}

#[test]
fn shortcuts_follow_the_key_table() {
    assert_eq!(shortcut("s", true, false), Some(Shortcut::Save));
    assert_eq!(shortcut("n", true, false), Some(Shortcut::NewNote));
    assert_eq!(shortcut("f", true, false), Some(Shortcut::FocusNoteSearch));
    assert_eq!(shortcut("f", true, true), Some(Shortcut::FocusGlobalSearch));
    assert_eq!(shortcut("e", true, false), Some(Shortcut::ToggleEditMode));
    assert_eq!(shortcut("e", true, true), Some(Shortcut::ExportNote));
    assert_eq!(shortcut("z", true, false), Some(Shortcut::Undo));
    assert_eq!(shortcut("z", true, true), Some(Shortcut::Redo));
    assert_eq!(shortcut("y", true, false), Some(Shortcut::Redo));
    assert_eq!(shortcut("=", true, false), Some(Shortcut::FontLarger));
    assert_eq!(shortcut("+", true, true), Some(Shortcut::FontLarger));
    assert_eq!(shortcut("-", true, false), Some(Shortcut::FontSmaller));
    assert_eq!(shortcut("s", false, false), None);
    assert_eq!(shortcut("q", true, false), None);
}

#[test]
fn image_links_resolve_to_known_images() {
    let known = vec!["abc".to_string(), "x/y".to_string(), "last".to_string()];
    assert_eq!(resolve_image_id("attachment://abc", &known).as_deref(), Some("abc"));
    assert_eq!(resolve_image_id("notepad://image/abc/", &known).as_deref(), Some("abc"));
    assert_eq!(resolve_image_id("img:abc", &known).as_deref(), Some("abc"));
    assert_eq!(resolve_image_id("x/y", &known).as_deref(), Some("x/y"));
    assert_eq!(resolve_image_id("https://host/path/last", &known).as_deref(), Some("last"));
    assert_eq!(resolve_image_id("attachment://zzz", &known), None);
    assert_eq!(resolve_image_id("abc/", &known), None);
}

#[test]
fn inserted_image_marker_resolves() {
    let marker = image_marker("id-1");
    assert_eq!(marker, "\n![image](attachment://id-1)\n");
    let known = vec!["other".to_string(), "id-1".to_string()];
    assert_eq!(resolve_image_id("attachment://id-1", &known).as_deref(), Some("id-1"));
}

#[test]
fn loaded_children_put_folders_first() {
    let kids = children_nodes(
        vec![folder_rec("s1", Some("p"), "sub", 1)],
        vec![meta("n1", "p", "a"), meta("n2", "p", "b")],
    );
    assert_eq!(kids.len(), 3);
    match &kids[0] {
        TreeNode::Folder { folder, expanded, children, loaded } => {
            assert_eq!(folder.id, "s1");
            assert!(!expanded && !loaded && children.is_empty());
        }
        TreeNode::Note { .. } => panic!("folder expected first"),
    }
    assert_eq!(kids[1].id(), "n1");
    assert_eq!(kids[2].id(), "n2");
    let root = root_folder_node(folder_rec("p", None, "top", 1), kids);
    match root {
        TreeNode::Folder { expanded, loaded, children, .. } => {
            assert!(!expanded && loaded);
            assert_eq!(children.len(), 3);
        }
        TreeNode::Note { .. } => panic!("folder expected"),
    }
}

#[test]
fn created_note_becomes_a_note_node() {
    let node = note_node(Note {
        id: "n".to_string(),
        folder_id: "f".to_string(),
        title: "标题".to_string(),
        content: String::new(),
        sort_order: 4,
        created_at: String::new(),
        updated_at: String::new(),
    });
    match node {
        TreeNode::Note { meta } => {
            assert_eq!((meta.id.as_str(), meta.folder_id.as_str(), meta.title.as_str(), meta.sort_order), ("n", "f", "标题", 4));
        }
        TreeNode::Folder { .. } => panic!("note expected"),
    }
    assert_eq!(next_sort_order(0), 1);
    assert_eq!(next_sort_order(41), 42);
}

#[test]
fn preview_adds_hard_breaks_outside_code() {
    assert_eq!(preprocess_for_preview("a\nb"), "a  \nb  ");
    assert_eq!(preprocess_for_preview("a  \n\nb"), "a  \n\nb  ");
    assert_eq!(preprocess_for_preview("```\ncode\n```\nx"), "```\ncode\n```\nx  ");
    assert_eq!(preprocess_for_preview(""), "");
}

#[test]
fn status_bar_figures() {
    assert_eq!(estimate_reading_minutes(""), 1);
    assert_eq!(estimate_reading_minutes(&"字".repeat(300)), 1);
    assert_eq!(estimate_reading_minutes(&"字".repeat(301)), 2);
    assert_eq!(estimate_reading_minutes(&"a ".repeat(600)), 2);
    assert_eq!(word_count("  hello   world\nfoo "), 3);
    assert_eq!(word_count(""), 0);
    assert_eq!(date_part("2024-05-06T07:08:09Z"), "2024-05-06");
    assert_eq!(date_part("no-time"), "no-time");
}

#[test]
fn markdown_shortcut_texts() {
    assert_eq!(snippet(MdShortcut::Bold), "**粗体**");
    assert_eq!(snippet(MdShortcut::H2), "## ");
    assert_eq!(label(MdShortcut::H1), "H1");
    assert!(!tooltip(MdShortcut::Table).is_empty());
}

#[test]
fn highlight_groups_matches_by_line() {
    let matches = [
        NoteSearchMatch { line: 0, byte_column: 1, byte_len: 2 },
        NoteSearchMatch { line: 2, byte_column: 0, byte_len: 3 },
        NoteSearchMatch { line: 0, byte_column: 5, byte_len: 2 },
    ];
    let settings = SearchHighlightSettings::from_matches(&matches, Some(2));
    let mut h = SearchHighlighter::new(&settings);
    assert_eq!(
        h.highlight_line(),
        vec![
            HighlightSpan { start: 1, end: 3, kind: Highlight::Match },
            HighlightSpan { start: 5, end: 7, kind: Highlight::CurrentMatch },
        ]
    );
    assert!(h.highlight_line().is_empty());
    assert_eq!(h.highlight_line(), vec![HighlightSpan { start: 0, end: 3, kind: Highlight::Match }]);
    assert_eq!(h.current_line(), 3);
    h.change_line(0);
    assert_eq!(h.current_line(), 0);
}

#[test]
fn move_options_are_depth_first_and_sorted() {
    let folders = vec![
        folder_rec("b", None, "Beta", 2),
        folder_rec("a", None, "Alpha", 1),
        folder_rec("a2", Some("a"), "Zed", 1),
        folder_rec("a1", Some("a"), "Ann", 1),
        folder_rec("orphan", Some("missing"), "Lost", 0),
    ];
    let opts = build_move_folder_options(folders);
    let got: Vec<(&str, usize)> = opts.iter().map(|o| (o.id.as_str(), o.depth)).collect();
    assert_eq!(got, vec![("a", 0), ("a1", 1), ("a2", 1), ("b", 0)]);
    let dup = vec![folder_rec("x", None, "X", 0), folder_rec("x", None, "Y", 0)];
    let opts = build_move_folder_options(dup);
    let got: Vec<(&str, usize)> = opts.iter().map(|o| (o.name.as_str(), o.depth)).collect();
    assert_eq!(got, vec![("X", 0), ("Y", 0)]);
}

#[test]
fn session_create_flow_uses_default_names() {
    let mut s = Session::new();
    s.start_create_folder();
    s.pending_create_input_changed("   ".to_string());
    match s.confirm_create() {
        Some(CreateRequest::Folder { parent_id, name }) => {
            assert_eq!(parent_id, None);
            assert_eq!(name, "新建文件夹");
        }
        other => panic!("unexpected {other:?}"),
    }
    assert!(s.pending_create.is_none());
    assert!(!s.start_create_note());
    s.tree_loaded(vec![root_folder_node(folder_rec("f", None, "F", 1), Vec::new())]);
    assert!(s.start_create_note());
    s.pending_create_input_changed("  plan  ".to_string());
    match s.confirm_create() {
        Some(CreateRequest::Note { folder_id, name }) => {
            assert_eq!(folder_id, "f");
            assert_eq!(name, "plan");
        }
        other => panic!("unexpected {other:?}"),
    }
}

#[test]
fn escape_closes_one_layer_at_a_time() {
    let mut s = Session::new();
    s.start_create_folder();
    s.db_error("boom".to_string());
    assert_eq!(s.escape(), EscapeOutcome::CancelledCreate);
    assert_eq!(s.escape(), EscapeOutcome::DismissedError);
    assert_eq!(s.escape(), EscapeOutcome::NotHandled);
}

#[test]
fn font_size_and_theme() {
    let mut s = Session::new();
    assert!(s.dark_theme);
    s.toggle_theme();
    assert!(!s.dark_theme);
    assert_eq!(s.editor_font_size, 14);
    for _ in 0..30 {
        s.change_font_size(1);
    }
    assert_eq!(s.editor_font_size, 28);
    for _ in 0..30 {
        s.change_font_size(-1);
    }
    assert_eq!(s.editor_font_size, 10);
}

#[test]
fn preview_lines_keep_their_text() {
    let src = "# title\nplain\n```\n  code  \n```\n";
    let out = preprocess_for_preview(src);
    let a: Vec<&str> = src.split('\n').collect();
    let b: Vec<&str> = out.split('\n').collect();
    assert_eq!(a.len(), b.len());
    for (x, y) in a.iter().zip(b.iter()) {
        assert!(*y == *x || *y == format!("{x}  "));
    }
    assert_eq!(b[3], "  code  ");
}

#[test]
fn move_options_stop_at_a_cycle_of_ids() {
    let folders = vec![
        folder_rec("x", None, "A", 0),
        folder_rec("y", Some("x"), "B", 0),
        folder_rec("x", Some("y"), "C", 0),
    ];
    let opts = build_move_folder_options(folders);
    assert!(opts.iter().all(|o| o.depth < 3));
    assert_eq!(opts[0].name, "A");
}

#[test]
fn unicode_white_space_separates_words() {
    assert_eq!(word_count("一\u{3000}二\u{a0}三\u{2003}四"), 4);
    assert_eq!(word_count("a\u{200b}b"), 1);
    assert_eq!(estimate_reading_minutes("\u{3000}\u{85}"), 1);
}

#[test]
fn preparing_the_preview_twice_changes_nothing_more() {
    for text in ["a\nb", "```\nx\n```\ny  \n", "  \n\tz\r\n", "", "# h\n\n- item"] {
        let once = preprocess_for_preview(text);
        assert_eq!(preprocess_for_preview(&once), once);
    }
}
