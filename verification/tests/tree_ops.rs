use notepad::model::{Folder, NoteMeta, TreeNode};
use notepad::tree_ops::{
    add_node, ensure_expanded, find_folder_in_tree, find_name_in_tree, is_folder_loaded,
    move_note, remove_from_tree, rename_in_tree, set_children, toggle_in_tree,
};

fn folder(id: &str, loaded: bool, children: Vec<TreeNode>) -> TreeNode {
    TreeNode::Folder {
        folder: Folder {
            id: id.to_string(),
            parent_id: None,
            name: id.to_string(),
            sort_order: 0,
            created_at: String::new(),
            updated_at: String::new(),
        },
        expanded: false,
        children,
        loaded,
    }
}

fn note(id: &str, folder_id: &str, title: &str) -> TreeNode {
    TreeNode::Note {
        meta: NoteMeta {
            id: id.to_string(),
            folder_id: folder_id.to_string(),
            title: title.to_string(),
            sort_order: 0,
        },
    }
}

fn flags(tree: &[TreeNode], id: &str) -> Option<(bool, bool, usize)> {
    for node in tree {
        if let TreeNode::Folder { folder, expanded, children, loaded } = node {
            if folder.id == id {
                return Some((*expanded, *loaded, children.len()));
            }
            if let Some(found) = flags(children, id) {
                return Some(found);
            }
        }
    }
    None
}

#[test]
fn move_note_reinserts_into_loaded_target_folder() {
    let mut tree = vec![
        folder("source", true, vec![note("n1", "source", "note")]),
        folder("target", true, Vec::new()),
    ];

    move_note(
        &mut tree,
        NoteMeta {
            id: "n1".to_string(),
            folder_id: "target".to_string(),
            title: "note".to_string(),
            sort_order: 1,
        },
    );

    assert!(find_name_in_tree(&tree, "n1").is_some());
    assert_eq!(find_folder_in_tree(&tree, "n1").as_deref(), Some("target"));
}

#[test]
fn move_note_only_removes_when_target_folder_is_unloaded() {
    let mut tree = vec![
        folder("source", true, vec![note("n1", "source", "note")]),
        folder("target", false, Vec::new()),
    ];

    move_note(
        &mut tree,
        NoteMeta {
            id: "n1".to_string(),
            folder_id: "target".to_string(),
            title: "note".to_string(),
            sort_order: 1,
        },
    );

    assert!(find_name_in_tree(&tree, "n1").is_none());
}

#[test]
fn find_folder_of_folder_is_itself_and_of_note_is_parent() {
    let tree = vec![folder(
        "top",
        true,
        vec![folder("sub", true, vec![note("n", "sub", "deep")])],
    )];
    assert_eq!(find_folder_in_tree(&tree, "sub").as_deref(), Some("sub"));
    assert_eq!(find_folder_in_tree(&tree, "n").as_deref(), Some("sub"));
    assert_eq!(find_folder_in_tree(&tree, "missing"), None);
    assert_eq!(find_name_in_tree(&tree, "n").as_deref(), Some("deep"));
    assert_eq!(find_name_in_tree(&tree, "top").as_deref(), Some("top"));
}

#[test]
fn rename_then_find_gives_new_name() {
    let mut tree = vec![folder("a", true, vec![note("n", "a", "old")])];
    rename_in_tree(&mut tree, "n", "new");
    assert_eq!(find_name_in_tree(&tree, "n").as_deref(), Some("new"));
    rename_in_tree(&mut tree, "a", "renamed folder");
    assert_eq!(find_name_in_tree(&tree, "a").as_deref(), Some("renamed folder"));
}

#[test]
fn removed_node_is_gone_with_its_children() {
    let mut tree = vec![
        folder("a", true, vec![folder("b", true, vec![note("n", "b", "x")])]),
        folder("c", true, Vec::new()),
    ];
    remove_from_tree(&mut tree, "b");
    assert!(find_name_in_tree(&tree, "b").is_none());
    assert!(find_name_in_tree(&tree, "n").is_none());
    assert!(find_name_in_tree(&tree, "c").is_some());
    remove_from_tree(&mut tree, "a");
    assert_eq!(tree.len(), 1);
}

#[test]
fn add_node_appends_to_the_folder() {
    let mut tree = vec![folder("a", true, vec![note("n1", "a", "one")])];
    add_node(&mut tree, "a", note("n2", "a", "two"));
    assert_eq!(flags(&tree, "a"), Some((false, true, 2)));
    assert_eq!(find_folder_in_tree(&tree, "n2").as_deref(), Some("a"));
    add_node(&mut tree, "missing", note("n3", "missing", "three"));
    assert!(find_name_in_tree(&tree, "n3").is_none());
}

#[test]
fn set_children_replaces_and_marks_nothing_else() {
    let mut tree = vec![folder("a", false, Vec::new())];
    set_children(&mut tree, "a", vec![note("n", "a", "x"), folder("s", false, Vec::new())]);
    assert_eq!(flags(&tree, "a").map(|f| f.2), Some(2));
    assert_eq!(find_folder_in_tree(&tree, "n").as_deref(), Some("a"));
}

#[test]
fn ensure_expanded_opens_only_that_folder() {
    let mut tree = vec![folder("a", true, Vec::new()), folder("b", true, Vec::new())];
    ensure_expanded(&mut tree, "b");
    assert_eq!(flags(&tree, "a"), Some((false, true, 0)));
    assert_eq!(flags(&tree, "b"), Some((true, true, 0)));
}

#[test]
fn toggle_loads_an_unloaded_folder_once() {
    let mut tree = vec![folder("top", true, vec![folder("sub", false, Vec::new())])];
    assert_eq!(toggle_in_tree(&mut tree, "sub"), Some(true));
    assert_eq!(flags(&tree, "sub"), Some((true, true, 0)));
    assert_eq!(toggle_in_tree(&mut tree, "sub"), Some(false));
    assert_eq!(toggle_in_tree(&mut tree, "sub"), Some(false));
    assert_eq!(flags(&tree, "sub"), Some((true, true, 0)));
    assert_eq!(toggle_in_tree(&mut tree, "nothing"), None);
}

#[test]
fn toggle_twice_restores_a_loaded_folder() {
    let mut tree = vec![folder("a", true, vec![note("n", "a", "x")])];
    assert_eq!(toggle_in_tree(&mut tree, "a"), Some(false));
    assert_eq!(flags(&tree, "a"), Some((true, true, 1)));
    assert_eq!(toggle_in_tree(&mut tree, "a"), Some(false));
    assert_eq!(flags(&tree, "a"), Some((false, true, 1)));
}

#[test]
fn loaded_flag_is_reported() {
    let tree = vec![folder("a", true, vec![folder("b", false, Vec::new())])];
    assert!(is_folder_loaded(&tree, "a"));
    assert!(!is_folder_loaded(&tree, "b"));
    assert!(!is_folder_loaded(&tree, "zzz"));
}

#[test]
fn tree_node_id_and_name() {
    let f = folder("fid", true, Vec::new());
    assert_eq!(f.id(), "fid");
    assert_eq!(f.name(), "fid");
    let n = note("nid", "fid", "title");
    assert_eq!(n.id(), "nid");
    assert_eq!(n.name(), "title");
}

#[test]
fn rename_keeps_other_names() {
    let mut tree = vec![folder("a", true, vec![note("n", "a", "keep"), note("m", "a", "old")])];
    rename_in_tree(&mut tree, "m", "new");
    assert_eq!(find_name_in_tree(&tree, "n").as_deref(), Some("keep"));
    assert_eq!(find_name_in_tree(&tree, "a").as_deref(), Some("a"));
    assert_eq!(find_name_in_tree(&tree, "m").as_deref(), Some("new"));
}

#[test]
fn removing_twice_is_removing_once() {
    let mut tree = vec![folder("a", true, vec![note("n", "a", "x"), folder("n", true, Vec::new())])];
    remove_from_tree(&mut tree, "n");
    assert_eq!(flags(&tree, "a"), Some((false, true, 0)));
    remove_from_tree(&mut tree, "n");
    assert_eq!(flags(&tree, "a"), Some((false, true, 0)));
    assert_eq!(tree.len(), 1);
}

#[test]
fn adding_then_removing_restores_the_tree() {
    let mut tree = vec![folder("a", true, vec![note("n1", "a", "one")]), folder("b", false, Vec::new())];
    add_node(&mut tree, "a", note("fresh", "a", "new"));
    assert_eq!(flags(&tree, "a").map(|f| f.2), Some(2));
    remove_from_tree(&mut tree, "fresh");
    assert_eq!(flags(&tree, "a"), Some((false, true, 1)));
    assert_eq!(find_name_in_tree(&tree, "n1").as_deref(), Some("one"));
    assert!(find_name_in_tree(&tree, "fresh").is_none());
}
