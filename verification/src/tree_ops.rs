//! Operations on the sidebar tree of folders and notes.

use vstd::prelude::*;
use crate::model::{
    FolderView, NoteMeta, NoteMetaView, TreeNode, NodeView, nodes_view, node_view, lemma_nodes_view,
    lemma_nodes_view_update, lemma_nodes_view_push, lemma_nodes_view_subrange, opt_string_view, duplicate_node, duplicate_nodes,
};
use crate::text::str_eq;

verus! {

/// Name of the first node (in depth-first pre-order) whose id is `id`.
pub open spec fn find_name_spec(t: Seq<NodeView>, id: Seq<char>) -> Option<Seq<char>>
    decreases t,
{
    if t.len() == 0 {
        None
    } else if t[0].id() == id {
        Some(t[0].name())
    } else {
        let inner = match t[0] {
            NodeView::Folder { children, .. } => find_name_spec(children, id),
            NodeView::Note { .. } => None,
        };
        match inner {
            Some(n) => Some(n),
            None => find_name_spec(t.drop_first(), id),
        }
    }
}

/// Finds the name of the node with the given id.
pub fn find_name_in_tree(tree: &[TreeNode], id: &str) -> (r: Option<String>)
    ensures
        opt_string_view(r) == find_name_spec(nodes_view(tree@), id@),
    decreases tree@,
{
    let ghost v = nodes_view(tree@);
    proof {
        lemma_nodes_view(tree@);
        assert(v.subrange(0, v.len() as int) =~= v);
    }
    let mut i: usize = 0;
    while i < tree.len()
        invariant
            0 <= i <= tree@.len(),
            v == nodes_view(tree@),
            v.len() == tree@.len(),
            forall|k: int| 0 <= k < tree@.len() ==> #[trigger] v[k] == node_view(tree@[k]),
            find_name_spec(v, id@) == find_name_spec(v.subrange(i as int, v.len() as int), id@),
        decreases tree@.len() - i,
    {
        let node = &tree[i];
        let ghost rest = v.subrange(i as int, v.len() as int);
        assert(rest[0] == v[i as int]);
        assert(rest.drop_first() =~= v.subrange(i + 1, v.len() as int));
        if str_eq(node.id(), id) {
            return Some(node.name().to_string());
        }
        match node {
            TreeNode::Folder { children, .. } => {
                assert(decreases_to!(tree@ => tree@[i as int]));
                let found = find_name_in_tree(children.as_slice(), id);
                if found.is_some() {
                    return found;
                }
            },
            TreeNode::Note { .. } => {},
        }
        i = i + 1;
    }
    None
}


/// Whether `children` holds, directly, a note with the given id.
pub open spec fn holds_note(children: Seq<NodeView>, id: Seq<char>) -> bool {
    exists|j: int|
        0 <= j < children.len() && (#[trigger] children[j] matches NodeView::Note { meta }
            && meta.id == id)
}

/// The folder that "owns" `id`, searched depth first: a folder with that id
/// owns itself (nested folders are searched before the notes that a folder
/// holds directly), and a note is owned by the folder that directly holds it.
pub open spec fn find_folder_spec(t: Seq<NodeView>, id: Seq<char>) -> Option<Seq<char>>
    decreases t,
{
    if t.len() == 0 {
        None
    } else {
        match t[0] {
            NodeView::Folder { folder, children, .. } => {
                if folder.id == id {
                    Some(folder.id)
                } else {
                    match find_folder_spec(children, id) {
                        Some(f) => Some(f),
                        None => if holds_note(children, id) {
                            Some(folder.id)
                        } else {
                            find_folder_spec(t.drop_first(), id)
                        },
                    }
                }
            },
            NodeView::Note { .. } => find_folder_spec(t.drop_first(), id),
        }
    }
}

/// Whether `children` directly holds a note with the given id.
fn holds_note_exec(children: &[TreeNode], id: &str) -> (r: bool)
    ensures
        r == holds_note(nodes_view(children@), id@),
{
    let ghost cv = nodes_view(children@);
    proof {
        lemma_nodes_view(children@);
    }
    let mut j: usize = 0;
    while j < children.len()
        invariant
            0 <= j <= children@.len(),
            cv == nodes_view(children@),
            cv.len() == children@.len(),
            forall|k: int| 0 <= k < children@.len() ==> #[trigger] cv[k] == node_view(children@[k]),
            forall|k: int|
                0 <= k < j ==> !(#[trigger] cv[k] matches NodeView::Note { meta } && meta.id == id@),
        decreases children@.len() - j,
    {
        match &children[j] {
            TreeNode::Note { meta } => {
                if str_eq(meta.id.as_str(), id) {
                    assert(cv[j as int] matches NodeView::Note { meta } && meta.id == id@);
                    return true;
                }
            },
            TreeNode::Folder { .. } => {},
        }
        j = j + 1;
    }
    false
}

/// Finds the id of the folder that `id` belongs to: the folder itself when
/// `id` names a folder, the folder directly holding the note otherwise.
pub fn find_folder_in_tree(tree: &[TreeNode], id: &str) -> (r: Option<String>)
    ensures
        opt_string_view(r) == find_folder_spec(nodes_view(tree@), id@),
    decreases tree@,
{
    let ghost v = nodes_view(tree@);
    proof {
        lemma_nodes_view(tree@);
        assert(v.subrange(0, v.len() as int) =~= v);
    }
    let mut i: usize = 0;
    while i < tree.len()
        invariant
            0 <= i <= tree@.len(),
            v == nodes_view(tree@),
            v.len() == tree@.len(),
            forall|k: int| 0 <= k < tree@.len() ==> #[trigger] v[k] == node_view(tree@[k]),
            find_folder_spec(v, id@) == find_folder_spec(v.subrange(i as int, v.len() as int), id@),
        decreases tree@.len() - i,
    {
        let node = &tree[i];
        let ghost rest = v.subrange(i as int, v.len() as int);
        assert(rest[0] == v[i as int]);
        assert(rest.drop_first() =~= v.subrange(i + 1, v.len() as int));
        match node {
            TreeNode::Folder { folder, children, .. } => {
                if str_eq(folder.id.as_str(), id) {
                    return Some(folder.id.clone());
                }
                assert(decreases_to!(tree@ => tree@[i as int]));
                let found = find_folder_in_tree(children.as_slice(), id);
                if found.is_some() {
                    return found;
                }
                if holds_note_exec(children.as_slice(), id) {
                    return Some(folder.id.clone());
                }
            },
            TreeNode::Note { .. } => {},
        }
        i = i + 1;
    }
    None
}

/// The tree after renaming the first node (pre-order, one level at a time)
/// whose id is `id`: a folder gets the new name, a note the new title.
pub open spec fn rename_spec(t: Seq<NodeView>, id: Seq<char>, name: Seq<char>) -> Seq<NodeView>
    decreases t,
{
    if t.len() == 0 {
        t
    } else {
        match t[0] {
            NodeView::Folder { folder, expanded, children, loaded } => {
                if folder.id == id {
                    seq![
                        NodeView::Folder {
                            folder: FolderView {
                                id: folder.id,
                                parent_id: folder.parent_id,
                                name: name,
                                sort_order: folder.sort_order,
                                created_at: folder.created_at,
                                updated_at: folder.updated_at,
                            },
                            expanded,
                            children,
                            loaded,
                        },
                    ] + t.drop_first()
                } else {
                    seq![
                        NodeView::Folder {
                            folder,
                            expanded,
                            children: rename_spec(children, id, name),
                            loaded,
                        },
                    ] + rename_spec(t.drop_first(), id, name)
                }
            },
            NodeView::Note { meta } => {
                if meta.id == id {
                    seq![
                        NodeView::Note {
                            meta: NoteMetaView {
                                id: meta.id,
                                folder_id: meta.folder_id,
                                title: name,
                                sort_order: meta.sort_order,
                            },
                        },
                    ] + t.drop_first()
                } else {
                    seq![t[0]] + rename_spec(t.drop_first(), id, name)
                }
            },
        }
    }
}

/// Renames the node with the given id (a folder's name, a note's title).
pub fn rename_in_tree(tree: &mut Vec<TreeNode>, id: &str, new_name: &str)
    ensures
        nodes_view(final(tree)@) == rename_spec(nodes_view(old(tree)@), id@, new_name@),
    decreases old(tree)@,
{
    let ghost v0 = nodes_view(tree@);
    let ghost len = tree@.len() as int;
    proof {
        lemma_nodes_view(tree@);
        assert(v0.subrange(0, len) =~= v0);
        assert(nodes_view(tree@).subrange(0, 0) =~= Seq::<NodeView>::empty());
    }
    let mut i: usize = 0;
    while i < tree.len()
        invariant
            0 <= i <= len,
            tree@.len() == len,
            old(tree)@.len() == len,
            v0 == nodes_view(old(tree)@),
            v0.len() == len,
            forall|k: int| 0 <= k < len ==> #[trigger] v0[k] == node_view(old(tree)@[k]),
            forall|k: int| i <= k < len ==> #[trigger] tree@[k] == old(tree)@[k],
            rename_spec(v0, id@, new_name@) == nodes_view(tree@).subrange(0, i as int)
                + rename_spec(v0.subrange(i as int, len), id@, new_name@),
        decreases len - i,
    {
        let ghost prev = tree@;
        let ghost rest = v0.subrange(i as int, len);
        proof {
            assert(rest[0] == v0[i as int]);
            assert(rest.drop_first() =~= v0.subrange(i + 1, len));
            lemma_nodes_view(prev);
            assert(decreases_to!(old(tree)@ => old(tree)@[i as int]));
        }
        let done = match &mut tree[i] {
            TreeNode::Folder { folder, children, .. } => {
                if str_eq(folder.id.as_str(), id) {
                    folder.name = new_name.to_string();
                    true
                } else {
                    rename_in_tree(children, id, new_name);
                    false
                }
            },
            TreeNode::Note { meta } => {
                if str_eq(meta.id.as_str(), id) {
                    meta.title = new_name.to_string();
                    true
                } else {
                    false
                }
            },
        };
        proof {
            lemma_nodes_view_update(prev, i as int, tree@[i as int]);
            assert(tree@ =~= prev.update(i as int, tree@[i as int]));
            lemma_nodes_view(tree@);
        }
        if done {
            proof {
                assert(nodes_view(tree@) =~= nodes_view(prev).subrange(0, i as int) + rename_spec(
                    rest,
                    id@,
                    new_name@,
                ));
            }
            return;
        }
        proof {
            assert(nodes_view(tree@).subrange(0, i + 1) =~= nodes_view(prev).subrange(0, i as int)
                + rename_spec(rest, id@, new_name@).subrange(0, 1));
        }
        i = i + 1;
    }
    proof {
        lemma_nodes_view(tree@);
        assert(nodes_view(tree@).subrange(0, len) =~= nodes_view(tree@));
    }
}

/// The tree after giving the folder `fid` the children `new`: the first
/// folder with that id at each level takes them and ends that level; the
/// subtrees of the folders before it are searched too.
pub open spec fn set_children_spec(t: Seq<NodeView>, fid: Seq<char>, new: Seq<NodeView>) -> Seq<
    NodeView,
>
    decreases t,
{
    if t.len() == 0 {
        t
    } else {
        match t[0] {
            NodeView::Folder { folder, expanded, children, loaded } => {
                if folder.id == fid {
                    seq![NodeView::Folder { folder, expanded, children: new, loaded }]
                        + t.drop_first()
                } else {
                    seq![
                        NodeView::Folder {
                            folder,
                            expanded,
                            children: set_children_spec(children, fid, new),
                            loaded,
                        },
                    ] + set_children_spec(t.drop_first(), fid, new)
                }
            },
            NodeView::Note { .. } => seq![t[0]] + set_children_spec(t.drop_first(), fid, new),
        }
    }
}

/// Replaces the children of the folder `folder_id`.
pub fn set_children(tree: &mut Vec<TreeNode>, folder_id: &str, new_children: Vec<TreeNode>)
    ensures
        nodes_view(final(tree)@) == set_children_spec(
            nodes_view(old(tree)@),
            folder_id@,
            nodes_view(new_children@),
        ),
    decreases old(tree)@,
{
    let ghost v0 = nodes_view(tree@);
    let ghost nv = nodes_view(new_children@);
    let ghost len = tree@.len() as int;
    proof {
        lemma_nodes_view(tree@);
        assert(v0.subrange(0, len) =~= v0);
        assert(nodes_view(tree@).subrange(0, 0) =~= Seq::<NodeView>::empty());
    }
    let mut i: usize = 0;
    while i < tree.len()
        invariant
            0 <= i <= len,
            tree@.len() == len,
            old(tree)@.len() == len,
            v0 == nodes_view(old(tree)@),
            v0.len() == len,
            nv == nodes_view(new_children@),
            forall|k: int| 0 <= k < len ==> #[trigger] v0[k] == node_view(old(tree)@[k]),
            forall|k: int| i <= k < len ==> #[trigger] tree@[k] == old(tree)@[k],
            set_children_spec(v0, folder_id@, nv) == nodes_view(tree@).subrange(0, i as int)
                + set_children_spec(v0.subrange(i as int, len), folder_id@, nv),
        decreases len - i,
    {
        let ghost prev = tree@;
        let ghost rest = v0.subrange(i as int, len);
        proof {
            assert(rest[0] == v0[i as int]);
            assert(rest.drop_first() =~= v0.subrange(i + 1, len));
            lemma_nodes_view(prev);
            assert(decreases_to!(old(tree)@ => old(tree)@[i as int]));
        }
        let is_target = match &tree[i] {
            TreeNode::Folder { folder, .. } => str_eq(folder.id.as_str(), folder_id),
            TreeNode::Note { .. } => false,
        };
        if is_target {
            match &mut tree[i] {
                TreeNode::Folder { children, .. } => {
                    *children = new_children;
                },
                TreeNode::Note { .. } => {},
            }
            proof {
                lemma_nodes_view_update(prev, i as int, tree@[i as int]);
                assert(tree@ =~= prev.update(i as int, tree@[i as int]));
                lemma_nodes_view(tree@);
                assert(nodes_view(tree@) =~= nodes_view(prev).subrange(0, i as int)
                    + set_children_spec(rest, folder_id@, nv));
            }
            return;
        }
        match &mut tree[i] {
            TreeNode::Folder { children, .. } => {
                let copy = duplicate_nodes(new_children.as_slice());
                set_children(children, folder_id, copy);
            },
            TreeNode::Note { .. } => {},
        }
        proof {
            lemma_nodes_view_update(prev, i as int, tree@[i as int]);
            assert(tree@ =~= prev.update(i as int, tree@[i as int]));
            lemma_nodes_view(tree@);
            assert(nodes_view(tree@).subrange(0, i + 1) =~= nodes_view(prev).subrange(0, i as int)
                + set_children_spec(rest, folder_id@, nv).subrange(0, 1));
        }
        i = i + 1;
    }
    proof {
        lemma_nodes_view(tree@);
        assert(nodes_view(tree@).subrange(0, len) =~= nodes_view(tree@));
    }
}

/// The tree after appending `node` to the children of the folder `fid`
/// (same search order as [`set_children_spec`]).
pub open spec fn add_node_spec(t: Seq<NodeView>, fid: Seq<char>, node: NodeView) -> Seq<NodeView>
    decreases t,
{
    if t.len() == 0 {
        t
    } else {
        match t[0] {
            NodeView::Folder { folder, expanded, children, loaded } => {
                if folder.id == fid {
                    seq![NodeView::Folder { folder, expanded, children: children.push(node), loaded }]
                        + t.drop_first()
                } else {
                    seq![
                        NodeView::Folder {
                            folder,
                            expanded,
                            children: add_node_spec(children, fid, node),
                            loaded,
                        },
                    ] + add_node_spec(t.drop_first(), fid, node)
                }
            },
            NodeView::Note { .. } => seq![t[0]] + add_node_spec(t.drop_first(), fid, node),
        }
    }
}

/// Appends `node` to the children of the folder `folder_id`.
pub fn add_node(tree: &mut Vec<TreeNode>, folder_id: &str, node: TreeNode)
    ensures
        nodes_view(final(tree)@) == add_node_spec(nodes_view(old(tree)@), folder_id@, node@),
    decreases old(tree)@,
{
    let ghost v0 = nodes_view(tree@);
    let ghost len = tree@.len() as int;
    proof {
        lemma_nodes_view(tree@);
        assert(v0.subrange(0, len) =~= v0);
        assert(nodes_view(tree@).subrange(0, 0) =~= Seq::<NodeView>::empty());
    }
    let mut i: usize = 0;
    while i < tree.len()
        invariant
            0 <= i <= len,
            tree@.len() == len,
            old(tree)@.len() == len,
            v0 == nodes_view(old(tree)@),
            v0.len() == len,
            forall|k: int| 0 <= k < len ==> #[trigger] v0[k] == node_view(old(tree)@[k]),
            forall|k: int| i <= k < len ==> #[trigger] tree@[k] == old(tree)@[k],
            add_node_spec(v0, folder_id@, node@) == nodes_view(tree@).subrange(0, i as int)
                + add_node_spec(v0.subrange(i as int, len), folder_id@, node@),
        decreases len - i,
    {
        let ghost prev = tree@;
        let ghost rest = v0.subrange(i as int, len);
        proof {
            assert(rest[0] == v0[i as int]);
            assert(rest.drop_first() =~= v0.subrange(i + 1, len));
            lemma_nodes_view(prev);
            assert(decreases_to!(old(tree)@ => old(tree)@[i as int]));
        }
        let is_target = match &tree[i] {
            TreeNode::Folder { folder, .. } => str_eq(folder.id.as_str(), folder_id),
            TreeNode::Note { .. } => false,
        };
        if is_target {
            match &mut tree[i] {
                TreeNode::Folder { children, .. } => {
                    let ghost c0 = children@;
                    children.push(node);
                    proof {
                        lemma_nodes_view_push(c0, node);
                    }
                },
                TreeNode::Note { .. } => {},
            }
            proof {
                lemma_nodes_view_update(prev, i as int, tree@[i as int]);
                assert(tree@ =~= prev.update(i as int, tree@[i as int]));
                lemma_nodes_view(tree@);
                assert(nodes_view(tree@) =~= nodes_view(prev).subrange(0, i as int)
                    + add_node_spec(rest, folder_id@, node@));
            }
            return;
        }
        match &mut tree[i] {
            TreeNode::Folder { children, .. } => {
                let copy = duplicate_node(&node);
                add_node(children, folder_id, copy);
            },
            TreeNode::Note { .. } => {},
        }
        proof {
            lemma_nodes_view_update(prev, i as int, tree@[i as int]);
            assert(tree@ =~= prev.update(i as int, tree@[i as int]));
            lemma_nodes_view(tree@);
            assert(nodes_view(tree@).subrange(0, i + 1) =~= nodes_view(prev).subrange(0, i as int)
                + add_node_spec(rest, folder_id@, node@).subrange(0, 1));
        }
        i = i + 1;
    }
    proof {
        lemma_nodes_view(tree@);
        assert(nodes_view(tree@).subrange(0, len) =~= nodes_view(tree@));
    }
}

/// The tree after marking the folder `fid` expanded (same search order as
/// [`set_children_spec`]); nothing is loaded.
pub open spec fn expand_spec(t: Seq<NodeView>, fid: Seq<char>) -> Seq<NodeView>
    decreases t,
{
    if t.len() == 0 {
        t
    } else {
        match t[0] {
            NodeView::Folder { folder, expanded, children, loaded } => {
                if folder.id == fid {
                    seq![NodeView::Folder { folder, expanded: true, children, loaded }]
                        + t.drop_first()
                } else {
                    seq![
                        NodeView::Folder {
                            folder,
                            expanded,
                            children: expand_spec(children, fid),
                            loaded,
                        },
                    ] + expand_spec(t.drop_first(), fid)
                }
            },
            NodeView::Note { .. } => seq![t[0]] + expand_spec(t.drop_first(), fid),
        }
    }
}

/// Makes sure the folder `folder_id` is expanded, without loading anything.
pub fn ensure_expanded(tree: &mut Vec<TreeNode>, folder_id: &str)
    ensures
        nodes_view(final(tree)@) == expand_spec(nodes_view(old(tree)@), folder_id@),
    decreases old(tree)@,
{
    let ghost v0 = nodes_view(tree@);
    let ghost len = tree@.len() as int;
    proof {
        lemma_nodes_view(tree@);
        assert(v0.subrange(0, len) =~= v0);
        assert(nodes_view(tree@).subrange(0, 0) =~= Seq::<NodeView>::empty());
    }
    let mut i: usize = 0;
    while i < tree.len()
        invariant
            0 <= i <= len,
            tree@.len() == len,
            old(tree)@.len() == len,
            v0 == nodes_view(old(tree)@),
            v0.len() == len,
            forall|k: int| 0 <= k < len ==> #[trigger] v0[k] == node_view(old(tree)@[k]),
            forall|k: int| i <= k < len ==> #[trigger] tree@[k] == old(tree)@[k],
            expand_spec(v0, folder_id@) == nodes_view(tree@).subrange(0, i as int) + expand_spec(
                v0.subrange(i as int, len),
                folder_id@,
            ),
        decreases len - i,
    {
        let ghost prev = tree@;
        let ghost rest = v0.subrange(i as int, len);
        proof {
            assert(rest[0] == v0[i as int]);
            assert(rest.drop_first() =~= v0.subrange(i + 1, len));
            lemma_nodes_view(prev);
            assert(decreases_to!(old(tree)@ => old(tree)@[i as int]));
        }
        let done = match &mut tree[i] {
            TreeNode::Folder { folder, expanded, children, .. } => {
                if str_eq(folder.id.as_str(), folder_id) {
                    *expanded = true;
                    true
                } else {
                    ensure_expanded(children, folder_id);
                    false
                }
            },
            TreeNode::Note { .. } => false,
        };
        proof {
            lemma_nodes_view_update(prev, i as int, tree@[i as int]);
            assert(tree@ =~= prev.update(i as int, tree@[i as int]));
            lemma_nodes_view(tree@);
        }
        if done {
            proof {
                assert(nodes_view(tree@) =~= nodes_view(prev).subrange(0, i as int) + expand_spec(
                    rest,
                    folder_id@,
                ));
            }
            return;
        }
        proof {
            assert(nodes_view(tree@).subrange(0, i + 1) =~= nodes_view(prev).subrange(0, i as int)
                + expand_spec(rest, folder_id@).subrange(0, 1));
        }
        i = i + 1;
    }
    proof {
        lemma_nodes_view(tree@);
        assert(nodes_view(tree@).subrange(0, len) =~= nodes_view(tree@));
    }
}

/// The tree with every node whose id is `id` dropped, at every depth.
pub open spec fn remove_spec(t: Seq<NodeView>, id: Seq<char>) -> Seq<NodeView>
    decreases t,
{
    if t.len() == 0 {
        t
    } else if t[0].id() == id {
        remove_spec(t.drop_first(), id)
    } else {
        let head = match t[0] {
            NodeView::Folder { folder, expanded, children, loaded } => NodeView::Folder {
                folder,
                expanded,
                children: remove_spec(children, id),
                loaded,
            },
            NodeView::Note { meta } => NodeView::Note { meta },
        };
        seq![head] + remove_spec(t.drop_first(), id)
    }
}

/// Removes every node with the given id, at every depth.
pub fn remove_from_tree(tree: &mut Vec<TreeNode>, id: &str)
    ensures
        nodes_view(final(tree)@) == remove_spec(nodes_view(old(tree)@), id@),
    decreases old(tree)@,
{
    let ghost v0 = nodes_view(tree@);
    let ghost len = tree@.len() as int;
    let ghost mut j: int = 0;
    proof {
        lemma_nodes_view(tree@);
        assert(v0.subrange(0, len) =~= v0);
        assert(nodes_view(tree@).subrange(0, 0) =~= Seq::<NodeView>::empty());
        assert(tree@.subrange(0, tree@.len() as int) =~= old(tree)@.subrange(0, len));
    }
    let mut i: usize = 0;
    while i < tree.len()
        invariant
            0 <= i <= j <= len,
            tree@.len() - i == len - j,
            old(tree)@.len() == len,
            v0 == nodes_view(old(tree)@),
            v0.len() == len,
            forall|k: int| 0 <= k < len ==> #[trigger] v0[k] == node_view(old(tree)@[k]),
            tree@.subrange(i as int, tree@.len() as int) == old(tree)@.subrange(j, len),
            remove_spec(v0, id@) == nodes_view(tree@).subrange(0, i as int) + remove_spec(
                v0.subrange(j, len),
                id@,
            ),
        decreases len - j,
    {
        let ghost prev = tree@;
        let ghost rest = v0.subrange(j, len);
        proof {
            assert(prev[i as int] == prev.subrange(i as int, prev.len() as int)[0]);
            assert(old(tree)@[j] == old(tree)@.subrange(j, len)[0]);
            assert(rest[0] == v0[j]);
            assert(rest.drop_first() =~= v0.subrange(j + 1, len));
            lemma_nodes_view(prev);
            assert(decreases_to!(old(tree)@ => old(tree)@[j]));
        }
        if str_eq(tree[i].id(), id) {
            tree.remove(i);
            proof {
                assert forall|m: int| 0 <= m < len - j - 1 implies #[trigger] tree@.subrange(
                    i as int,
                    tree@.len() as int,
                )[m] == old(tree)@.subrange(j + 1, len)[m] by {
                    assert(prev.subrange(i as int, prev.len() as int)[m + 1] == old(
                        tree,
                    )@.subrange(j, len)[m + 1]);
                }
                assert(tree@.subrange(i as int, tree@.len() as int) =~= old(tree)@.subrange(
                    j + 1,
                    len,
                ));
                lemma_nodes_view_subrange(prev, 0, i as int);
                lemma_nodes_view_subrange(tree@, 0, i as int);
                assert(tree@.subrange(0, i as int) =~= prev.subrange(0, i as int));
                j = j + 1;
            }
        } else {
            match &mut tree[i] {
                TreeNode::Folder { children, .. } => {
                    remove_from_tree(children, id);
                },
                TreeNode::Note { .. } => {},
            }
            proof {
                lemma_nodes_view_update(prev, i as int, tree@[i as int]);
                assert(tree@ =~= prev.update(i as int, tree@[i as int]));
                lemma_nodes_view(tree@);
                assert(nodes_view(tree@).subrange(0, i + 1) =~= nodes_view(prev).subrange(
                    0,
                    i as int,
                ) + remove_spec(rest, id@).subrange(0, 1));
                assert forall|m: int| 0 <= m < len - j - 1 implies #[trigger] tree@.subrange(
                    i + 1,
                    tree@.len() as int,
                )[m] == old(tree)@.subrange(j + 1, len)[m] by {
                    assert(prev.subrange(i as int, prev.len() as int)[m + 1] == old(
                        tree,
                    )@.subrange(j, len)[m + 1]);
                }
                assert(tree@.subrange(i + 1, tree@.len() as int) =~= old(tree)@.subrange(
                    j + 1,
                    len,
                ));
                j = j + 1;
            }
            i = i + 1;
        }
    }
    proof {
        lemma_nodes_view(tree@);
        assert(nodes_view(tree@).subrange(0, i as int) =~= nodes_view(tree@));
        assert(v0.subrange(j, len) =~= Seq::<NodeView>::empty());
    }
}

/// Whether the first folder found with id `fid` has its children loaded
/// (a nested folder found loaded counts too).
pub open spec fn loaded_spec(t: Seq<NodeView>, fid: Seq<char>) -> bool
    decreases t,
{
    if t.len() == 0 {
        false
    } else {
        match t[0] {
            NodeView::Folder { folder, children, loaded, .. } => {
                if folder.id == fid {
                    loaded
                } else if loaded_spec(children, fid) {
                    true
                } else {
                    loaded_spec(t.drop_first(), fid)
                }
            },
            NodeView::Note { .. } => loaded_spec(t.drop_first(), fid),
        }
    }
}

/// Whether the folder `folder_id` is in the tree with its children loaded.
pub fn is_folder_loaded(tree: &[TreeNode], folder_id: &str) -> (r: bool)
    ensures
        r == loaded_spec(nodes_view(tree@), folder_id@),
    decreases tree@,
{
    let ghost v = nodes_view(tree@);
    proof {
        lemma_nodes_view(tree@);
        assert(v.subrange(0, v.len() as int) =~= v);
    }
    let mut i: usize = 0;
    while i < tree.len()
        invariant
            0 <= i <= tree@.len(),
            v == nodes_view(tree@),
            v.len() == tree@.len(),
            forall|k: int| 0 <= k < tree@.len() ==> #[trigger] v[k] == node_view(tree@[k]),
            loaded_spec(v, folder_id@) == loaded_spec(v.subrange(i as int, v.len() as int), folder_id@),
        decreases tree@.len() - i,
    {
        let ghost rest = v.subrange(i as int, v.len() as int);
        assert(rest[0] == v[i as int]);
        assert(rest.drop_first() =~= v.subrange(i + 1, v.len() as int));
        match &tree[i] {
            TreeNode::Folder { folder, children, loaded, .. } => {
                if str_eq(folder.id.as_str(), folder_id) {
                    return *loaded;
                }
                assert(decreases_to!(tree@ => tree@[i as int]));
                if is_folder_loaded(children.as_slice(), folder_id) {
                    return true;
                }
            },
            TreeNode::Note { .. } => {},
        }
        i = i + 1;
    }
    false
}

/// The tree after a note has been moved to the folder named in `meta`: the
/// note leaves its old place, and appears in the target folder only when
/// that folder's children are loaded.
pub open spec fn move_note_spec(t: Seq<NodeView>, meta: NoteMetaView) -> Seq<NodeView> {
    let removed = remove_spec(t, meta.id);
    if loaded_spec(removed, meta.folder_id) {
        add_node_spec(removed, meta.folder_id, NodeView::Note { meta })
    } else {
        removed
    }
}

/// Applies a completed move of a note to the tree: it is taken out of its
/// old place and, if the target folder is loaded, appended to it; otherwise
/// the target is reloaded from storage when it is next expanded.
pub fn move_note(tree: &mut Vec<TreeNode>, meta: NoteMeta)
    ensures
        nodes_view(final(tree)@) == move_note_spec(nodes_view(old(tree)@), meta@),
{
    let target_folder_id = meta.folder_id.clone();
    remove_from_tree(tree, meta.id.as_str());
    if is_folder_loaded(tree.as_slice(), target_folder_id.as_str()) {
        add_node(tree, target_folder_id.as_str(), TreeNode::Note { meta });
    }
}

/// The tree after toggling the folder `id`, and what was found: `None` when
/// no such folder exists, `Some(load)` otherwise, where `load` tells that the
/// folder has just been expanded for the first time and its children must be
/// fetched (it is then marked loaded).
pub open spec fn toggle_spec(t: Seq<NodeView>, id: Seq<char>) -> (Seq<NodeView>, Option<bool>)
    decreases t,
{
    if t.len() == 0 {
        (t, None)
    } else {
        match t[0] {
            NodeView::Folder { folder, expanded, children, loaded } => {
                if folder.id == id {
                    let load = !expanded && !loaded;
                    (
                        seq![
                            NodeView::Folder {
                                folder,
                                expanded: !expanded,
                                children,
                                loaded: loaded || load,
                            },
                        ] + t.drop_first(),
                        Some(load),
                    )
                } else {
                    let inner = toggle_spec(children, id);
                    let head = NodeView::Folder { folder, expanded, children: inner.0, loaded };
                    match inner.1 {
                        Some(b) => (seq![head] + t.drop_first(), Some(b)),
                        None => {
                            let rest = toggle_spec(t.drop_first(), id);
                            (seq![head] + rest.0, rest.1)
                        },
                    }
                }
            },
            NodeView::Note { .. } => {
                let rest = toggle_spec(t.drop_first(), id);
                (seq![t[0]] + rest.0, rest.1)
            },
        }
    }
}

/// Toggles the folder `id` open or closed. Returns `None` when there is no
/// such folder, else whether its children must now be loaded.
pub fn toggle_in_tree(tree: &mut Vec<TreeNode>, id: &str) -> (r: Option<bool>)
    ensures
        (nodes_view(final(tree)@), r) == toggle_spec(nodes_view(old(tree)@), id@),
    decreases old(tree)@,
{
    let ghost v0 = nodes_view(tree@);
    let ghost len = tree@.len() as int;
    proof {
        lemma_nodes_view(tree@);
        assert(v0.subrange(0, len) =~= v0);
        assert(nodes_view(tree@).subrange(0, 0) =~= Seq::<NodeView>::empty());
    }
    let mut i: usize = 0;
    while i < tree.len()
        invariant
            0 <= i <= len,
            tree@.len() == len,
            old(tree)@.len() == len,
            v0 == nodes_view(old(tree)@),
            v0.len() == len,
            forall|k: int| 0 <= k < len ==> #[trigger] v0[k] == node_view(old(tree)@[k]),
            forall|k: int| i <= k < len ==> #[trigger] tree@[k] == old(tree)@[k],
            toggle_spec(v0, id@).1 == toggle_spec(v0.subrange(i as int, len), id@).1,
            toggle_spec(v0, id@).0 == nodes_view(tree@).subrange(0, i as int) + toggle_spec(
                v0.subrange(i as int, len),
                id@,
            ).0,
        decreases len - i,
    {
        let ghost prev = tree@;
        let ghost rest = v0.subrange(i as int, len);
        proof {
            assert(rest[0] == v0[i as int]);
            assert(rest.drop_first() =~= v0.subrange(i + 1, len));
            lemma_nodes_view(prev);
            assert(decreases_to!(old(tree)@ => old(tree)@[i as int]));
        }
        let found = match &mut tree[i] {
            TreeNode::Folder { folder, expanded, children, loaded } => {
                if str_eq(folder.id.as_str(), id) {
                    *expanded = !*expanded;
                    if *expanded && !*loaded {
                        *loaded = true;
                        Some(true)
                    } else {
                        Some(false)
                    }
                } else {
                    toggle_in_tree(children, id)
                }
            },
            TreeNode::Note { .. } => None,
        };
        proof {
            lemma_nodes_view_update(prev, i as int, tree@[i as int]);
            assert(tree@ =~= prev.update(i as int, tree@[i as int]));
            lemma_nodes_view(tree@);
        }
        if found.is_some() {
            proof {
                assert(nodes_view(tree@) =~= nodes_view(prev).subrange(0, i as int) + toggle_spec(
                    rest,
                    id@,
                ).0);
            }
            return found;
        }
        proof {
            assert(nodes_view(tree@).subrange(0, i + 1) =~= nodes_view(prev).subrange(0, i as int)
                + toggle_spec(rest, id@).0.subrange(0, 1));
        }
        i = i + 1;
    }
    proof {
        lemma_nodes_view(tree@);
        assert(nodes_view(tree@).subrange(0, len) =~= nodes_view(tree@));
        assert(v0.subrange(len, len) =~= Seq::<NodeView>::empty());
    }
    None
}

/// Whether some node, at any depth, has the id `id`.
pub open spec fn occurs(t: Seq<NodeView>, id: Seq<char>) -> bool
    decreases t,
{
    if t.len() == 0 {
        false
    } else {
        ||| t[0].id() == id
        ||| (match t[0] {
            NodeView::Folder { children, .. } => occurs(children, id),
            NodeView::Note { .. } => false,
        })
        ||| occurs(t.drop_first(), id)
    }
}

/// Whether some folder, at any depth, has the id `fid`.
pub open spec fn folder_exists(t: Seq<NodeView>, fid: Seq<char>) -> bool
    decreases t,
{
    if t.len() == 0 {
        false
    } else {
        ||| (match t[0] {
            NodeView::Folder { folder, children, .. } => folder.id == fid || folder_exists(
                children,
                fid,
            ),
            NodeView::Note { .. } => false,
        })
        ||| folder_exists(t.drop_first(), fid)
    }
}

proof fn lemma_cons<A>(h: A, r: Seq<A>)
    ensures
        (seq![h] + r)[0] == h,
        (seq![h] + r).drop_first() == r,
        (seq![h] + r).len() == r.len() + 1,
{
    assert((seq![h] + r).drop_first() =~= r);
}

/// A name is found exactly when the id occurs somewhere.
proof fn lemma_find_name_occurs(t: Seq<NodeView>, id: Seq<char>)
    ensures
        find_name_spec(t, id).is_some() == occurs(t, id),
    decreases t,
{
    if t.len() > 0 {
        if let NodeView::Folder { children, .. } = t[0] {
            lemma_find_name_occurs(children, id);
        }
        lemma_find_name_occurs(t.drop_first(), id);
    }
}

/// No owning folder is found for an id that occurs nowhere.
proof fn lemma_find_folder_absent(t: Seq<NodeView>, id: Seq<char>)
    requires
        !occurs(t, id),
    ensures
        find_folder_spec(t, id).is_none(),
    decreases t,
{
    if t.len() > 0 {
        if let NodeView::Folder { children, .. } = t[0] {
            lemma_find_folder_absent(children, id);
            assert(!holds_note(children, id)) by {
                if holds_note(children, id) {
                    let j = choose|j: int|
                        0 <= j < children.len() && (#[trigger] children[j] matches NodeView::Note {
                            meta,
                        } && meta.id == id);
                    lemma_occurs_at(children, id, j);
                }
            }
        }
        lemma_find_folder_absent(t.drop_first(), id);
    }
}

/// An id held by the node at index `j` occurs.
proof fn lemma_occurs_at(t: Seq<NodeView>, id: Seq<char>, j: int)
    requires
        0 <= j < t.len(),
        t[j].id() == id,
    ensures
        occurs(t, id),
    decreases j,
{
    if j > 0 {
        lemma_occurs_at(t.drop_first(), id, j - 1);
    }
}

/// Removing an id removes every node that has it, at every depth.
pub proof fn law_removed_id_is_gone(t: Seq<NodeView>, id: Seq<char>)
    ensures
        !occurs(remove_spec(t, id), id),
        find_name_spec(remove_spec(t, id), id).is_none(),
        find_folder_spec(remove_spec(t, id), id).is_none(),
    decreases t,
{
    if t.len() > 0 {
        law_removed_id_is_gone(t.drop_first(), id);
        if t[0].id() != id {
            let r = remove_spec(t, id);
            let rest = remove_spec(t.drop_first(), id);
            let head = match t[0] {
                NodeView::Folder { folder, expanded, children, loaded } => NodeView::Folder {
                    folder,
                    expanded,
                    children: remove_spec(children, id),
                    loaded,
                },
                NodeView::Note { meta } => NodeView::Note { meta },
            };
            lemma_cons(head, rest);
            if let NodeView::Folder { children, .. } = t[0] {
                law_removed_id_is_gone(children, id);
            }
        }
    }
    lemma_find_name_occurs(remove_spec(t, id), id);
    lemma_find_folder_absent(remove_spec(t, id), id);
}

/// Renaming keeps every id where it was.
proof fn lemma_rename_keeps_ids(t: Seq<NodeView>, id: Seq<char>, name: Seq<char>, x: Seq<char>)
    ensures
        occurs(rename_spec(t, id, name), x) == occurs(t, x),
    decreases t,
{
    if t.len() > 0 {
        lemma_rename_keeps_ids(t.drop_first(), id, name, x);
        match t[0] {
            NodeView::Folder { folder, expanded, children, loaded } => {
                lemma_rename_keeps_ids(children, id, name, x);
                if folder.id == id {
                    let head = NodeView::Folder {
                        folder: FolderView {
                            id: folder.id,
                            parent_id: folder.parent_id,
                            name: name,
                            sort_order: folder.sort_order,
                            created_at: folder.created_at,
                            updated_at: folder.updated_at,
                        },
                        expanded,
                        children,
                        loaded,
                    };
                    lemma_cons(head, t.drop_first());
                } else {
                    let head = NodeView::Folder {
                        folder,
                        expanded,
                        children: rename_spec(children, id, name),
                        loaded,
                    };
                    lemma_cons(head, rename_spec(t.drop_first(), id, name));
                }
            },
            NodeView::Note { meta } => {
                if meta.id == id {
                    let head = NodeView::Note {
                        meta: NoteMetaView {
                            id: meta.id,
                            folder_id: meta.folder_id,
                            title: name,
                            sort_order: meta.sort_order,
                        },
                    };
                    lemma_cons(head, t.drop_first());
                } else {
                    lemma_cons(t[0], rename_spec(t.drop_first(), id, name));
                }
            },
        }
    }
}

/// A node that has been renamed reads back its new name.
pub proof fn law_rename_then_find(t: Seq<NodeView>, id: Seq<char>, name: Seq<char>)
    requires
        find_name_spec(t, id).is_some(),
    ensures
        find_name_spec(rename_spec(t, id, name), id) == Some(name),
    decreases t,
{
    match t[0] {
        NodeView::Folder { folder, expanded, children, loaded } => {
            if folder.id == id {
                let head = NodeView::Folder {
                    folder: FolderView {
                        id: folder.id,
                        parent_id: folder.parent_id,
                        name: name,
                        sort_order: folder.sort_order,
                        created_at: folder.created_at,
                        updated_at: folder.updated_at,
                    },
                    expanded,
                    children,
                    loaded,
                };
                lemma_cons(head, t.drop_first());
            } else {
                let head = NodeView::Folder {
                    folder,
                    expanded,
                    children: rename_spec(children, id, name),
                    loaded,
                };
                lemma_cons(head, rename_spec(t.drop_first(), id, name));
                if find_name_spec(children, id).is_some() {
                    law_rename_then_find(children, id, name);
                } else {
                    lemma_find_name_occurs(children, id);
                    lemma_rename_keeps_ids(children, id, name, id);
                    lemma_find_name_occurs(rename_spec(children, id, name), id);
                    law_rename_then_find(t.drop_first(), id, name);
                }
            }
        },
        NodeView::Note { meta } => {
            if meta.id == id {
                let head = NodeView::Note {
                    meta: NoteMetaView {
                        id: meta.id,
                        folder_id: meta.folder_id,
                        title: name,
                        sort_order: meta.sort_order,
                    },
                };
                lemma_cons(head, t.drop_first());
            } else {
                lemma_cons(t[0], rename_spec(t.drop_first(), id, name));
                law_rename_then_find(t.drop_first(), id, name);
            }
        },
    }
}

proof fn lemma_loaded_exists(t: Seq<NodeView>, fid: Seq<char>)
    requires
        loaded_spec(t, fid),
    ensures
        folder_exists(t, fid),
    decreases t,
{
    match t[0] {
        NodeView::Folder { folder, children, .. } => {
            if folder.id != fid {
                if loaded_spec(children, fid) {
                    lemma_loaded_exists(children, fid);
                } else {
                    lemma_loaded_exists(t.drop_first(), fid);
                }
            }
        },
        NodeView::Note { .. } => lemma_loaded_exists(t.drop_first(), fid),
    }
}

proof fn lemma_add_absent(t: Seq<NodeView>, fid: Seq<char>, n: NodeView)
    requires
        !folder_exists(t, fid),
    ensures
        add_node_spec(t, fid, n) == t,
    decreases t,
{
    if t.len() > 0 {
        lemma_add_absent(t.drop_first(), fid, n);
        if let NodeView::Folder { children, .. } = t[0] {
            lemma_add_absent(children, fid, n);
        }
        assert(add_node_spec(t, fid, n) =~= t);
    }
}

/// A note appended at the end of a sequence where its id occurs nowhere is
/// found by name, and no owning folder is found inside that sequence.
proof fn lemma_push_note(c: Seq<NodeView>, meta: NoteMetaView)
    requires
        !occurs(c, meta.id),
    ensures
        find_folder_spec(c.push(NodeView::Note { meta }), meta.id).is_none(),
        find_name_spec(c.push(NodeView::Note { meta }), meta.id) == Some(meta.title),
    decreases c,
{
    let n = NodeView::Note { meta };
    let p = c.push(n);
    if c.len() == 0 {
        assert(p[0] == n);
        assert(p.drop_first() =~= Seq::<NodeView>::empty());
        assert(find_folder_spec(p.drop_first(), meta.id).is_none());
        assert(find_folder_spec(p, meta.id).is_none());
    } else {
        assert(p[0] == c[0]);
        assert(p.drop_first() =~= c.drop_first().push(n));
        lemma_push_note(c.drop_first(), meta);
        assert(c[0].id() != meta.id);
        if let NodeView::Folder { children, .. } = c[0] {
            lemma_find_folder_absent(children, meta.id);
            lemma_find_name_occurs(children, meta.id);
            assert(!holds_note(children, meta.id)) by {
                if holds_note(children, meta.id) {
                    let j = choose|j: int|
                        0 <= j < children.len() && (#[trigger] children[j] matches NodeView::Note {
                            meta: m,
                        } && m.id == meta.id);
                    lemma_occurs_at(children, meta.id, j);
                }
            }
        }
    }
}

/// Appending a note whose id occurs nowhere to an existing folder makes
/// that folder its owner and makes the note findable by its title.
proof fn lemma_add_note_found(s: Seq<NodeView>, fid: Seq<char>, meta: NoteMetaView)
    requires
        !occurs(s, meta.id),
        folder_exists(s, fid),
    ensures
        find_folder_spec(add_node_spec(s, fid, NodeView::Note { meta }), meta.id) == Some(fid),
        find_name_spec(add_node_spec(s, fid, NodeView::Note { meta }), meta.id) == Some(
            meta.title,
        ),
    decreases s,
{
    let n = NodeView::Note { meta };
    match s[0] {
        NodeView::Folder { folder, expanded, children, loaded } => {
            if folder.id == fid {
                let head = NodeView::Folder {
                    folder,
                    expanded,
                    children: children.push(n),
                    loaded,
                };
                lemma_cons(head, s.drop_first());
                lemma_push_note(children, meta);
                assert(children.push(n)[children.len() as int] == n);
                assert(holds_note(children.push(n), meta.id));
            } else {
                let head = NodeView::Folder {
                    folder,
                    expanded,
                    children: add_node_spec(children, fid, n),
                    loaded,
                };
                lemma_cons(head, add_node_spec(s.drop_first(), fid, n));
                if folder_exists(children, fid) {
                    lemma_add_note_found(children, fid, meta);
                } else {
                    lemma_add_absent(children, fid, n);
                    lemma_find_folder_absent(children, meta.id);
                    lemma_find_name_occurs(children, meta.id);
                    assert(!holds_note(children, meta.id)) by {
                        if holds_note(children, meta.id) {
                            let j = choose|j: int|
                                0 <= j < children.len() && (#[trigger] children[j] matches NodeView::Note {
                                    meta: m,
                                } && m.id == meta.id);
                            lemma_occurs_at(children, meta.id, j);
                        }
                    }
                    lemma_add_note_found(s.drop_first(), fid, meta);
                }
            }
        },
        NodeView::Note { .. } => {
            lemma_cons(s[0], add_node_spec(s.drop_first(), fid, n));
            lemma_add_note_found(s.drop_first(), fid, meta);
        },
    }
}

/// A note moved into a folder whose children are loaded is found again in
/// that folder, under its title.
pub proof fn law_move_into_loaded_folder(t: Seq<NodeView>, meta: NoteMetaView)
    requires
        loaded_spec(remove_spec(t, meta.id), meta.folder_id),
    ensures
        find_folder_spec(move_note_spec(t, meta), meta.id) == Some(meta.folder_id),
        find_name_spec(move_note_spec(t, meta), meta.id) == Some(meta.title),
{
    let removed = remove_spec(t, meta.id);
    law_removed_id_is_gone(t, meta.id);
    lemma_loaded_exists(removed, meta.folder_id);
    lemma_add_note_found(removed, meta.folder_id, meta);
}

/// A note moved into a folder whose children are not loaded leaves the
/// tree until that folder is loaded.
pub proof fn law_move_into_unloaded_folder(t: Seq<NodeView>, meta: NoteMetaView)
    requires
        !loaded_spec(remove_spec(t, meta.id), meta.folder_id),
    ensures
        find_name_spec(move_note_spec(t, meta), meta.id).is_none(),
        !occurs(move_note_spec(t, meta), meta.id),
{
    law_removed_id_is_gone(t, meta.id);
}

/// The expanded and loaded flags of the first folder `id` met in the same
/// order as `toggle_spec` searches, if there is one.
pub open spec fn folder_state(t: Seq<NodeView>, id: Seq<char>) -> Option<(bool, bool)>
    decreases t,
{
    if t.len() == 0 {
        None
    } else {
        match t[0] {
            NodeView::Folder { folder, expanded, children, loaded } => {
                if folder.id == id {
                    Some((expanded, loaded))
                } else {
                    match folder_state(children, id) {
                        Some(st) => Some(st),
                        None => folder_state(t.drop_first(), id),
                    }
                }
            },
            NodeView::Note { .. } => folder_state(t.drop_first(), id),
        }
    }
}

/// What one toggle does: nothing when there is no such folder; otherwise
/// it flips the folder's expanded flag, asks for its children exactly when
/// it opens a folder that was never loaded, and marks it loaded then.
pub proof fn law_toggle_effect(t: Seq<NodeView>, id: Seq<char>)
    ensures
        folder_state(t, id) is None ==> toggle_spec(t, id) == (t, None::<bool>),
        folder_state(t, id) matches Some((e, l)) ==> {
            &&& toggle_spec(t, id).1 == Some(!e && !l)
            &&& folder_state(toggle_spec(t, id).0, id) == Some((!e, l || (!e && !l)))
        },
    decreases t,
{
    if t.len() > 0 {
        let rest = t.drop_first();
        law_toggle_effect(rest, id);
        match t[0] {
            NodeView::Folder { folder, expanded, children, loaded } => {
                law_toggle_effect(children, id);
                if folder.id == id {
                    let t1 = toggle_spec(t, id).0;
                    assert(t1[0] == NodeView::Folder {
                        folder,
                        expanded: !expanded,
                        children,
                        loaded: loaded || (!expanded && !loaded),
                    });
                } else {
                    let inner = toggle_spec(children, id);
                    let head = NodeView::Folder { folder, expanded, children: inner.0, loaded };
                    if folder_state(children, id) is Some {
                        let t1 = seq![head] + rest;
                        assert(t1[0] == head);
                        assert(t1.drop_first() =~= rest);
                    } else {
                        assert(head == t[0]);
                        let r = toggle_spec(rest, id);
                        let t1 = seq![head] + r.0;
                        assert(t1[0] == head);
                        assert(t1.drop_first() =~= r.0);
                        if folder_state(rest, id) is None {
                            assert(t1 =~= t);
                        }
                    }
                }
            },
            NodeView::Note { .. } => {
                let r = toggle_spec(rest, id);
                let t1 = seq![t[0]] + r.0;
                assert(t1[0] == t[0]);
                assert(t1.drop_first() =~= r.0);
                if folder_state(rest, id) is None {
                    assert(t1 =~= t);
                }
            },
        }
    }
}

/// Toggling a folder whose children are loaded twice gives the tree back
/// as it was, and neither toggle asks for children.
pub proof fn law_toggle_twice(t: Seq<NodeView>, id: Seq<char>, e: bool)
    requires
        folder_state(t, id) == Some((e, true)),
    ensures
        toggle_spec(t, id).1 == Some(false),
        toggle_spec(toggle_spec(t, id).0, id).1 == Some(false),
        toggle_spec(toggle_spec(t, id).0, id).0 == t,
    decreases t,
{
    law_toggle_effect(t, id);
    law_toggle_effect(toggle_spec(t, id).0, id);
    let rest = t.drop_first();
    match t[0] {
        NodeView::Folder { folder, expanded, children, loaded } => {
            if folder.id == id {
                let t1 = toggle_spec(t, id).0;
                assert(t1.drop_first() =~= rest);
                let t2 = toggle_spec(t1, id).0;
                assert(t2 =~= t);
            } else {
                let inner = toggle_spec(children, id);
                let head = NodeView::Folder { folder, expanded, children: inner.0, loaded };
                if folder_state(children, id) is Some {
                    law_toggle_twice(children, id, e);
                    law_toggle_effect(children, id);
                    let t1 = seq![head] + rest;
                    assert(t1[0] == head);
                    assert(t1.drop_first() =~= rest);
                    let t2 = toggle_spec(t1, id).0;
                    assert(t2 =~= t);
                } else {
                    law_toggle_effect(children, id);
                    law_toggle_twice(rest, id, e);
                    let r = toggle_spec(rest, id);
                    let t1 = seq![head] + r.0;
                    assert(head == t[0]);
                    assert(t1[0] == t[0]);
                    assert(t1.drop_first() =~= r.0);
                    let t2 = toggle_spec(t1, id).0;
                    assert(t2 =~= t);
                }
            }
        },
        NodeView::Note { .. } => {
            law_toggle_twice(rest, id, e);
            let r = toggle_spec(rest, id);
            let t1 = seq![t[0]] + r.0;
            assert(t1[0] == t[0]);
            assert(t1.drop_first() =~= r.0);
            let t2 = toggle_spec(t1, id).0;
            assert(t2 =~= t);
        },
    }
}

/// Renaming one node leaves the name found for every other id as it was.
pub proof fn law_rename_keeps_other_names(
    t: Seq<NodeView>,
    id: Seq<char>,
    name: Seq<char>,
    x: Seq<char>,
)
    requires
        x != id,
    ensures
        find_name_spec(rename_spec(t, id, name), x) == find_name_spec(t, x),
    decreases t,
{
    if t.len() > 0 {
        let rest = t.drop_first();
        match t[0] {
            NodeView::Folder { folder, expanded, children, loaded } => {
                if folder.id == id {
                    let head = NodeView::Folder {
                        folder: FolderView {
                            id: folder.id,
                            parent_id: folder.parent_id,
                            name: name,
                            sort_order: folder.sort_order,
                            created_at: folder.created_at,
                            updated_at: folder.updated_at,
                        },
                        expanded,
                        children,
                        loaded,
                    };
                    lemma_cons(head, rest);
                } else {
                    let head = NodeView::Folder {
                        folder,
                        expanded,
                        children: rename_spec(children, id, name),
                        loaded,
                    };
                    lemma_cons(head, rename_spec(rest, id, name));
                    law_rename_keeps_other_names(children, id, name, x);
                    law_rename_keeps_other_names(rest, id, name, x);
                }
            },
            NodeView::Note { meta } => {
                if meta.id == id {
                    let head = NodeView::Note {
                        meta: NoteMetaView {
                            id: meta.id,
                            folder_id: meta.folder_id,
                            title: name,
                            sort_order: meta.sort_order,
                        },
                    };
                    lemma_cons(head, rest);
                } else {
                    lemma_cons(t[0], rename_spec(rest, id, name));
                    law_rename_keeps_other_names(rest, id, name, x);
                }
            },
        }
    }
}

/// Removing an id that does not occur changes nothing.
proof fn lemma_remove_absent(t: Seq<NodeView>, id: Seq<char>)
    requires
        !occurs(t, id),
    ensures
        remove_spec(t, id) == t,
    decreases t,
{
    if t.len() > 0 {
        lemma_remove_absent(t.drop_first(), id);
        if let NodeView::Folder { children, .. } = t[0] {
            lemma_remove_absent(children, id);
        }
        let head = match t[0] {
            NodeView::Folder { folder, expanded, children, loaded } => NodeView::Folder {
                folder,
                expanded,
                children: remove_spec(children, id),
                loaded,
            },
            NodeView::Note { meta } => NodeView::Note { meta },
        };
        assert(head == t[0]);
        assert(seq![head] + t.drop_first() =~= t);
    }
}

/// Removing the id of a node appended last removes that node.
proof fn lemma_remove_pushed(s: Seq<NodeView>, x: NodeView, id: Seq<char>)
    requires
        x.id() == id,
    ensures
        remove_spec(s.push(x), id) == remove_spec(s, id),
    decreases s.len(),
{
    let sx = s.push(x);
    if s.len() == 0 {
        assert(sx[0] == x);
        assert(sx.drop_first() =~= Seq::<NodeView>::empty());
        assert(remove_spec(sx, id) == remove_spec(sx.drop_first(), id));
        assert(remove_spec(sx.drop_first(), id) =~= Seq::<NodeView>::empty());
        assert(remove_spec(s, id) =~= Seq::<NodeView>::empty());
    } else {
        assert(sx.len() > 0);
        assert(sx[0] == s[0]);
        assert(sx.drop_first() =~= s.drop_first().push(x));
        lemma_remove_pushed(s.drop_first(), x, id);
        assert(remove_spec(sx.drop_first(), id) == remove_spec(s.drop_first(), id));
    }
}

/// Removing an id twice is the same as removing it once.
pub proof fn law_remove_twice(t: Seq<NodeView>, id: Seq<char>)
    ensures
        remove_spec(remove_spec(t, id), id) == remove_spec(t, id),
{
    law_removed_id_is_gone(t, id);
    lemma_remove_absent(remove_spec(t, id), id);
}

/// Adding a node whose id occurs nowhere in the tree and then removing that
/// id gives the tree back as it was.
pub proof fn law_add_then_remove(t: Seq<NodeView>, fid: Seq<char>, node: NodeView)
    requires
        !occurs(t, node.id()),
    ensures
        remove_spec(add_node_spec(t, fid, node), node.id()) == t,
    decreases t,
{
    let nid = node.id();
    if t.len() > 0 {
        let rest = t.drop_first();
        match t[0] {
            NodeView::Folder { folder, expanded, children, loaded } => {
                assert(folder.id != nid);
                if folder.id == fid {
                    let head = NodeView::Folder {
                        folder,
                        expanded,
                        children: children.push(node),
                        loaded,
                    };
                    lemma_cons(head, rest);
                    lemma_remove_pushed(children, node, nid);
                    lemma_remove_absent(children, nid);
                    lemma_remove_absent(rest, nid);
                    assert(seq![t[0]] + rest =~= t);
                } else {
                    let head = NodeView::Folder {
                        folder,
                        expanded,
                        children: add_node_spec(children, fid, node),
                        loaded,
                    };
                    lemma_cons(head, add_node_spec(rest, fid, node));
                    law_add_then_remove(children, fid, node);
                    law_add_then_remove(rest, fid, node);
                    assert(seq![t[0]] + rest =~= t);
                }
            },
            NodeView::Note { .. } => {
                lemma_cons(t[0], add_node_spec(rest, fid, node));
                law_add_then_remove(rest, fid, node);
                assert(seq![t[0]] + rest =~= t);
            },
        }
    }
}

/// The children of the first folder `fid` met in pre-order (a folder
/// before its children, its children before its later siblings).
pub open spec fn folder_children(t: Seq<NodeView>, fid: Seq<char>) -> Option<Seq<NodeView>>
    decreases t,
{
    if t.len() == 0 {
        None
    } else {
        match t[0] {
            NodeView::Folder { folder, children, .. } => {
                if folder.id == fid {
                    Some(children)
                } else {
                    match folder_children(children, fid) {
                        Some(c) => Some(c),
                        None => folder_children(t.drop_first(), fid),
                    }
                }
            },
            NodeView::Note { .. } => folder_children(t.drop_first(), fid),
        }
    }
}

proof fn lemma_set_children_absent(t: Seq<NodeView>, fid: Seq<char>, new: Seq<NodeView>)
    requires
        !folder_exists(t, fid),
    ensures
        set_children_spec(t, fid, new) == t,
        folder_children(t, fid) is None,
    decreases t,
{
    if t.len() > 0 {
        lemma_set_children_absent(t.drop_first(), fid, new);
        if let NodeView::Folder { children, .. } = t[0] {
            lemma_set_children_absent(children, fid, new);
        }
        assert(set_children_spec(t, fid, new) =~= t);
    }
}

/// Loading a folder's children: when a folder `fid` exists anywhere in the
/// tree, at any depth, the first one met in pre-order afterwards holds
/// exactly `new` as its children.
pub proof fn law_set_children_reaches_nested_folders(
    t: Seq<NodeView>,
    fid: Seq<char>,
    new: Seq<NodeView>,
)
    requires
        folder_exists(t, fid),
    ensures
        folder_children(set_children_spec(t, fid, new), fid) == Some(new),
    decreases t,
{
    let rest = t.drop_first();
    let r = set_children_spec(t, fid, new);
    match t[0] {
        NodeView::Folder { folder, expanded, children, loaded } => {
            if folder.id == fid {
                lemma_cons(NodeView::Folder { folder, expanded, children: new, loaded }, rest);
            } else {
                let head = NodeView::Folder {
                    folder,
                    expanded,
                    children: set_children_spec(children, fid, new),
                    loaded,
                };
                lemma_cons(head, set_children_spec(rest, fid, new));
                if folder_exists(children, fid) {
                    law_set_children_reaches_nested_folders(children, fid, new);
                } else {
                    lemma_set_children_absent(children, fid, new);
                    law_set_children_reaches_nested_folders(rest, fid, new);
                }
            }
        },
        NodeView::Note { .. } => {
            lemma_cons(t[0], set_children_spec(rest, fid, new));
            law_set_children_reaches_nested_folders(rest, fid, new);
        },
    }
}

} // verus!
