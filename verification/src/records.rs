//! Building tree nodes from stored records, and the sort order of new ones.

use vstd::prelude::*;
use crate::model::{Folder, FolderView, NoteMeta, NoteMetaView, Note, TreeNode, NodeView, nodes_view};

verus! {

/// The node of a stored sub-folder as it first appears: collapsed, with its
/// children not loaded yet.
pub open spec fn unloaded_folder(f: FolderView) -> NodeView {
    NodeView::Folder { folder: f, expanded: false, children: Seq::empty(), loaded: false }
}

/// The children of a folder as loaded from storage: its sub-folders (not
/// loaded yet) first, then its notes, each group in the order given.
pub open spec fn children_spec(folders: Seq<FolderView>, notes: Seq<NoteMetaView>) -> Seq<NodeView> {
    folders.map_values(|f: FolderView| unloaded_folder(f)) + notes.map_values(
        |m: NoteMetaView| NodeView::Note { meta: m },
    )
}

/// Turns loaded sub-folders and notes into the children of a folder.
pub fn children_nodes(folders: Vec<Folder>, notes: Vec<NoteMeta>) -> (r: Vec<TreeNode>)
    ensures
        nodes_view(r@) == children_spec(
            folders@.map_values(|f: Folder| f@),
            notes@.map_values(|m: NoteMeta| m@),
        ),
{
    let ghost fs = folders@.map_values(|f: Folder| f@);
    let ghost ns = notes@.map_values(|m: NoteMeta| m@);
    let ghost fv = folders@;
    let ghost nv = notes@;
    let mut out: Vec<TreeNode> = Vec::new();
    for f in it: folders.into_iter()
        invariant
            it.seq() == fv,
            fs == fv.map_values(|f: Folder| f@),
            out@.len() == it.index(),
            forall|k: int| 0 <= k < out@.len() ==> (#[trigger] out@[k])@ == unloaded_folder(fs[k]),
    {
        let ghost prev = out@;
        out.push(TreeNode::Folder { folder: f, expanded: false, children: Vec::new(), loaded: false });
        proof {
            assert(nodes_view(Seq::<TreeNode>::empty()) =~= Seq::<NodeView>::empty());
            assert forall|k: int| 0 <= k < out@.len() implies (#[trigger] out@[k])@
                == unloaded_folder(fs[k]) by {
                if k < prev.len() {
                    assert(out@[k] == prev[k]);
                }
            }
        }
    }
    let nf = out.len();
    for m in it: notes.into_iter()
        invariant
            it.seq() == nv,
            ns == nv.map_values(|m: NoteMeta| m@),
            nf == fs.len(),
            out@.len() == nf + it.index(),
            forall|k: int| 0 <= k < nf ==> (#[trigger] out@[k])@ == unloaded_folder(fs[k]),
            forall|k: int|
                nf <= k < out@.len() ==> (#[trigger] out@[k])@ == (NodeView::Note { meta: ns[k - nf] }),
    {
        let ghost prev = out@;
        out.push(TreeNode::Note { meta: m });
        proof {
            assert forall|k: int| 0 <= k < prev.len() implies out@[k] == prev[k] by {}
        }
    }
    proof {
        crate::model::lemma_nodes_view(out@);
        assert(nodes_view(out@) =~= children_spec(fs, ns));
    }
    out
}

/// The node of a top-level folder as the tree starts: collapsed, with its
/// children already loaded.
pub fn root_folder_node(folder: Folder, children: Vec<TreeNode>) -> (r: TreeNode)
    ensures
        r@ == (NodeView::Folder {
            folder: folder@,
            expanded: false,
            children: nodes_view(children@),
            loaded: true,
        }),
{
    TreeNode::Folder { folder, expanded: false, children, loaded: true }
}

/// The tree node of a note just created in storage.
pub fn note_node(note: Note) -> (r: TreeNode)
    ensures
        r@ == (NodeView::Note {
            meta: NoteMetaView {
                id: note.id@,
                folder_id: note.folder_id@,
                title: note.title@,
                sort_order: note.sort_order,
            },
        }),
{
    TreeNode::Note {
        meta: NoteMeta {
            id: note.id,
            folder_id: note.folder_id,
            title: note.title,
            sort_order: note.sort_order,
        },
    }
}

/// The sort order of an item added at the end of a folder whose largest
/// sort order is `max_order` (0 for an empty folder).
pub fn next_sort_order(max_order: i32) -> (r: i32)
    requires
        max_order < i32::MAX,
    ensures
        r == max_order + 1,
{
    max_order + 1
}

} // verus!
