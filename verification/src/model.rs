//! Plain data records of the notepad and their mathematical views.

use vstd::prelude::*;

verus! {

/// A folder as it is stored.
#[derive(Debug, Clone)]
pub struct Folder {
    pub id: String,
    pub parent_id: Option<String>,
    pub name: String,
    pub sort_order: i32,
    pub created_at: String,
    pub updated_at: String,
}

/// Metadata of a note (no content), as shown in the tree.
#[derive(Debug, Clone)]
pub struct NoteMeta {
    pub id: String,
    pub folder_id: String,
    pub title: String,
    pub sort_order: i32,
}

/// A node of the sidebar tree.
#[derive(Debug)]
pub enum TreeNode {
    Folder { folder: Folder, expanded: bool, children: Vec<TreeNode>, loaded: bool },
    Note { meta: NoteMeta },
}

/// A note with its full content.
#[derive(Debug, Clone)]
pub struct Note {
    pub id: String,
    pub folder_id: String,
    pub title: String,
    pub content: String,
    pub sort_order: i32,
    pub created_at: String,
    pub updated_at: String,
}

/// One hit of a full-text search.
#[derive(Debug, Clone)]
pub struct SearchResult {
    pub note_id: String,
    pub folder_id: String,
    pub title: String,
    pub snippet: String,
    pub match_line: Option<usize>,
    pub match_column: Option<usize>,
    pub match_len: usize,
}

/// An image stored with a note.
#[derive(Debug, Clone)]
pub struct ImageAttachment {
    pub id: String,
    pub note_id: String,
    pub filename: String,
    pub data: Vec<u8>,
    pub created_at: String,
}

/// Mathematical view of a search hit.
pub struct SearchResultView {
    pub note_id: Seq<char>,
    pub folder_id: Seq<char>,
    pub title: Seq<char>,
    pub snippet: Seq<char>,
    pub match_line: Option<usize>,
    pub match_column: Option<usize>,
    pub match_len: usize,
}

impl View for SearchResult {
    type V = SearchResultView;

    open spec fn view(&self) -> SearchResultView {
        SearchResultView {
            note_id: self.note_id@,
            folder_id: self.folder_id@,
            title: self.title@,
            snippet: self.snippet@,
            match_line: self.match_line,
            match_column: self.match_column,
            match_len: self.match_len,
        }
    }
}

/// Mathematical view of a folder record.
pub struct FolderView {
    pub id: Seq<char>,
    pub parent_id: Option<Seq<char>>,
    pub name: Seq<char>,
    pub sort_order: i32,
    pub created_at: Seq<char>,
    pub updated_at: Seq<char>,
}

/// Mathematical view of a note's metadata.
pub struct NoteMetaView {
    pub id: Seq<char>,
    pub folder_id: Seq<char>,
    pub title: Seq<char>,
    pub sort_order: i32,
}

/// Mathematical view of a tree node.
pub enum NodeView {
    Folder { folder: FolderView, expanded: bool, children: Seq<NodeView>, loaded: bool },
    Note { meta: NoteMetaView },
}

pub open spec fn opt_string_view(o: Option<String>) -> Option<Seq<char>> {
    match o {
        Some(s) => Some(s@),
        None => None,
    }
}

impl View for Folder {
    type V = FolderView;

    open spec fn view(&self) -> FolderView {
        FolderView {
            id: self.id@,
            parent_id: opt_string_view(self.parent_id),
            name: self.name@,
            sort_order: self.sort_order,
            created_at: self.created_at@,
            updated_at: self.updated_at@,
        }
    }
}

impl View for NoteMeta {
    type V = NoteMetaView;

    open spec fn view(&self) -> NoteMetaView {
        NoteMetaView {
            id: self.id@,
            folder_id: self.folder_id@,
            title: self.title@,
            sort_order: self.sort_order,
        }
    }
}

/// The view of one node: strings become character sequences, children
/// become a sequence of views.
pub open spec fn node_view(n: TreeNode) -> NodeView
    decreases n,
{
    match n {
        TreeNode::Folder { folder, expanded, children, loaded } => NodeView::Folder {
            folder: folder@,
            expanded,
            children: nodes_view(children@),
            loaded,
        },
        TreeNode::Note { meta } => NodeView::Note { meta: meta@ },
    }
}

/// The view of a sequence of nodes, element by element.
pub open spec fn nodes_view(s: Seq<TreeNode>) -> Seq<NodeView>
    decreases s,
{
    if s.len() == 0 {
        Seq::empty()
    } else {
        seq![node_view(s[0])] + nodes_view(s.drop_first())
    }
}

/// The view of a sequence of nodes is taken element by element.
pub proof fn lemma_nodes_view(s: Seq<TreeNode>)
    ensures
        nodes_view(s).len() == s.len(),
        forall|i: int| 0 <= i < s.len() ==> #[trigger] nodes_view(s)[i] == node_view(s[i]),
    decreases s.len(),
{
    if s.len() > 0 {
        lemma_nodes_view(s.drop_first());
        assert forall|i: int| 0 <= i < s.len() implies #[trigger] nodes_view(s)[i] == node_view(
            s[i],
        ) by {
            if i > 0 {
                assert(s.drop_first()[i - 1] == s[i]);
            }
        }
    }
}

/// Taking views commutes with replacing one element.
pub proof fn lemma_nodes_view_update(s: Seq<TreeNode>, i: int, x: TreeNode)
    requires
        0 <= i < s.len(),
    ensures
        nodes_view(s.update(i, x)) == nodes_view(s).update(i, node_view(x)),
{
    lemma_nodes_view(s);
    lemma_nodes_view(s.update(i, x));
    assert(nodes_view(s.update(i, x)) =~= nodes_view(s).update(i, node_view(x)));
}

/// Taking views commutes with taking a contiguous part.
pub proof fn lemma_nodes_view_subrange(s: Seq<TreeNode>, i: int, j: int)
    requires
        0 <= i <= j <= s.len(),
    ensures
        nodes_view(s.subrange(i, j)) == nodes_view(s).subrange(i, j),
{
    lemma_nodes_view(s);
    lemma_nodes_view(s.subrange(i, j));
    assert(nodes_view(s.subrange(i, j)) =~= nodes_view(s).subrange(i, j));
}

/// Taking views commutes with appending one element.
pub proof fn lemma_nodes_view_push(s: Seq<TreeNode>, x: TreeNode)
    ensures
        nodes_view(s.push(x)) == nodes_view(s).push(node_view(x)),
{
    lemma_nodes_view(s);
    lemma_nodes_view(s.push(x));
    assert(nodes_view(s.push(x)) =~= nodes_view(s).push(node_view(x)));
}

impl View for TreeNode {
    type V = NodeView;

    open spec fn view(&self) -> NodeView {
        node_view(*self)
    }
}

impl NodeView {
    /// The id of the folder or note.
    pub open spec fn id(self) -> Seq<char> {
        match self {
            NodeView::Folder { folder, .. } => folder.id,
            NodeView::Note { meta } => meta.id,
        }
    }

    /// The folder's name or the note's title.
    pub open spec fn name(self) -> Seq<char> {
        match self {
            NodeView::Folder { folder, .. } => folder.name,
            NodeView::Note { meta } => meta.title,
        }
    }
}

impl TreeNode {
    /// The id of the folder or note.
    pub fn id(&self) -> (r: &str)
        ensures
            r@ == self@.id(),
    {
        match self {
            TreeNode::Folder { folder, .. } => folder.id.as_str(),
            TreeNode::Note { meta } => meta.id.as_str(),
        }
    }

    /// The folder's name or the note's title.
    pub fn name(&self) -> (r: &str)
        ensures
            r@ == self@.name(),
    {
        match self {
            TreeNode::Folder { folder, .. } => folder.name.as_str(),
            TreeNode::Note { meta } => meta.title.as_str(),
        }
    }
}

impl Folder {
    /// A copy of the record.
    pub fn duplicate(&self) -> (r: Folder)
        ensures
            r@ == self@,
    {
        let parent_id = match &self.parent_id {
            Some(p) => Some(p.clone()),
            None => None,
        };
        Folder {
            id: self.id.clone(),
            parent_id,
            name: self.name.clone(),
            sort_order: self.sort_order,
            created_at: self.created_at.clone(),
            updated_at: self.updated_at.clone(),
        }
    }
}

impl NoteMeta {
    /// A copy of the record.
    pub fn duplicate(&self) -> (r: NoteMeta)
        ensures
            r@ == self@,
    {
        NoteMeta {
            id: self.id.clone(),
            folder_id: self.folder_id.clone(),
            title: self.title.clone(),
            sort_order: self.sort_order,
        }
    }
}

/// A deep copy of a node.
pub fn duplicate_node(n: &TreeNode) -> (r: TreeNode)
    ensures
        r@ == n@,
    decreases n,
{
    match n {
        TreeNode::Folder { folder, expanded, children, loaded } => {
            let c = duplicate_nodes(children.as_slice());
            TreeNode::Folder {
                folder: folder.duplicate(),
                expanded: *expanded,
                children: c,
                loaded: *loaded,
            }
        },
        TreeNode::Note { meta } => TreeNode::Note { meta: meta.duplicate() },
    }
}

/// A deep copy of a sequence of nodes.
pub fn duplicate_nodes(s: &[TreeNode]) -> (r: Vec<TreeNode>)
    ensures
        nodes_view(r@) == nodes_view(s@),
    decreases s@,
{
    let mut out: Vec<TreeNode> = Vec::new();
    let mut i: usize = 0;
    proof {
        lemma_nodes_view(s@);
    }
    while i < s.len()
        invariant
            0 <= i <= s@.len(),
            out@.len() == i,
            forall|k: int| 0 <= k < i ==> node_view(#[trigger] out@[k]) == node_view(s@[k]),
        decreases s@.len() - i,
    {
        assert(decreases_to!(s@ => s@[i as int]));
        let c = duplicate_node(&s[i]);
        out.push(c);
        i = i + 1;
    }
    proof {
        lemma_nodes_view(out@);
        lemma_nodes_view(s@);
        assert(nodes_view(out@) =~= nodes_view(s@));
    }
    out
}

} // verus!
