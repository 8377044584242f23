//! The application's state apart from the editor widget, and how each user
//! action or storage reply changes it. Work that needs storage is handed
//! back to the caller as a request.

use vstd::prelude::*;
use crate::model::{
    TreeNode, NodeView, NoteMeta, SearchResult, SearchResultView, Folder, nodes_view,
    opt_string_view, lemma_nodes_view_push,
};
use crate::tree_ops::{
    find_folder_spec, toggle_spec, set_children_spec, add_node_spec, expand_spec, rename_spec,
    remove_spec, move_note_spec, find_folder_in_tree, toggle_in_tree, set_children, add_node,
    ensure_expanded, rename_in_tree, remove_from_tree, move_note,
};
use crate::folder_options::{
    MoveFolderOption, MoveFolderOptionView, build_move_folder_options, move_options_spec,
    options_view, folders_view,
};
use crate::search::results_view;
use crate::text::{str_eq, chars_of, string_from_chars};
use crate::preview::{trimmed, trim_chars};

verus! {

/// What a context menu was opened on.
#[derive(Debug, Clone)]
pub struct ContextMenuTarget {
    pub node_id: String,
    pub is_folder: bool,
    pub parent_folder_id: Option<String>,
}

/// A rename in progress.
#[derive(Debug, Clone)]
pub struct RenameState {
    pub node_id: String,
    pub is_folder: bool,
    pub input: String,
}

/// A folder or note being named before it is created.
#[derive(Debug, Clone)]
pub struct PendingCreate {
    pub parent_id: Option<String>,
    pub is_folder: bool,
    pub input: String,
}

/// Where to put the cursor once a note opened from a search hit is loaded.
#[derive(Debug, Clone)]
pub struct PendingNoteJump {
    pub note_id: String,
    pub line: usize,
    pub column: usize,
    pub match_len: usize,
}

/// The "move to folder" submenu.
#[derive(Debug, Clone)]
pub struct MoveNoteState {
    pub note_id: String,
    pub current_folder_id: String,
    pub folders: Vec<MoveFolderOption>,
    pub loading: bool,
}

/// How the preview follows the editor.
#[derive(Debug, Clone, Copy, PartialEq, Eq, Structural)]
pub enum PreviewSyncMode {
    Once,
    FollowCursor,
}

/// A line the preview should scroll to.
#[derive(Debug, Clone, Copy, PartialEq, Eq, Structural)]
pub struct PreviewSyncTarget {
    pub line: usize,
    pub mode: PreviewSyncMode,
}

pub struct ContextMenuTargetView {
    pub node_id: Seq<char>,
    pub is_folder: bool,
    pub parent_folder_id: Option<Seq<char>>,
}

pub struct RenameStateView {
    pub node_id: Seq<char>,
    pub is_folder: bool,
    pub input: Seq<char>,
}

pub struct PendingCreateView {
    pub parent_id: Option<Seq<char>>,
    pub is_folder: bool,
    pub input: Seq<char>,
}

pub struct PendingNoteJumpView {
    pub note_id: Seq<char>,
    pub line: usize,
    pub column: usize,
    pub match_len: usize,
}

pub struct MoveNoteStateView {
    pub note_id: Seq<char>,
    pub current_folder_id: Seq<char>,
    pub folders: Seq<MoveFolderOptionView>,
    pub loading: bool,
}

impl View for ContextMenuTarget {
    type V = ContextMenuTargetView;

    open spec fn view(&self) -> ContextMenuTargetView {
        ContextMenuTargetView {
            node_id: self.node_id@,
            is_folder: self.is_folder,
            parent_folder_id: opt_string_view(self.parent_folder_id),
        }
    }
}

impl View for RenameState {
    type V = RenameStateView;

    open spec fn view(&self) -> RenameStateView {
        RenameStateView { node_id: self.node_id@, is_folder: self.is_folder, input: self.input@ }
    }
}

impl View for PendingCreate {
    type V = PendingCreateView;

    open spec fn view(&self) -> PendingCreateView {
        PendingCreateView {
            parent_id: opt_string_view(self.parent_id),
            is_folder: self.is_folder,
            input: self.input@,
        }
    }
}

impl View for PendingNoteJump {
    type V = PendingNoteJumpView;

    open spec fn view(&self) -> PendingNoteJumpView {
        PendingNoteJumpView {
            note_id: self.note_id@,
            line: self.line,
            column: self.column,
            match_len: self.match_len,
        }
    }
}

impl View for MoveNoteState {
    type V = MoveNoteStateView;

    open spec fn view(&self) -> MoveNoteStateView {
        MoveNoteStateView {
            note_id: self.note_id@,
            current_folder_id: self.current_folder_id@,
            folders: options_view(self.folders@),
            loading: self.loading,
        }
    }
}

pub open spec fn opt_view<T: View>(o: Option<T>) -> Option<T::V> {
    match o {
        Some(x) => Some(x@),
        None => None,
    }
}

/// A folder or note to create in storage.
#[derive(Debug, Clone)]
pub enum CreateRequest {
    Folder { parent_id: Option<String>, name: String },
    Note { folder_id: String, name: String },
}

/// What the Escape key closed.
#[derive(Debug, Clone, Copy, PartialEq, Eq, Structural)]
pub enum EscapeOutcome {
    ClosedContextMenu,
    CancelledCreate,
    CancelledRename,
    DismissedError,
    NotHandled,
}

/// Name given to a folder created with an empty name.
pub open spec fn default_folder_name() -> Seq<char> {
    "新建文件夹"@
}

/// Name given to a note created with an empty title.
pub open spec fn default_note_name() -> Seq<char> {
    "新建笔记"@
}

/// The name a new item gets from what was typed: the input without
/// surrounding whitespace, or the default name when that is empty.
pub open spec fn created_name(input: Seq<char>, is_folder: bool) -> Seq<char> {
    if trimmed(input).len() == 0 {
        if is_folder {
            default_folder_name()
        } else {
            default_note_name()
        }
    } else {
        trimmed(input)
    }
}

fn created_name_exec(input: &String, is_folder: bool) -> (r: String)
    ensures
        r@ == created_name(input@, is_folder),
{
    let t = trim_chars(&chars_of(input.as_str()));
    if t.len() == 0 {
        if is_folder {
            "新建文件夹".to_string()
        } else {
            "新建笔记".to_string()
        }
    } else {
        string_from_chars(t.as_slice())
    }
}

/// The new editor font size after a step of `delta`, kept between the
/// smallest and largest size.
pub open spec fn stepped_font_size(size: u16, delta: i8) -> u16 {
    let n = size + delta;
    if n < MIN_FONT_SIZE {
        MIN_FONT_SIZE
    } else if n > MAX_FONT_SIZE {
        MAX_FONT_SIZE
    } else {
        n as u16
    }
}

/// Smallest and largest editor font size.
pub const MIN_FONT_SIZE: u16 = 10;
pub const MAX_FONT_SIZE: u16 = 28;

/// The application state that decisions are made on.
pub struct Session {
    pub tree: Vec<TreeNode>,
    pub selected_id: Option<String>,
    pub context_menu: Option<ContextMenuTarget>,
    pub rename_state: Option<RenameState>,
    pub error: Option<String>,
    pub search_query: String,
    pub search_results: Vec<SearchResult>,
    pub search_active: bool,
    pub pending_note_jump: Option<PendingNoteJump>,
    pub pending_create: Option<PendingCreate>,
    pub dark_theme: bool,
    pub editor_font_size: u16,
    pub dragging_note_id: Option<String>,
    pub drag_hover_folder_id: Option<String>,
    pub move_note_state: Option<MoveNoteState>,
}

/// Mathematical view of the state.
pub struct SessionView {
    pub tree: Seq<NodeView>,
    pub selected_id: Option<Seq<char>>,
    pub context_menu: Option<ContextMenuTargetView>,
    pub rename_state: Option<RenameStateView>,
    pub error: Option<Seq<char>>,
    pub search_query: Seq<char>,
    pub search_results: Seq<SearchResultView>,
    pub search_active: bool,
    pub pending_note_jump: Option<PendingNoteJumpView>,
    pub pending_create: Option<PendingCreateView>,
    pub dark_theme: bool,
    pub editor_font_size: u16,
    pub dragging_note_id: Option<Seq<char>>,
    pub drag_hover_folder_id: Option<Seq<char>>,
    pub move_note_state: Option<MoveNoteStateView>,
}

impl View for Session {
    type V = SessionView;

    open spec fn view(&self) -> SessionView {
        SessionView {
            tree: nodes_view(self.tree@),
            selected_id: opt_string_view(self.selected_id),
            context_menu: opt_view(self.context_menu),
            rename_state: opt_view(self.rename_state),
            error: opt_string_view(self.error),
            search_query: self.search_query@,
            search_results: results_view(self.search_results@),
            search_active: self.search_active,
            pending_note_jump: opt_view(self.pending_note_jump),
            pending_create: opt_view(self.pending_create),
            dark_theme: self.dark_theme,
            editor_font_size: self.editor_font_size,
            dragging_note_id: opt_string_view(self.dragging_note_id),
            drag_hover_folder_id: opt_string_view(self.drag_hover_folder_id),
            move_note_state: opt_view(self.move_note_state),
        }
    }
}

impl Session {
    /// The state at start-up: empty tree, dark theme, font size 14.
    pub fn new() -> (r: Session)
        ensures
            r@ == (SessionView {
                tree: Seq::empty(),
                selected_id: None,
                context_menu: None,
                rename_state: None,
                error: None,
                search_query: Seq::empty(),
                search_results: Seq::empty(),
                search_active: false,
                pending_note_jump: None,
                pending_create: None,
                dark_theme: true,
                editor_font_size: 14,
                dragging_note_id: None,
                drag_hover_folder_id: None,
                move_note_state: None,
            }),
    {
        let r = Session {
            tree: Vec::new(),
            selected_id: None,
            context_menu: None,
            rename_state: None,
            error: None,
            search_query: String::new(),
            search_results: Vec::new(),
            search_active: false,
            pending_note_jump: None,
            pending_create: None,
            dark_theme: true,
            editor_font_size: 14,
            dragging_note_id: None,
            drag_hover_folder_id: None,
            move_note_state: None,
        };
        assert(nodes_view(r.tree@) =~= Seq::empty());
        assert(results_view(r.search_results@) =~= Seq::empty());
        r
    }

    /// The top-level tree has been read from storage.
    pub fn tree_loaded(&mut self, tree: Vec<TreeNode>)
        ensures
            final(self)@ == (SessionView { tree: nodes_view(tree@), ..old(self)@ }),
    {
        self.tree = tree;
    }

    /// A folder was clicked: it becomes the selection and is toggled open
    /// or closed. Returns whether its children must now be fetched.
    pub fn toggle_folder(&mut self, id: &str) -> (load: bool)
        ensures
            final(self)@ == (SessionView {
                tree: toggle_spec(old(self)@.tree, id@).0,
                selected_id: Some(id@),
                ..old(self)@
            }),
            load == (toggle_spec(old(self)@.tree, id@).1 == Some(true)),
    {
        self.selected_id = Some(id.to_string());
        let r = toggle_in_tree(&mut self.tree, id);
        r == Some(true)
    }

    /// The children of a folder have been read from storage.
    pub fn folder_children_loaded(&mut self, folder_id: &str, children: Vec<TreeNode>)
        ensures
            final(self)@ == (SessionView {
                tree: set_children_spec(old(self)@.tree, folder_id@, nodes_view(children@)),
                ..old(self)@
            }),
    {
        set_children(&mut self.tree, folder_id, children);
    }

    /// A note started being dragged: menus close and the drag begins.
    pub fn start_note_drag(&mut self, id: &str)
        ensures
            final(self)@ == (SessionView {
                context_menu: None,
                move_note_state: None,
                dragging_note_id: Some(id@),
                drag_hover_folder_id: None,
                ..old(self)@
            }),
    {
        self.context_menu = None;
        self.move_note_state = None;
        self.dragging_note_id = Some(id.to_string());
        self.drag_hover_folder_id = None;
    }

    /// Ends any drag.
    pub fn clear_note_drag_state(&mut self)
        ensures
            final(self)@ == (SessionView {
                dragging_note_id: None,
                drag_hover_folder_id: None,
                ..old(self)@
            }),
    {
        self.dragging_note_id = None;
        self.drag_hover_folder_id = None;
    }

    /// The dragged note entered a folder: that folder becomes the drop
    /// target unless it already holds the note.
    pub fn note_drag_entered_folder(&mut self, folder_id: &str)
        ensures
            final(self)@ == (match old(self)@.dragging_note_id {
                Some(n) => if find_folder_spec(old(self)@.tree, n) != Some(folder_id@) {
                    SessionView { drag_hover_folder_id: Some(folder_id@), ..old(self)@ }
                } else {
                    old(self)@
                },
                None => old(self)@,
            }),
    {
        let hover = match &self.dragging_note_id {
            Some(note_id) => {
                match find_folder_in_tree(self.tree.as_slice(), note_id.as_str()) {
                    Some(f) => !str_eq(f.as_str(), folder_id),
                    None => true,
                }
            },
            None => false,
        };
        if hover {
            self.drag_hover_folder_id = Some(folder_id.to_string());
        }
    }

    /// The dragged note left a folder: it stops being the drop target.
    pub fn note_drag_left_folder(&mut self, folder_id: &str)
        ensures
            final(self)@ == if old(self)@.drag_hover_folder_id == Some(folder_id@) {
                SessionView { drag_hover_folder_id: None, ..old(self)@ }
            } else {
                old(self)@
            },
    {
        let leave = match &self.drag_hover_folder_id {
            Some(h) => str_eq(h.as_str(), folder_id),
            None => false,
        };
        if leave {
            self.drag_hover_folder_id = None;
        }
    }

    /// The dragged note was dropped on a folder. Returns the move to make
    /// (note id, folder id), if the note is not already in that folder.
    pub fn drop_dragged_note_on_folder(&mut self, folder_id: &str) -> (r: Option<(String, String)>)
        ensures
            match old(self)@.dragging_note_id {
                None => final(self)@ == old(self)@ && r is None,
                Some(n) => {
                    &&& final(self)@ == (SessionView {
                        dragging_note_id: None,
                        drag_hover_folder_id: None,
                        ..old(self)@
                    })
                    &&& if find_folder_spec(old(self)@.tree, n) == Some(folder_id@) {
                        r is None
                    } else {
                        r matches Some((a, b)) && a@ == n && b@ == folder_id@
                    }
                },
            },
    {
        let note_id = match &self.dragging_note_id {
            Some(n) => n.clone(),
            None => {
                return None;
            },
        };
        self.clear_note_drag_state();
        let same = match find_folder_in_tree(self.tree.as_slice(), note_id.as_str()) {
            Some(f) => str_eq(f.as_str(), folder_id),
            None => false,
        };
        if same {
            None
        } else {
            Some((note_id, folder_id.to_string()))
        }
    }

    /// A different note is being opened: any pending jump and the search
    /// are dropped and the note becomes the selection.
    pub fn select_other_note(&mut self, id: &str)
        ensures
            final(self)@ == (SessionView {
                pending_note_jump: None,
                search_active: false,
                search_query: Seq::empty(),
                search_results: Seq::empty(),
                selected_id: Some(id@),
                ..old(self)@
            }),
    {
        self.pending_note_jump = None;
        self.search_active = false;
        self.search_query = String::new();
        self.search_results = Vec::new();
        self.selected_id = Some(id.to_string());
        assert(results_view(self.search_results@) =~= Seq::empty());
    }

    /// The note already open was clicked again: it stays selected and any
    /// pending jump is dropped.
    pub fn reselect_open_note(&mut self, id: &str)
        ensures
            final(self)@ == (SessionView {
                pending_note_jump: None,
                selected_id: Some(id@),
                ..old(self)@
            }),
    {
        self.pending_note_jump = None;
        self.selected_id = Some(id.to_string());
    }

    /// A note is opened for editing from its context menu.
    pub fn edit_note(&mut self, id: &str)
        ensures
            final(self)@ == (SessionView {
                context_menu: None,
                pending_note_jump: None,
                selected_id: Some(id@),
                ..old(self)@
            }),
    {
        self.context_menu = None;
        self.pending_note_jump = None;
        self.selected_id = Some(id.to_string());
    }

    /// A search hit was chosen. The note becomes the selection and the menu
    /// closes; unless the note is already open, the jump to the hit waits
    /// for the note to load. Returns the jump: the hit's line and column
    /// (0 when the hit has none) and the query's length.
    pub fn open_search_result(&mut self, result: &SearchResult, note_is_open: bool) -> (r:
        PendingNoteJump)
        ensures
            r@ == (PendingNoteJumpView {
                note_id: result.note_id@,
                line: match result.match_line {
                    Some(l) => l,
                    None => 0,
                },
                column: match result.match_column {
                    Some(c) => c,
                    None => 0,
                },
                match_len: result.match_len,
            }),
            final(self)@ == (SessionView {
                selected_id: Some(result.note_id@),
                context_menu: None,
                pending_note_jump: if note_is_open {
                    old(self)@.pending_note_jump
                } else {
                    Some(r@)
                },
                ..old(self)@
            }),
    {
        let line = match result.match_line {
            Some(l) => l,
            None => 0,
        };
        let column = match result.match_column {
            Some(c) => c,
            None => 0,
        };
        let jump = PendingNoteJump {
            note_id: result.note_id.clone(),
            line,
            column,
            match_len: result.match_len,
        };
        self.selected_id = Some(result.note_id.clone());
        self.context_menu = None;
        if !note_is_open {
            self.pending_note_jump = Some(
                PendingNoteJump {
                    note_id: result.note_id.clone(),
                    line,
                    column,
                    match_len: result.match_len,
                },
            );
        }
        jump
    }

    /// Takes the pending jump if it is for the note `note_id`; a jump for
    /// another note stays pending.
    pub fn take_pending_note_jump(&mut self, note_id: &str) -> (r: Option<PendingNoteJump>)
        ensures
            match old(self)@.pending_note_jump {
                Some(j) => if j.note_id == note_id@ {
                    &&& opt_view(r) == Some(j)
                    &&& final(self)@ == (SessionView { pending_note_jump: None, ..old(self)@ })
                } else {
                    r is None && final(self)@ == old(self)@
                },
                None => r is None && final(self)@ == old(self)@,
            },
    {
        let matches = match &self.pending_note_jump {
            Some(j) => str_eq(j.note_id.as_str(), note_id),
            None => false,
        };
        if matches {
            let mut taken: Option<PendingNoteJump> = None;
            std::mem::swap(&mut taken, &mut self.pending_note_jump);
            taken
        } else {
            None
        }
    }

    /// The folder a new note goes into: the folder owning the selection,
    /// or the first top-level node when nothing is selected.
    pub fn find_selected_folder_id(&self) -> (r: Option<String>)
        ensures
            opt_string_view(r) == match self@.selected_id {
                Some(id) => find_folder_spec(self@.tree, id),
                None => if self@.tree.len() > 0 {
                    Some(self@.tree[0].id())
                } else {
                    None
                },
            },
    {
        proof {
            crate::model::lemma_nodes_view(self.tree@);
        }
        match &self.selected_id {
            Some(id) => find_folder_in_tree(self.tree.as_slice(), id.as_str()),
            None => {
                if self.tree.len() > 0 {
                    Some(self.tree[0].id().to_string())
                } else {
                    None
                }
            },
        }
    }

    /// Starts naming a new top-level folder.
    pub fn start_create_folder(&mut self)
        ensures
            final(self)@ == (SessionView {
                pending_create: Some(
                    PendingCreateView { parent_id: None, is_folder: true, input: Seq::empty() },
                ),
                ..old(self)@
            }),
    {
        self.pending_create = Some(
            PendingCreate { parent_id: None, is_folder: true, input: String::new() },
        );
    }

    /// Starts naming a new note in the folder of the selection. Returns
    /// whether there is such a folder (nothing happens otherwise).
    pub fn start_create_note(&mut self) -> (started: bool)
        ensures
            ({
                let target = match old(self)@.selected_id {
                    Some(id) => find_folder_spec(old(self)@.tree, id),
                    None => if old(self)@.tree.len() > 0 {
                        Some(old(self)@.tree[0].id())
                    } else {
                        None
                    },
                };
                match target {
                    Some(f) => started && final(self)@ == (SessionView {
                        pending_create: Some(
                            PendingCreateView { parent_id: Some(f), is_folder: false, input: Seq::empty() },
                        ),
                        ..old(self)@
                    }),
                    None => !started && final(self)@ == old(self)@,
                }
            }),
    {
        match self.find_selected_folder_id() {
            Some(fid) => {
                self.pending_create = Some(
                    PendingCreate { parent_id: Some(fid), is_folder: false, input: String::new() },
                );
                true
            },
            None => false,
        }
    }

    /// Starts naming a new folder inside `parent_id`, from its context
    /// menu: menus close and the parent is expanded.
    pub fn start_create_sub_folder(&mut self, parent_id: &str)
        ensures
            final(self)@ == (SessionView {
                context_menu: None,
                move_note_state: None,
                tree: expand_spec(old(self)@.tree, parent_id@),
                pending_create: Some(
                    PendingCreateView { parent_id: Some(parent_id@), is_folder: true, input: Seq::empty() },
                ),
                ..old(self)@
            }),
    {
        self.context_menu = None;
        self.move_note_state = None;
        ensure_expanded(&mut self.tree, parent_id);
        self.pending_create = Some(
            PendingCreate {
                parent_id: Some(parent_id.to_string()),
                is_folder: true,
                input: String::new(),
            },
        );
    }

    /// Starts naming a new note inside `folder_id`, from its context menu:
    /// menus close and the folder is expanded.
    pub fn start_create_note_in_folder(&mut self, folder_id: &str)
        ensures
            final(self)@ == (SessionView {
                context_menu: None,
                move_note_state: None,
                tree: expand_spec(old(self)@.tree, folder_id@),
                pending_create: Some(
                    PendingCreateView { parent_id: Some(folder_id@), is_folder: false, input: Seq::empty() },
                ),
                ..old(self)@
            }),
    {
        self.context_menu = None;
        self.move_note_state = None;
        ensure_expanded(&mut self.tree, folder_id);
        self.pending_create = Some(
            PendingCreate {
                parent_id: Some(folder_id.to_string()),
                is_folder: false,
                input: String::new(),
            },
        );
    }

    /// The name being typed for a new item changed.
    pub fn pending_create_input_changed(&mut self, value: String)
        ensures
            final(self)@ == match old(self)@.pending_create {
                Some(p) => SessionView {
                    pending_create: Some(PendingCreateView { input: value@, ..p }),
                    ..old(self)@
                },
                None => old(self)@,
            },
    {
        match &mut self.pending_create {
            Some(p) => {
                p.input = value;
            },
            None => {},
        }
    }

    /// The typed name was confirmed: the naming ends and the item to create
    /// is returned (a note without a folder gets the empty folder id).
    pub fn confirm_create(&mut self) -> (r: Option<CreateRequest>)
        ensures
            final(self)@ == (SessionView { pending_create: None, ..old(self)@ }),
            match old(self)@.pending_create {
                None => r is None,
                Some(p) => if p.is_folder {
                    r matches Some(CreateRequest::Folder { parent_id, name }) && opt_string_view(
                        parent_id,
                    ) == p.parent_id && name@ == created_name(p.input, true)
                } else {
                    r matches Some(CreateRequest::Note { folder_id, name }) && folder_id@ == (
                    match p.parent_id {
                        Some(f) => f,
                        None => Seq::empty(),
                    }) && name@ == created_name(p.input, false)
                },
            },
    {
        let mut taken: Option<PendingCreate> = None;
        std::mem::swap(&mut taken, &mut self.pending_create);
        match taken {
            None => None,
            Some(state) => {
                let name = created_name_exec(&state.input, state.is_folder);
                if state.is_folder {
                    Some(CreateRequest::Folder { parent_id: state.parent_id, name })
                } else {
                    let folder_id = match state.parent_id {
                        Some(f) => f,
                        None => String::new(),
                    };
                    Some(CreateRequest::Note { folder_id, name })
                }
            },
        }
    }

    /// Naming a new item was cancelled.
    pub fn cancel_create(&mut self)
        ensures
            final(self)@ == (SessionView { pending_create: None, ..old(self)@ }),
    {
        self.pending_create = None;
    }

    /// A top-level folder was created.
    pub fn folder_created(&mut self, node: TreeNode)
        ensures
            final(self)@ == (SessionView { tree: old(self)@.tree.push(node@), ..old(self)@ }),
    {
        let ghost t0 = self.tree@;
        self.tree.push(node);
        proof {
            lemma_nodes_view_push(t0, node);
        }
    }

    /// A folder was created inside `parent_id`.
    pub fn sub_folder_created(&mut self, parent_id: &str, node: TreeNode)
        ensures
            final(self)@ == (SessionView {
                tree: add_node_spec(old(self)@.tree, parent_id@, node@),
                ..old(self)@
            }),
    {
        add_node(&mut self.tree, parent_id, node);
    }

    /// A note was created: it is added to its folder. Anything that is not a
    /// note is ignored.
    pub fn note_created(&mut self, node: TreeNode)
        ensures
            final(self)@ == match node@ {
                NodeView::Note { meta } => SessionView {
                    tree: add_node_spec(old(self)@.tree, meta.folder_id, node@),
                    ..old(self)@
                },
                NodeView::Folder { .. } => old(self)@,
            },
    {
        let folder_id = match &node {
            TreeNode::Note { meta } => meta.folder_id.clone(),
            TreeNode::Folder { .. } => {
                return;
            },
        };
        add_node(&mut self.tree, folder_id.as_str(), node);
    }

    /// A note was moved in storage: the tree follows and menus close.
    pub fn note_moved(&mut self, meta: NoteMeta)
        ensures
            final(self)@ == (SessionView {
                tree: move_note_spec(old(self)@.tree, meta@),
                context_menu: None,
                move_note_state: None,
                ..old(self)@
            }),
    {
        move_note(&mut self.tree, meta);
        self.context_menu = None;
        self.move_note_state = None;
    }

    /// A context menu was opened on a node: any drag ends and the move
    /// submenu closes.
    pub fn show_context_menu(&mut self, target: ContextMenuTarget)
        ensures
            final(self)@ == (SessionView {
                dragging_note_id: None,
                drag_hover_folder_id: None,
                context_menu: Some(target@),
                move_note_state: None,
                ..old(self)@
            }),
    {
        self.clear_note_drag_state();
        self.context_menu = Some(target);
        self.move_note_state = None;
    }

    /// The context menu (and its submenu) closes.
    pub fn hide_context_menu(&mut self)
        ensures
            final(self)@ == (SessionView {
                context_menu: None,
                move_note_state: None,
                ..old(self)@
            }),
    {
        self.context_menu = None;
        self.move_note_state = None;
    }

    /// Back from the move submenu to the context menu.
    pub fn back_to_context_menu(&mut self)
        ensures
            final(self)@ == (SessionView { move_note_state: None, ..old(self)@ }),
    {
        self.move_note_state = None;
    }

    /// The move submenu opens for a note; its folder list is loading.
    pub fn open_move_note_menu(&mut self, note_id: &str, current_folder_id: &str)
        ensures
            final(self)@ == (SessionView {
                move_note_state: Some(
                    MoveNoteStateView {
                        note_id: note_id@,
                        current_folder_id: current_folder_id@,
                        folders: Seq::empty(),
                        loading: true,
                    },
                ),
                ..old(self)@
            }),
    {
        self.move_note_state = Some(
            MoveNoteState {
                note_id: note_id.to_string(),
                current_folder_id: current_folder_id.to_string(),
                folders: Vec::new(),
                loading: true,
            },
        );
        assert(options_view(Seq::<MoveFolderOption>::empty()) =~= Seq::empty());
    }

    /// The folders for the move submenu were read; they are shown if the
    /// submenu is still open for that note.
    pub fn move_folder_options_loaded(
        &mut self,
        note_id: &str,
        current_folder_id: &str,
        folders: Vec<Folder>,
    )
        ensures
            final(self)@ == match old(self)@.move_note_state {
                Some(m) => if m.note_id == note_id@ {
                    SessionView {
                        move_note_state: Some(
                            MoveNoteStateView {
                                note_id: m.note_id,
                                current_folder_id: current_folder_id@,
                                folders: move_options_spec(folders_view(folders@)),
                                loading: false,
                            },
                        ),
                        ..old(self)@
                    }
                } else {
                    old(self)@
                },
                None => old(self)@,
            },
    {
        match &mut self.move_note_state {
            Some(state) => {
                if str_eq(state.note_id.as_str(), note_id) {
                    state.current_folder_id = current_folder_id.to_string();
                    state.folders = build_move_folder_options(folders);
                    state.loading = false;
                }
            },
            None => {},
        }
    }

    /// A folder was chosen in the move submenu: menus close, any drag ends,
    /// and the move to make is returned unless the note is already there.
    pub fn move_note_to_folder(&mut self, note_id: &str, folder_id: &str) -> (r: Option<
        (String, String),
    >)
        ensures
            final(self)@ == (SessionView {
                context_menu: None,
                move_note_state: None,
                dragging_note_id: None,
                drag_hover_folder_id: None,
                ..old(self)@
            }),
            ({
                let current = match old(self)@.move_note_state {
                    Some(m) => Some(m.current_folder_id),
                    None => find_folder_spec(old(self)@.tree, note_id@),
                };
                if current == Some(folder_id@) {
                    r is None
                } else {
                    r matches Some((a, b)) && a@ == note_id@ && b@ == folder_id@
                }
            }),
    {
        let current = match &self.move_note_state {
            Some(state) => Some(state.current_folder_id.clone()),
            None => find_folder_in_tree(self.tree.as_slice(), note_id),
        };
        self.context_menu = None;
        self.move_note_state = None;
        self.clear_note_drag_state();
        let same = match &current {
            Some(c) => str_eq(c.as_str(), folder_id),
            None => false,
        };
        if same {
            None
        } else {
            Some((note_id.to_string(), folder_id.to_string()))
        }
    }

    /// Renaming of a node starts with its current name; menus close.
    pub fn start_rename(&mut self, id: String, is_folder: bool, current_name: String)
        ensures
            final(self)@ == (SessionView {
                context_menu: None,
                move_note_state: None,
                rename_state: Some(
                    RenameStateView { node_id: id@, is_folder, input: current_name@ },
                ),
                ..old(self)@
            }),
    {
        self.context_menu = None;
        self.move_note_state = None;
        self.rename_state = Some(RenameState { node_id: id, is_folder, input: current_name });
    }

    /// The name being typed in a rename changed.
    pub fn rename_input_changed(&mut self, value: String)
        ensures
            final(self)@ == match old(self)@.rename_state {
                Some(st) => SessionView {
                    rename_state: Some(RenameStateView { input: value@, ..st }),
                    ..old(self)@
                },
                None => old(self)@,
            },
    {
        match &mut self.rename_state {
            Some(st) => {
                st.input = value;
            },
            None => {},
        }
    }

    /// The rename was confirmed: it ends and is returned for storage.
    pub fn confirm_rename(&mut self) -> (r: Option<RenameState>)
        ensures
            final(self)@ == (SessionView { rename_state: None, ..old(self)@ }),
            opt_view(r) == old(self)@.rename_state,
    {
        let mut taken: Option<RenameState> = None;
        std::mem::swap(&mut taken, &mut self.rename_state);
        taken
    }

    /// The rename was cancelled.
    pub fn cancel_rename(&mut self)
        ensures
            final(self)@ == (SessionView { rename_state: None, ..old(self)@ }),
    {
        self.rename_state = None;
    }

    /// A rename was stored: the tree shows the new name.
    pub fn rename_completed(&mut self, id: &str, new_name: &str)
        ensures
            final(self)@ == (SessionView {
                tree: rename_spec(old(self)@.tree, id@, new_name@),
                ..old(self)@
            }),
    {
        rename_in_tree(&mut self.tree, id, new_name);
    }

    /// A node is about to be deleted: menus close.
    pub fn delete_node(&mut self)
        ensures
            final(self)@ == (SessionView {
                context_menu: None,
                move_note_state: None,
                ..old(self)@
            }),
    {
        self.context_menu = None;
        self.move_note_state = None;
    }

    /// A node was deleted in storage: it leaves the tree, and if it was the
    /// selection, nothing is selected any more. Returns whether the
    /// selection was cleared (the open note must then close).
    pub fn node_deleted(&mut self, id: &str) -> (cleared: bool)
        ensures
            cleared == (old(self)@.selected_id == Some(id@)),
            final(self)@ == (SessionView {
                tree: remove_spec(old(self)@.tree, id@),
                selected_id: if cleared {
                    None
                } else {
                    old(self)@.selected_id
                },
                ..old(self)@
            }),
    {
        remove_from_tree(&mut self.tree, id);
        let cleared = match &self.selected_id {
            Some(s) => str_eq(s.as_str(), id),
            None => false,
        };
        if cleared {
            self.selected_id = None;
        }
        cleared
    }

    /// The search text changed. A blank query ends the search; otherwise
    /// the search becomes active. Returns whether a search must be run.
    pub fn search_query_changed(&mut self, query: String) -> (run: bool)
        ensures
            run == (trimmed(query@).len() > 0),
            final(self)@ == if run {
                SessionView { search_query: query@, search_active: true, ..old(self)@ }
            } else {
                SessionView {
                    search_query: query@,
                    search_active: false,
                    search_results: Seq::empty(),
                    ..old(self)@
                }
            },
    {
        let blank = trim_chars(&chars_of(query.as_str())).len() == 0;
        self.search_query = query;
        if blank {
            self.search_active = false;
            self.search_results = Vec::new();
            assert(results_view(self.search_results@) =~= Seq::empty());
            return false;
        }
        self.search_active = true;
        true
    }

    /// Results arrived for `query`; they are kept only if the search text
    /// has not changed meanwhile.
    pub fn search_performed(&mut self, query: &str, results: Vec<SearchResult>)
        ensures
            final(self)@ == if old(self)@.search_query == query@ {
                SessionView { search_results: results_view(results@), ..old(self)@ }
            } else {
                old(self)@
            },
    {
        if str_eq(self.search_query.as_str(), query) {
            self.search_results = results;
        }
    }

    /// The search is cleared.
    pub fn clear_search(&mut self)
        ensures
            final(self)@ == (SessionView {
                search_query: Seq::empty(),
                search_results: Seq::empty(),
                search_active: false,
                pending_note_jump: None,
                ..old(self)@
            }),
    {
        self.search_query = String::new();
        self.search_results = Vec::new();
        self.search_active = false;
        self.pending_note_jump = None;
        assert(results_view(self.search_results@) =~= Seq::empty());
    }

    /// A storage error is shown; a move submenu still loading closes.
    pub fn db_error(&mut self, err: String)
        ensures
            final(self)@ == (SessionView {
                error: Some(err@),
                move_note_state: match old(self)@.move_note_state {
                    Some(m) => if m.loading {
                        None
                    } else {
                        Some(m)
                    },
                    None => None,
                },
                ..old(self)@
            }),
    {
        let loading = match &self.move_note_state {
            Some(m) => m.loading,
            None => false,
        };
        if loading {
            self.move_note_state = None;
        }
        self.error = Some(err);
    }

    /// The error banner is dismissed.
    pub fn dismiss_error(&mut self)
        ensures
            final(self)@ == (SessionView { error: None, ..old(self)@ }),
    {
        self.error = None;
    }

    /// Switches between the dark and the light theme.
    pub fn toggle_theme(&mut self)
        ensures
            final(self)@ == (SessionView { dark_theme: !old(self)@.dark_theme, ..old(self)@ }),
    {
        self.dark_theme = !self.dark_theme;
    }

    /// Makes the editor font one step larger or smaller, within limits.
    pub fn change_font_size(&mut self, delta: i8)
        ensures
            final(self)@ == (SessionView {
                editor_font_size: stepped_font_size(old(self)@.editor_font_size, delta),
                ..old(self)@
            }),
            MIN_FONT_SIZE <= final(self).editor_font_size <= MAX_FONT_SIZE,
    {
        let n: i32 = self.editor_font_size as i32 + delta as i32;
        self.editor_font_size = if n < MIN_FONT_SIZE as i32 {
            MIN_FONT_SIZE
        } else if n > MAX_FONT_SIZE as i32 {
            MAX_FONT_SIZE
        } else {
            n as u16
        };
    }

    /// Escape closes the innermost open thing: the context menu (ending any
    /// drag), else the naming of a new item, else a rename, else the error
    /// banner. Returns what was closed.
    pub fn escape(&mut self) -> (r: EscapeOutcome)
        ensures
            if old(self)@.context_menu is Some {
                r == EscapeOutcome::ClosedContextMenu && final(self)@ == (SessionView {
                    context_menu: None,
                    move_note_state: None,
                    dragging_note_id: None,
                    drag_hover_folder_id: None,
                    ..old(self)@
                })
            } else if old(self)@.pending_create is Some {
                r == EscapeOutcome::CancelledCreate && final(self)@ == (SessionView {
                    pending_create: None,
                    ..old(self)@
                })
            } else if old(self)@.rename_state is Some {
                r == EscapeOutcome::CancelledRename && final(self)@ == (SessionView {
                    rename_state: None,
                    ..old(self)@
                })
            } else if old(self)@.error is Some {
                r == EscapeOutcome::DismissedError && final(self)@ == (SessionView {
                    error: None,
                    ..old(self)@
                })
            } else {
                r == EscapeOutcome::NotHandled && final(self)@ == old(self)@
            },
    {
        if self.context_menu.is_some() {
            self.context_menu = None;
            self.move_note_state = None;
            self.clear_note_drag_state();
            return EscapeOutcome::ClosedContextMenu;
        }
        if self.pending_create.is_some() {
            self.pending_create = None;
            return EscapeOutcome::CancelledCreate;
        }
        if self.rename_state.is_some() {
            self.rename_state = None;
            return EscapeOutcome::CancelledRename;
        }
        if self.error.is_some() {
            self.error = None;
            return EscapeOutcome::DismissedError;
        }
        EscapeOutcome::NotHandled
    }
}

/// Whatever the size and the step, the editor font size stays between the
/// smallest and the largest size.
pub proof fn law_font_size_in_range(size: u16, delta: i8)
    ensures
        MIN_FONT_SIZE <= stepped_font_size(size, delta) <= MAX_FONT_SIZE,
{
}

/// The name a new item gets: a blank input gives a note the name `新建笔记`
/// and a folder the name `新建文件夹`; any other input gives the input
/// without its surrounding whitespace.
pub proof fn law_created_names(input: Seq<char>)
    ensures
        trimmed(input).len() == 0 ==> created_name(input, false) == "新建笔记"@,
        trimmed(input).len() == 0 ==> created_name(input, true) == "新建文件夹"@,
        trimmed(input).len() > 0 ==> created_name(input, false) == trimmed(input),
        trimmed(input).len() > 0 ==> created_name(input, true) == trimmed(input),
{
}

} // verus!
