//! Verified core of a hierarchical Markdown notepad: the folder/note tree,
//! full-text search over note contents, preview preparation, and the
//! small pieces of editor state the application keeps.

pub mod model;
pub mod text;
pub mod tree_ops;
pub mod search;
pub mod preview;
pub mod md_shortcut;
pub mod highlight;
pub mod folder_options;
pub mod status;
pub mod session;
pub mod editing;
pub mod desktop;
pub mod records;
pub mod keys;
pub mod attachments;
pub mod note_state;
