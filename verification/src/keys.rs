//! Keyboard shortcuts.

use vstd::prelude::*;
use crate::text::str_eq;

verus! {

/// What a keyboard shortcut asks for.
#[derive(Debug, Clone, Copy, PartialEq, Eq, Structural)]
pub enum Shortcut {
    Save,
    NewNote,
    FocusNoteSearch,
    FocusGlobalSearch,
    ToggleEditMode,
    ExportNote,
    Undo,
    Redo,
    FontLarger,
    FontSmaller,
}

/// The shortcut for the character key `key` pressed with or without the
/// command modifier (Ctrl) and Shift.
pub open spec fn shortcut_spec(key: Seq<char>, command: bool, shift: bool) -> Option<Shortcut> {
    if !command {
        None
    } else if key == "s"@ {
        Some(Shortcut::Save)
    } else if key == "n"@ {
        Some(Shortcut::NewNote)
    } else if key == "f"@ {
        Some(if shift { Shortcut::FocusGlobalSearch } else { Shortcut::FocusNoteSearch })
    } else if key == "e"@ {
        Some(if shift { Shortcut::ExportNote } else { Shortcut::ToggleEditMode })
    } else if key == "z"@ {
        Some(if shift { Shortcut::Redo } else { Shortcut::Undo })
    } else if key == "y"@ {
        Some(Shortcut::Redo)
    } else if key == "="@ || key == "+"@ {
        Some(Shortcut::FontLarger)
    } else if key == "-"@ {
        Some(Shortcut::FontSmaller)
    } else {
        None
    }
}

/// The shortcut bound to the character key `key` with the given modifiers.
pub fn shortcut(key: &str, command: bool, shift: bool) -> (r: Option<Shortcut>)
    ensures
        r == shortcut_spec(key@, command, shift),
{
    if !command {
        None
    } else if str_eq(key, "s") {
        Some(Shortcut::Save)
    } else if str_eq(key, "n") {
        Some(Shortcut::NewNote)
    } else if str_eq(key, "f") {
        Some(
            if shift {
                Shortcut::FocusGlobalSearch
            } else {
                Shortcut::FocusNoteSearch
            },
        )
    } else if str_eq(key, "e") {
        Some(
            if shift {
                Shortcut::ExportNote
            } else {
                Shortcut::ToggleEditMode
            },
        )
    } else if str_eq(key, "z") {
        Some(
            if shift {
                Shortcut::Redo
            } else {
                Shortcut::Undo
            },
        )
    } else if str_eq(key, "y") {
        Some(Shortcut::Redo)
    } else if str_eq(key, "=") || str_eq(key, "+") {
        Some(Shortcut::FontLarger)
    } else if str_eq(key, "-") {
        Some(Shortcut::FontSmaller)
    } else {
        None
    }
}

} // verus!
