# notepad

A hierarchical Markdown notepad: folders and notes in a tree, a split
editor with live preview, case-insensitive full-text search, images stored
with the notes, undo/redo, and a desktop launcher.

The decisions of the program live in the verified library under `src/`,
each public function with a contract over mathematical models:

- `model`, `records`: the stored records and the tree built from them.
- `tree_ops`: searching and editing the sidebar tree (laws on removal,
  renaming, moving notes and toggling folders).
- `search`: case-insensitive matching, hit positions, excerpts, the search
  over all notes and the highlights inside the open note.
- `preview`, `attachments`: preparing text for the Markdown preview and
  finding the stored image an image link names.
- `session`, `note_state`, `editing`, `keys`: the application state and how
  each user action changes it; the bounded undo history.
- `folder_options`, `highlight`, `status`, `md_shortcut`, `desktop`: the
  move-to-folder list, editor highlights, status-bar figures, Markdown
  snippets and the launcher entry.

`app/` is the program around it: the iced window, SQLite storage, file
dialogs and the launcher files. `tests/` runs the library on concrete
values.
