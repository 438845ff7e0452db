# tyrannus

A terminal word processor: a block document with an inline tree, an edit
reducer, a wrapping layout with caret mapping, a viewport-bounded layout
cache, TOML configuration with themes and key remaps, and the session logic
of the editor's menus and dialogs. The library is written in Verus: each
function carries a contract, and Verus proves the code against it.

## Layout

- `src/` — the verified library
  - `document.rs`, `cursor.rs`, `text.rs` — the document model, carets,
    UTF-8 offsets over char sequences
  - `edit.rs`, `edit_laws.rs` — the edit reducer and what edits do to the
    document's text
  - `layout.rs`, `layout_laws.rs` — wrapping into visual lines, caret
    row/column mapping, and what a layout shows
  - `arrow_laws.rs` — what the arrow keys do to the caret in plain text
  - `viewport.rs` — viewport ranges, dirty regions, the render scheduler and
    the layout cache
  - `config.rs`, `theme_presets.rs` — configuration, themes, presets
  - `commands.rs` — palette, key bindings, plain-text documents, file names
  - `session.rs` — overlay keys, commands, recent documents, snapshots,
    editor keys
  - `render.rs`, `panels.rs` — what the screen shows: styles, body rows, the
    status line, dialogs, text wrapping
  - `strings.rs`, `search.rs` — char-level helpers and index searches
- `tests/` — tests of the library, run against the compiled crate
- `app/` — the terminal program: event loop, files on disk, painting with
  ratatui and crossterm
