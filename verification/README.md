# mdedit

A small Markdown editor with a rendered editing view, an outline, a file
tree and a full-text search. This crate is its logic as a library whose
behaviour is stated in contracts and proved with Verus; `app/` is the
desktop program (egui/eframe) around it.

## Layout

- `src/` — the verified library:
  - `document/` — the text buffer (edits by byte offset), the undo/redo
    history, the document;
  - `editor.rs` — splitting a text into blocks (headings, paragraphs,
    code, quotes, lists, tables, rules);
  - `editing.rs` — edits of the block being edited (inline markers, line
    prefixes, snippets), writing a block back, the window title;
  - `inline.rs`, `rich.rs` — what a rendered block shows;
  - `renderer.rs` — blocks read from the `pulldown-cmark` event stream;
  - `outline.rs` — headings, their visibility and section numbers;
  - `file_tree.rs`, `naming.rs`, `natord.rs` — the tree of the data
    directory, names for new and pasted entries, natural order of names;
  - `search.rs` — the search bar and the search through the data
    directory (matching by the `regex` crate);
  - `config.rs`, `css.rs`, `color.rs`, `sheet.rs`, `table.rs` — the
    settings file, theme style sheets, their colours and which of them a
    theme takes;
  - `palette.rs` — the built-in colours: interface, extra parts and note
    theme, per theme mode;
  - `prefs.rs` — the note theme, interface theme and fonts named in the
    application's JSON preferences file (read by `serde_json`);
  - `modes.rs`, `toolbar.rs` — themes, editing modes, toolbar actions;
  - `cli.rs` — the file and the options named on the command line;
  - `fonts.rs` — the font files that belong to a configured family;
  - `text.rs`, `bytes.rs` — characters, lines and UTF-8 offsets.
- `tests/` — tests on concrete values.
- `app/` — the program: windows, panels, input, files and settings on
  disk, themes with their float sizes and egui colours.
