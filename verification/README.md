# mist

The core of a modal text editor, verified with Verus: the text is a `ropey` rope,
edits are change sets, and the cursor state is a selection of ranges with one
primary range.

## Layout

- `src/` — the verified library.
  - `text.rs`: the trusted layer over `ropey` and `unicode-segmentation` (ropes,
    slices, char iterators, grapheme boundaries), stated over the chars a text holds.
  - `transaction.rs`: change sets (retain / delete / insert), applying them to a rope
    and inverting them, with the laws that tie the two together.
  - `selection.rs`: ranges and normalized selections.
  - `grapheme.rs`, `movement.rs`, `search.rs`, `chars.rs`, `line_ending.rs`: grapheme
    stepping, horizontal, vertical and word motions, find-char search, char classes.
  - `editor.rs`: the editor state, its motions, its edits (typing, Backspace,
    delete, change, paste, opening lines) and the undo / redo history.
  - `document.rs`: the document, picking its encoding and decoding its bytes chunk
    by chunk into the text the whole file decodes to.
  - `keymap.rs`: what a keypress means in each mode, and carrying it out on the
    editor (counts, pending f/t/F/T and g keys included); the table of key bindings
    built from the defaults and the configuration.
  - `screen.rs`: what each visible line shows.
  - `theme.rs`, `config.rs`, `mode.rs`: themes, configuration, modes.
- `tests/` — tests run against the compiled library.
- `app/` — the program around the library: reading files, the Lua configuration,
  converting window keys, and the floem window.
