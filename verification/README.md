# emeraldian

The text engine of a notes editor for the terminal: a line buffer with undo, the
layout that wraps it across the rows of a screen, a vim-style modal layer, and the
reordering that right-to-left text needs before a terminal can draw it.

The library is written in Verus. Every executable function states what it does by
a function on values, and Verus proves that it does that and nothing else.

## Layout

- `src/editor.rs`, `src/editor/` — the buffer. `model.rs` says what each command
  makes of it; the other files are the commands.
- `src/layout.rs`, `src/measure.rs`, `src/marker.rs` — rows, columns, list markers.
- `src/vim.rs`, `src/vim/` — the modal layer, with its own `model.rs`. It works on
  the values in `src/app.rs` and asks the application for the rest.
- `src/bidi.rs`, `src/bidi/`, `src/text.rs` — logical and visual order, Arabic
  joining forms, one-line text.
- `src/modal.rs` — what overlays show.
- `src/laws.rs`, `src/laws/` — what holds of all of this together: undo takes back
  an edit, what one command takes another puts back, a click on the caret is where
  the caret is, every character is drawn once.
- `app/` — a small program around the library, which does the input and output.

## What is taken on trust

Unicode's tables and the bidirectional algorithm come from `unicode-width`,
`unicode-bidi` and the standard library. The functions that call them are marked
`external_body`, or carry an `assume_specification`, and say above them what is
claimed of the call.
