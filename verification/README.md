# editor

The core of a terminal text editor, verified with Verus: buffers with undo and redo,
cursors that move over wrapped lines, the layout of a screen of rows, the formatting of
rows into drawable runs, search, and the bookkeeping of what has to be drawn again.

Layout:

- `src/` — the verified library.
  - `rope.rs`: the model of a `ropey::Rope` (its characters, lines and line starts) and the
    trusted wrappers of the rope operations the library calls.
  - `unicode.rs`, `word.rs`, `strings.rs`: named results of `unicode-segmentation`,
    `unicode-width` and the character classes of `char`, word motions, and string helpers.
  - `text/`: the first editor core — buffers with history (`buffer`), a cursor over lines
    cut into cells (`cursor`, `lineworker`, `rowiter`), line wrapping (`linewrap`, `wrap`,
    `smart`), views and rows to draw (`bufferview`, `viewrow`, `render`, `display`), the
    application that hands keyboard and mouse commands to a view (`bufferview`), search,
    variables, recorded macros (`macros`) and rotating lists.
  - `tui/`: the terminal editor core — grapheme-aware cursors and layout (`cursor`,
    `lineworker`, `viewchar`, `format`), blocks of rows to draw (`display`, `row`) and the
    buffer block that ties a buffer, its cursor and its rows together (`bufferblock`), the
    windows with their gutter and status row (`layout`), and the editor and its two screen
    layouts (`editor`): what each command does to the shown window, the command row with
    its search and `:set` commands, and the switching between windows.
  - `text/command.rs`, `text/input.rs`: the commands, the parser of the command line, and
    the input state machine that turns parsed key sequences into commands, with the change
    history that `.`-style repeats replay.
- `tests/` — tests of the library on concrete values.
- `app/` — the unverified edge: reading files into buffers, drawing the library's drawing
  steps on a terminal with `crossterm`, taking the terminal's size on a refresh, and the
  floating-point page scroll.

Display widths of graphemes come from `unicode-width`: the editor measures a grapheme by the
columns a terminal gives it, and that crate is the standard table of those widths.

Not in the library: the key-binding parser that feeds the input state machine, the motions
with their registers (delete, yank and paste over a motion), reading a file for a new window
(`app/` reads it and hands the buffer over), the scrolling of a view (the view has no
scrolling of its own here), and the application's event loop.
