# regexplain

A terminal UI for explaining and visualizing regular expressions.

The pattern is parsed with `regex_syntax` into a simplified tree; a
description tree and a colouring of the pattern are built from that tree,
and the text to match is searched with `regex`.

## Layout

- `src/` — the library, verified with Verus: the simplified syntax tree
  (`types`, `syntax`, `convert`), descriptions (`desc`), colours
  (`colorize`), capture-group trees (`matcher`), the description-tree and
  generic tree widgets' state, layout and drawing plans (`desctree`,
  `tree`), cursor arithmetic over the editors' lines (`textarea_ext`,
  `editor`), the saved session format (`state`) and the interface's
  decisions (`tui`).
- `app/` — the program: command-line arguments, the terminal, the editors,
  the clipboard, the session file and the colour arithmetic.
- `tests/` — tests of the library on concrete values.
