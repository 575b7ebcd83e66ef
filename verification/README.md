# paper

The editing engine of a modal terminal text editor, written in Verus.

`src/` is the verified library:

- `ui` — indexes, lengths, regions and the edits a user interface draws;
- `convert` — integer conversions, done by the `try_from` crate;
- `number` — decimal numbers read and written as characters;
- `line_number`, `place` — line numbers, places, sections, pointers and marks;
- `text`, `view` — the lines of a text and the part of it that is shown;
- `utf8` — offsets in the UTF-8 bytes of a text, which pointers and line lengths count in;
- `filter`, `search` — line features (`#n`, `#a.b`, `#o+m`) and regular-expression features
  (`/expr`, matched by the `rec` crate);
- `adjustment`, `update` — how typing at every mark changes the text and moves the marks;
- `paper`, `change_mode` — the state of the editor and its operations;
- `laws` — properties proved across these operations.

`app/` reads and writes files and hands edits to a terminal.
