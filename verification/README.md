# pixel-forge

A terminal pixel art editor: a 32x24 canvas, a 40-colour palette, pencil,
eraser and flood-fill tools, and unlimited undo.

- `src/` is the library, verified with Verus: the canvas and its drawing
  primitives (`canvas`, with the models in `grid`, `fill`, `line`, `rect`,
  `ansi`), colours and the palette (`color`, `text`), the editor state and its
  key handling (`editor`), what the screen shows (`screen`), and properties that
  span several operations (`laws`).
- `tests/` exercises the library on concrete values.
- `app/` is the terminal front end (crossterm and ratatui): it reads keys,
  hands them to `App::handle_key`, and draws what `App::canvas_cells` and
  `App::palette_rows` describe. It also holds serde-serialisable copies of the
  library's data types.
