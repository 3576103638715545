# sokoban

A Sokoban game whose rules, level format, map editor and collection files
are written in Verus and proved against their contracts.

Layout:

- `src/` — the verified library.
  - `coord`, `pos_set`, `state`, `rules`: positions, the set of boxes, the
    game state and the step rule (`try_step`).
  - `level`: the level grid, the level-pack text format and its parser.
  - `render`: the text picture of a board.
  - `session`: playing through a pack, with reset, level switching and a
    bounded undo history.
  - `editor`, `editor_session`: the map editor's grid, brushes, resizing,
    warnings and its undo history.
  - `editor_model`, `persist`: editable collections, name rules, the saved
    text and the proof that a saved collection reads back unchanged.
  - `menu`: list scrolling, selection moves, size input and file names used
    by the menus.
  - `paths`: where data and user files live, with environment overrides.
  - `messages`, `text`: error texts and string helpers.
- `tests/` — tests run against the compiled library.
- `app/` — the terminal front end: argument handling, files and the
  crossterm loop.
