# pdf-viewer

A dark-theme PDF reader. The library (`src/`) holds the reader's logic with
Verus contracts and proofs; the program (`app/`) is the eframe window around
it, with PDFium for opening, rendering and searching documents.

- `src/search.rs` — case-insensitive search over page texts.
- `src/theme.rs` — the theme table, the brightness sampling grid and the
  BGRA-to-RGBA conversion with tinting.
- `src/cache.rs` — the least-recently-used cache of rendered pages.
- `src/selection.rs` — what a drag, a double click, a triple click or
  select-all selects.
- `src/bookmarks.rs` — the file of saved reading positions.
- `src/viewer.rs` — the viewer's state and what each user action does to it.
- `src/text.rs` — the parts of std's string handling the logic relies on.
- `app/` — input, drawing, PDFium, file I/O and the floating-point geometry,
  colour and scrolling arithmetic.
