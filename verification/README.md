# comic_ocr

Synthetic manga OCR training crops, and the character vocabulary built from
an exported training corpus.

- `src/` is the verified library (Verus):
  - `render.rs`: which characters a crop draws, whether the font has glyphs
    for them, the canvas size and every glyph cell's position, and the count
    of inked pixels; with the layout laws (cells inside the padding and
    disjoint, columns right to left, wrapping adds runs, single runs are tall
    or wide).
  - `degrade.rs`: the ground (bright-mode) estimate, the JPEG round trip with
    its quality clamped, and the JPEG quality a scan of each quality is drawn
    with.
  - `corpus.rs`, `json.rs`: which files of a corpus hold records, the lines of
    a JSON-lines file, parsing each record, the label of a record (a
    `rejected` record is refused), and whether a vocabulary may be written.
  - `text.rs`: characters and whitespace.
- `app/` is the command-line program and the floating-point parts: blur,
  rotation, noise, glyph rasterisation and file I/O.
- `tests/` exercises the library on concrete values.
