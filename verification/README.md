# webgpui

A small UI toolkit whose logic is verified with Verus.

- `src/` is the verified library: widget state machines (`widget`), focus
  traversal and held keys (`input`), the arena node tree (`tree`), the
  legacy-API compat layer with its colour and number parsing (`compat`),
  render-graph ordering (`graph`), batch planning (`batch`), back-end
  selection and the headless CPU renderer (`render`), the image registry
  with PNG / JPEG decoding through the `image` crate, and back-end switching
  (`app`), the demo screen's interaction logic, bitmap
  font and key names (`demo`), and the developer-overlay font (`devtools`).
  Each public function states its result in `ensures`; the properties that
  span several calls are public `lemma_*` proof functions.
- `tests/` exercises the library on concrete values.
- `app/` is the demo program around the library: floating-point geometry,
  layout, drawing, animation, frame timing, reading image files and
  rasterizing SVGs, the process-wide compat API and command-line handling.
  No GPU or windowing crate is linked: the headless CPU renderer draws, and
  the windowed event loop reports that it is unavailable.
