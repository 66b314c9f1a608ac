# filtro

Image filtering organised as a four-stage pipeline — Analyzer, Constructor,
Formatter, Renderer — with filters that live outside the core and register
themselves in a `FilterRegistry`.

The library under `src/` is written in Verus: each public function carries a
`requires`/`ensures` contract over mathematical models (sequences of bytes,
pixels, texts), and the laws of the library (merging of filter requirements,
read-after-write of pixels, flattening, proportional shrinking, the colour and
threshold filters keeping alpha…) are stated as public proof functions.

- `src/model/` — pixel types, errors, the pipeline stages, the filter contract
  and registry, the bridge to the `image` crate (`codec.rs`, the only file that
  calls it) and the density readers for PNG and JPEG.
- `src/filters/` — the shipped filters `jaune`, `vert`, `rouge`, `noir-blanc`.
- `src/controller.rs` — what a command line asks for (formats, sizes, filter
  expressions, the pipeline to run).
- `src/view.rs` — human-readable byte counts.
- `src/red.rs` — the red filter on a bare RGB buffer.
- `src/text.rs` — the text functions the parsers rely on.
- `src/rounding.rs` — binary rounding in integers, so that the luminance,
  the proportional shrinking and the size report give exactly what the
  machine's single- and double-precision arithmetic gives.
- `app/` — the `filtro` program: argument parsing with `clap`, file input and
  output, terminal report, error messages with `thiserror`.
- `tests/` — unit and end-to-end tests.
