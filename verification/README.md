# shotdiff

Side-by-side screenshot diff: `BEFORE | DIFF | AFTER`, changed pixels in pink.

- `src/` is the verified library (Verus): the pixel rule (`pixel`), the RGBA
  image model with the `image` crate operations it uses and the padding and
  panel layout (`raster`), the DIFF panel and the whole comparison (`diff`),
  Base64, media-type sniffing and `data:` URIs (`encode`), the browser viewer
  page (`html`) and the command-line grammar (`cli`).
- `app/main.rs` is the program: reading and writing files, decoding and
  encoding images, opening a browser, and the floating-point `--max-diff` gate.
- `tests/` exercises the library.
