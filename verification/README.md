# zenfilters

Photo filters on planar Oklab data, with an EXIF metadata parser and a
reader for Adobe `.cube` 3D LUT files. The library in `src/` is written in
Verus: each public function carries a contract, and the proofs are checked.

- `src/exif.rs` — TIFF/EXIF parsing: byte order, IFD walking, camera, exposure
  and GPS tags.
- `src/cube_lut.rs` — the `.cube` text grammar: keywords, comments, data rows
  and their numbers, size checks.
- `src/auto_levels.rs` — range detection on a luminance histogram
  (plateau detection, percentile clipping, median bin).
- `src/basecurve.rs` — the choice of a camera tone curve from the EXIF maker
  and model (an exact camera match first).
- `src/film_preset.rs` — the film look catalogue, names and identifiers.
- `src/planes.rs`, `src/filter.rs` — planar storage (samples held as
  `f32` bit patterns) and the filter interface.
- `src/grayscale.rs`, `src/median_blur.rs`, `src/invert.rs` — filters, and
  the chroma half of inversion, whose work is exact on bit patterns.
- `src/text.rs` — decimal formatting and UTF-8 decoding.

`app/` holds what needs floating-point arithmetic (rational values, LUT
interpolation, histogram stretching, tone curves, colour inversion,
RGB-plane filters) and the serde forms of the library's types. `tests/` exercises the library.
