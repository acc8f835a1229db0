# oxideav-tga

A Truevision TGA (TARGA) reader and writer whose behaviour is stated in
Verus contracts and proved.

- `src/` is the verified library: the header, footer and extension-area
  layouts, the decoder for image types 1/2/3/9/10/11 (raw and run-length,
  colour-mapped, true-colour and grayscale), the six writers, the TGA 2.0
  metadata readers and writer (extension area, postage stamp,
  colour-correction and scan-line tables, developer area), and the integer
  passes of the display pipeline. Each public function's contract is
  stated over spec functions of the on-disk bytes (`spec_parse_tga`,
  `spec_encode_truecolour`, `spec_encode_with_extension`, ...).
- The laws the library keeps are public proof functions: what each writer
  writes, the decoder reads back (`laws.rs`, `palette_laws.rs`); what the
  metadata writer writes, the metadata readers read back (`ext_laws.rs`,
  and `stamp_laws.rs` for postage stamps);
  appended bytes and header edits leave the raster alone (`file_laws.rs`);
  every row read through a computed scan-line table is the matching row of
  the whole decode, and every file the writers produce has such a table
  (`scanline_laws.rs`); and the section round trips in
  `types.rs`, `cct.rs`, `scanline.rs`, `developer.rs`, `descriptor.rs`.
- `app/` is the glue Verus does not see: the `oxideav-core` container and
  codec registration, the floating-point gamma and aspect-ratio helpers,
  and the display pipeline that runs the gamma curve between the
  library's two halves.
- `tests/` exercises the library from outside.
