# HEIF/HEIC container parsing, pixel processing and image encoding, verified with Verus

The library (`src/`) demuxes ISO-BMFF / HEIF containers (`ftyp`, `meta`, `iloc`, `iinf`,
`iprp`/`ipco`/`ipma`, `iref`, `grid`), extracts item data and Annex-B streams, processes
pixel buffers (blits, crops, grid assembly, EXIF orientation, alpha merging and
flattening, format conversion) and encodes PNG (stored deflate in zlib), lossless WebP
(VP8L in RIFF) and the integer parts of baseline JPEG (quantization tables, canonical
Huffman coding with byte stuffing, marker segments, the entropy-coded scan). Every function
carries a contract over a mathematical model of its data, and the library states its laws
as proof functions next to the code they are about.

Layout:

- `src/boxes/`: box headers and iteration, each box type, item properties.
- `src/container/`: the demuxed container, how it is built, and item data extraction.
- `src/parser.rs`: format detection, top-level parsing and container inspection.
- `src/processing/`: pixel buffers, orientation, colour operations, grid assembly.
- `src/encoder/`: PNG, WebP and JPEG encoders.
- `src/types.rs`, `src/limits.rs`, `src/error.rs`: shared types, resource limits, errors.
- `tests/`: scenario tests run against the compiled library.
- `app/`: the encoder trait, the floating-point JPEG front end (colour conversion, DCT,
  quantization) and fuzzing entry points, which stay outside the verified code.
