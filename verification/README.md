# lib: a verified JPEG 2000 codestream library

The library reads and writes the marker segments of JPEG 2000 codestreams
(SIZ, COD/COC, QCD/QCC, POC, SOT, TLM, PLT, MCT, MCC, MCO, CBD and the
others), checks and completes encoding parameters (profiles, tile grid,
tile coding parameters), keeps the codestream index, and handles image
components and tiles: clipping and rescaling samples, copying tile data into
the output image, block-sparse sample arrays, and the integer colour
transforms. Every function in `src/` carries a contract that Verus proves.

Layout:

- `src/`: the verified library, one module per part of the codestream or of
  the image model (`siz`, `coding`, `comp_segments`, `poc`, `tile`,
  `tile_header`, `header`, `encoder`, `params`, `image`, `sparse_array`, ...).
  Public proof functions state the laws that relate several operations,
  such as what a segment reader gives back of what the writer wrote.
- `tests/`: ordinary Rust tests of the library.
- `app/`: what Verus does not check: file access, real-valued transforms and
  conversions, text dumps, the codestream reads around the tile-part header
  state machine, and raw-pointer entry points.

Verify with Verus on `src/lib.rs`; the tests build against the compiled
library.
