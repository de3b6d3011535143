# cry_image

Texture block compression and container handling for CryEngine assets,
written in Verus: the integer logic carries `requires`/`ensures` contracts
and is proved.

- `src/` — the verified library: BC1–BC5 and CTX1 block layouts,
  encoders and decoders, and the BC7 mode-6 encoder; the fields of BC7
  blocks (mode, partition, rotation, index mode, expanded endpoints,
  per-pixel subsets and indices) and of BC6H blocks (mode, endpoints
  rebuilt from their raw fields, their half-float values and the
  indices); the BC7 and BC6H block writers, the BC7 anchor-index fix-up
  and the ranking of partition candidates; the per-format block assembly
  of the compressor; the compiler's per-image decisions (texture kind,
  target format, colour space, alpha, gloss and resolution settings);
  whole-texture decoding of BC1–BC5 and CTX1 textures (not BC6H or BC7);
  half-float bit conversions and BC6H endpoint (un)quantization; ASTC,
  PVRTC and ETC block packing with Morton ordering; DDS, TGA and
  CryEngine TIFF writers; IPTC metadata and special-instruction parsing;
  DDS/TIFF asset details; image properties and resolution-reduce
  settings; 3D LUT colour charts; histograms, channel conversions and
  R9G9B9E5 packing. The partition tables (subset maps and anchor pixels)
  and the BC6H bit layouts are inputs of the functions that need them.
  Laws such as the IPTC and CryEngine TIFF round trips, the Morton and
  half-float round trips, the BC/CTX1 block read-backs, the read-back of
  written BC7 blocks, the cleared BC7 anchors and the ordered partition
  candidates are public proof functions.
- `tests/` — tests of the library on concrete values.
- `app/` — the unverified rest: floating-point metrics, filtering
  and normal-map processing, `f32` sides of the half-float and R9G9B9E5
  conversions, file I/O, HDR loading through `image`, and the
  thread-parallel whole-image drivers built on `rayon`.
