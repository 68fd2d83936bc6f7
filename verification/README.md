# game-asset

A stateless command-line tool for generating and post-processing game assets
(images, sprite sheets, video frames, audio, contact sheets and manifests),
with its decision logic verified in Verus.

## Layout

- `src/` — the verified library. Argument parsing and validation, the image
  provider's instruction and polling decisions, sprite-sheet and contact-sheet
  geometry, pixel analyses (alpha trimming, key-color detection and keying),
  manifest entries and their ordering, the self-update plan, and the event
  stream. Every function carries a contract, and the laws of the library
  (fail-closed outputs, pack/slice round trip, distinct frame and variation
  names, version ordering, shell quoting round trip, manifest order) are
  proved as `law_*` proof functions.
- `app/` — the executable around the library: command-line parsing, files,
  processes, HTTP, image codecs and resampling, and the floating-point audio
  synthesis and keying ramps.
- `tests/` — scenario tests of the library's public functions.

## Outside crates

`hex` (color and audio decoding) and `sha2` (file digests) are called from
the library behind trusted wrappers in `src/external.rs`, and `image`
(decoding the provider's PNG, and pixel blending for sheets and canvases)
behind wrappers in `src/pixels.rs`; the other crates are used by the
executable only.
