# insta_keyframes

Keyframe extraction support for dual-lens Insta360 captures, written in Verus.

- `src/` is the verified library. Each public function carries a `requires` /
  `ensures` contract over a mathematical model (`Seq`, `Set`, `int`, views), and
  the properties that span several functions are public proof functions
  (`lemma_*`). Modules:
  - `timestamps`, `duration`, `text`: time units, command-line durations, string
    helpers with exact character-level specifications;
  - `insta360`: choosing the lens pair among a directory's files, lens sync,
    telemetry trailer detection;
  - `pairs`: temporal and geometry candidate pairs, the pair graph and COLMAP pair ids;
  - `mask`, `image`, `objects`: mask algebra (invert, combine, morphology, feather,
    rectangles), nearest-neighbour resizing, cleaning images under a mask, and the
    detector/segmenter interfaces with their dummy implementations;
  - `colmap`, `output`, `imu`, `config`, and the manifest records.
- Calls into `image` and `imageproc` go through a few small trusted wrappers
  (`#[verifier::external_body]`), each documented with what its contract assumes.
- `tests/` runs the library on concrete values.
- `app/` is the command-line program around the library: argument parsing, file,
  database and video I/O, serialisation, and the floating-point geometry and IMU code.

Verify with Verus on `src/lib.rs`; build and test with Cargo.

Not available in this build: keyframe selection, frame extraction and the run
manifest (the `run`/`analyze` commands stop with an error before selection), the
pair-graph diagnostics file, and the `scene-mask` program. Their sources (the
selection, video, people, shadows, temporal-mask and keyframes modules) are not part
of this project's tree, so only the parts around them are here.
