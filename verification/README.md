# hipfire_quantize

Quantizes model weights into `.hfq` files. The library is verified with Verus; the
program around it is ordinary Rust.

- `src/` is the library. It decides which tensors are stored and how, lays out
  every stored format byte by byte, and frames the file. Floats are held by their
  bit patterns: conversions between formats, comparisons, ranges and rounding to
  small formats are integer functions with exact contracts.
  - Numbers and text: `ieee`, `minifloat`, `bytes`, `decimal`, `text`, `order`.
  - Formats: `pack`, `blocks`, `q4`, `q8hfq`, `q1_0`, `hfp4`, `lloyd`, `fwht`,
    `dequant`.
  - Decisions: `names`, `kmap`, `spelling`, `formats`, `recipe`, `plan`, `imatrix`,
    `resolve`.
  - Files: `hfq`, `safetensors`, `catalog`, `config`, `gguf`.
- `app/` is the program: arguments, files, threads, and floating-point arithmetic
  (rotations, scales, codes and means). It links no reader of GGUF files; one is
  plugged in behind the trait `GgufFile`.
- `tests/` runs the library on concrete values.

Laws that relate several functions are public proof functions named `law_*`.
