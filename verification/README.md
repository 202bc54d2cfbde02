# pliron-tensor

Tensors and memrefs for compilers: types, operations, their checks, how operations on tensors
become operations on memrefs, and how those become loops, loads and stores.

- `src/` is the library. Its functions have contracts, and Verus proves them. What they call of
  other crates, and of the standard library where Verus has no specification, stands behind a few
  small functions whose contracts are trusted, in `bytes`, `collections`, `memref::elements` and
  `memref::hex`.
  - `ir` has types, values and operations; `plan` has what an operation is replaced by;
    `semantics` says what a plan does to memory.
  - `memref` and `tensor` have the two dialects: types, operations, attributes and conversions.
    `tensor::bufferize` decides which tensors may share memory.
  - `text`, `tokens`, `op_text` and `forward` print and parse.
- Public proof functions whose names begin with `law_` state what holds of several functions
  together: that lowered operations compute what they should, that printing and parsing are
  inverse, that no write in place is seen by a later read.
- `tests/` runs the library, and in `tests/pipeline.rs` what operations are replaced by.
- `app/` is ordinary Rust: error messages, memory that compiled code works on, programs of the IR
  as the analysis reads them, plans carried out on the IR, operations as statements, and constants
  as attributes.
