# jolt_witness

Verified pieces of a zkVM prover's front end, written in Verus.

- `src/witness.rs` — the committed polynomials, their canonical order and
  index functions, and witness generation over a whole trace and for a single
  cycle. Laws: index round trips, a single-cycle witness is the entry of the
  whole-trace witness, every one-hot index is below the polynomial's size.
- `src/cycle.rs` — a trace cycle as the plain values witness generation
  reads, and the chunking of a lookup index (the chunks recompose the index).
- `src/math.rs` — smallest power of two at least `n`, maximum of a sequence.
- `src/instruction.rs`, `src/text.rs` — names of the extracted lookup
  instructions and their Lean text, each a ZkLean `ComposedLookupTable`. The
  multilinear extension of each instruction is evaluated symbolically by the
  prover's field machinery, which this crate does not hold: it comes in as
  text, one per instruction.
- `src/lexer.rs` — token trees to declaration tokens: `::` joined, words that
  `syn` does not read as identifiers set apart, groups without delimiters
  transparent.
- `src/enum_decl.rs` — the grammar of the enum declarations read by the
  declaration macros, a parser proved to accept exactly that grammar and to
  report where it stops, and variant naming.
- `src/codegen.rs` — the Rust source of the enums that the declaration macros
  emit, as text fixed by its specification.
- `app/` — token trees to plain values and generated source back to tokens for
  the declaration macros, and writing the Lean text out.
